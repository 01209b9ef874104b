# runi

Small composable pieces for command-line tools, with their behaviour
stated as Verus contracts and proved.

- `src/str_util.rs` — `truncate`, `is_blank`, `to_snake_case`,
  `to_camel_case`.
- `src/config.rs` — `Config`, a string key/value store; `from_vars`
  builds one from environment entries under a prefix.
- `src/error.rs` — the library-wide `Error` and `Result`.
- `src/cli/` — command schemas (`schema`), the option parser
  (`parser`), typed values (`types`), help output (`help`), launchers
  and subcommand dispatch (`dispatch`), the layout of commands declared
  as structs and enums (`layout`), and ANSI styling (`tint`).
- `src/log/` — the log line format and the collection of an event's
  message and fields.
- `src/text.rs`, `src/num.rs` — string and integer helpers the rest
  builds on.

`app/` holds what runs in a process: reading the command line and the
environment, printing help and errors, exiting, and installing the
`tracing` subscriber that uses the library's line format.
