//! A small string key/value configuration store.

use vstd::prelude::*;
use crate::text::{owned, str_eq, chars_of, starts_with, starts_with_exec, string_from_range, append_str};
use crate::num::{parse_int, parse_int_spec};
use crate::str_util::{uppercase, lowercase, str_to_uppercase, str_to_lowercase};

verus! {

/// The map that a list of distinct-keyed entries stands for.
pub open spec fn entries_map(s: Seq<(String, String)>) -> Map<Seq<char>, Seq<char>>
    decreases s.len(),
{
    if s.len() == 0 {
        Map::empty()
    } else {
        entries_map(s.drop_last()).insert(s.last().0@, s.last().1@)
    }
}

pub open spec fn distinct_keys(s: Seq<(String, String)>) -> bool {
    forall|i: int, j: int| 0 <= i < j < s.len() ==> s[i].0@ != s[j].0@
}

proof fn lemma_entries_map(s: Seq<(String, String)>)
    requires
        distinct_keys(s),
    ensures
        forall|i: int| 0 <= i < s.len() ==> #[trigger] entries_map(s).contains_key(s[i].0@)
            && entries_map(s)[s[i].0@] == s[i].1@,
        forall|k: Seq<char>| #[trigger] entries_map(s).contains_key(k) ==> exists|i: int|
            0 <= i < s.len() && s[i].0@ == k,
        entries_map(s).dom().finite(),
        entries_map(s).dom().len() == s.len(),
    decreases s.len(),
{
    if s.len() > 0 {
        let p = s.drop_last();
        lemma_entries_map(p);
        assert(!entries_map(p).contains_key(s.last().0@)) by {
            if entries_map(p).contains_key(s.last().0@) {
                let i = choose|i: int| 0 <= i < p.len() && p[i].0@ == s.last().0@;
                assert(s[i].0@ == s[s.len() - 1].0@);
            }
        }
        assert forall|k: Seq<char>| #[trigger] entries_map(s).contains_key(k) implies exists|i: int|
            0 <= i < s.len() && s[i].0@ == k by {
            if k != s.last().0@ {
                let i = choose|i: int| 0 <= i < p.len() && p[i].0@ == k;
                assert(s[i].0@ == k);
            } else {
                assert(s[s.len() - 1].0@ == k);
            }
        }
        assert forall|i: int| 0 <= i < s.len() implies #[trigger] entries_map(s).contains_key(s[i].0@)
            && entries_map(s)[s[i].0@] == s[i].1@ by {
            if i < s.len() - 1 {
                assert(s[i] == p[i]);
                assert(s[i].0@ != s[s.len() - 1].0@);
            }
        }
    }
}

proof fn lemma_entries_update(s: Seq<(String, String)>, i: int, e: (String, String))
    requires
        distinct_keys(s),
        0 <= i < s.len(),
        e.0@ == s[i].0@,
    ensures
        entries_map(s.update(i, e)) == entries_map(s).insert(e.0@, e.1@),
        distinct_keys(s.update(i, e)),
    decreases s.len(),
{
    let t = s.update(i, e);
    if i == s.len() - 1 {
        assert(t.drop_last() =~= s.drop_last());
        assert(entries_map(s).insert(e.0@, e.1@) =~= entries_map(s.drop_last()).insert(e.0@, e.1@));
    } else {
        lemma_entries_update(s.drop_last(), i, e);
        assert(t.drop_last() =~= s.drop_last().update(i, e));
        lemma_entries_map(s.drop_last());
        assert(s.last().0@ != e.0@);
        assert(entries_map(t) =~= entries_map(s).insert(e.0@, e.1@));
    }
}

/// The plain values of a list of environment entries.
pub open spec fn vars_view(vars: Seq<(String, String)>) -> Seq<(Seq<char>, Seq<char>)> {
    vars.map_values(|e: (String, String)| (e.0@, e.1@))
}

/// The settings that environment entries give under `marker` (the
/// uppercased prefix and `_`): each entry whose name starts with `marker`
/// sets the lowercased rest of the name to its value; a later entry wins.
pub open spec fn env_settings(
    marker: Seq<char>,
    vars: Seq<(Seq<char>, Seq<char>)>,
) -> Map<Seq<char>, Seq<char>>
    decreases vars.len(),
{
    if vars.len() == 0 {
        Map::empty()
    } else {
        let m = env_settings(marker, vars.drop_last());
        let k = vars.last().0;
        if starts_with(k, marker) {
            m.insert(lowercase(k.skip(marker.len() as int)), vars.last().1)
        } else {
            m
        }
    }
}

/// A configuration: string keys mapped to string values.
#[derive(Debug)]
pub struct Config {
    values: Vec<(String, String)>,
}

impl Config {
    #[verifier::type_invariant]
    spec fn keys_distinct(self) -> bool {
        distinct_keys(self.values@)
    }

    /// The key/value map the configuration holds.
    pub closed spec fn view(&self) -> Map<Seq<char>, Seq<char>> {
        entries_map(self.values@)
    }

    /// An empty configuration.
    pub fn new() -> (r: Self)
        ensures
            r.view() == Map::<Seq<char>, Seq<char>>::empty(),
    {
        Config { values: Vec::new() }
    }

    /// The configuration that environment entries `vars` give under `prefix`:
    /// every entry named `PREFIX_rest` (the prefix uppercased) sets `rest`,
    /// lowercased, to its value. The environment is read by the caller.
    pub fn from_vars(prefix: &str, vars: &Vec<(String, String)>) -> (r: Self)
        ensures
            r.view() == env_settings(uppercase(prefix@) + seq!['_'], vars_view(vars@)),
    {
        let mut marker = str_to_uppercase(prefix);
        append_str(&mut marker, "_");
        proof {
            reveal_strlit("_");
        }
        let ghost m = marker@;
        assert(m =~= uppercase(prefix@) + seq!['_']);
        let mut config = Config::new();
        let mut i: usize = 0;
        while i < vars.len()
            invariant
                i <= vars@.len(),
                marker@ == m,
                config.view() == env_settings(m, vars_view(vars@.take(i as int))),
            decreases vars.len() - i,
        {
            let key = chars_of(vars[i].0.as_str());
            assert(vars_view(vars@.take(i + 1)).drop_last() =~= vars_view(vars@.take(i as int)));
            if starts_with_exec(&key, marker.as_str()) {
                let m_len = chars_of(marker.as_str()).len();
                let rest = string_from_range(&key, m_len, key.len());
                assert(rest@ =~= key@.skip(m.len() as int));
                let name = str_to_lowercase(rest.as_str());
                config.set(name.as_str(), vars[i].1.as_str());
            }
            i = i + 1;
        }
        assert(vars@.take(vars@.len() as int) =~= vars@);
        config
    }

    /// Index of the entry holding `key`.
    fn find(&self, key: &str) -> (r: Option<usize>)
        ensures
            r matches Some(i) ==> i < self.values@.len() && self.values@[i as int].0@ == key@,
            r is None ==> forall|i: int| 0 <= i < self.values@.len() ==> self.values@[i].0@ != key@,
    {
        let mut i: usize = 0;
        while i < self.values.len()
            invariant
                i <= self.values@.len(),
                forall|j: int| 0 <= j < i ==> self.values@[j].0@ != key@,
            decreases self.values.len() - i,
        {
            if str_eq(self.values[i].0.as_str(), key) {
                return Some(i);
            }
            i = i + 1;
        }
        None
    }

    /// Sets `key` to `value`, replacing any earlier value of `key`.
    pub fn set(&mut self, key: &str, value: &str)
        ensures
            final(self).view() == old(self).view().insert(key@, value@),
            final(self).view().dom().len() == old(self).view().dom().len() + if old(
                self,
            ).view().contains_key(key@) {
                0int
            } else {
                1int
            },
    {
        proof {
            use_type_invariant(&*self);
            lemma_entries_finite(self.values@);
        }
        let entry = (owned(key), owned(value));
        let found = self.find(key);
        let mut values: Vec<(String, String)> = Vec::new();
        std::mem::swap(&mut values, &mut self.values);
        let ghost old_values = values@;
        match found {
            Some(i) => {
                proof { lemma_entries_update(old_values, i as int, entry); }
                values.set(i, entry);
            },
            None => {
                proof { lemma_entries_map(old_values); }
                values.push(entry);
                assert(values@.drop_last() =~= old_values);
            },
        }
        self.values = values;
    }

    /// The value of `key`, if set.
    pub fn get(&self, key: &str) -> (r: Option<&str>)
        ensures
            r is Some <==> self.view().contains_key(key@),
            r matches Some(v) ==> v@ == self.view()[key@],
    {
        proof {
            use_type_invariant(self);
            lemma_entries_map(self.values@);
        }
        match self.find(key) {
            Some(i) => {
                assert(entries_map(self.values@).contains_key(self.values@[i as int].0@));
                Some(self.values[i].1.as_str())
            },
            None => None,
        }
    }

    /// The value of `key`, or `default` when it is not set.
    pub fn get_or(&self, key: &str, default: &str) -> (r: String)
        ensures
            r@ == if self.view().contains_key(key@) {
                self.view()[key@]
            } else {
                default@
            },
    {
        match self.get(key) {
            Some(v) => owned(v),
            None => owned(default),
        }
    }

    /// The value of `key` read as a `u64`; `None` when it is not set or is not a
    /// decimal number that fits.
    pub fn get_u64(&self, key: &str) -> (r: Option<u64>)
        ensures
            r == (if self.view().contains_key(key@) {
                match parse_int_spec(self.view()[key@], 0, u64::MAX as int) {
                    Ok(n) => Some(n as u64),
                    Err(_) => None,
                }
            } else {
                None::<u64>
            }),
    {
        match self.get(key) {
            Some(v) => match parse_int(v, 0, u64::MAX as i128) {
                Ok(n) => Some(n as u64),
                Err(_) => None,
            },
            None => None,
        }
    }

    /// Number of keys set.
    pub fn len(&self) -> (r: usize)
        ensures
            r == self.view().dom().len(),
    {
        proof {
            use_type_invariant(self);
            lemma_entries_map(self.values@);
        }
        self.values.len()
    }

    /// `true` when no key is set.
    pub fn is_empty(&self) -> (r: bool)
        ensures
            r == (self.view().dom().len() == 0),
    {
        self.len() == 0
    }

    /// The keys that are set, each once.
    pub fn keys(&self) -> (r: Vec<String>)
        ensures
            r@.len() == self.view().dom().len(),
            forall|i: int| 0 <= i < r@.len() ==> self.view().contains_key(#[trigger] r@[i]@),
            forall|k: Seq<char>| #[trigger] self.view().contains_key(k) ==> exists|i: int|
                0 <= i < r@.len() && r@[i]@ == k,
            forall|i: int, j: int| 0 <= i < j < r@.len() ==> r@[i]@ != r@[j]@,
    {
        proof {
            use_type_invariant(self);
            lemma_entries_map(self.values@);
        }
        let mut r: Vec<String> = Vec::new();
        let mut i: usize = 0;
        while i < self.values.len()
            invariant
                i <= self.values@.len(),
                r@.len() == i,
                distinct_keys(self.values@),
                forall|j: int| 0 <= j < i ==> #[trigger] r@[j]@ == self.values@[j].0@,
            decreases self.values.len() - i,
        {
            r.push(self.values[i].0.clone());
            i = i + 1;
        }
        proof {
            assert forall|k: Seq<char>| #[trigger] self.view().contains_key(k) implies exists|i: int|
                0 <= i < r@.len() && r@[i]@ == k by {
                let i = choose|i: int| 0 <= i < self.values@.len() && self.values@[i].0@ == k;
                assert(r@[i]@ == k);
            }
        }
        r
    }
}

proof fn lemma_entries_finite(s: Seq<(String, String)>)
    ensures
        entries_map(s).dom().finite(),
    decreases s.len(),
{
    if s.len() > 0 {
        lemma_entries_finite(s.drop_last());
    }
}

/// Law: a configuration holds finitely many keys.
pub proof fn lemma_config_finite(c: Config)
    ensures
        c.view().dom().finite(),
{
    lemma_entries_finite(c.values@);
}

/// Law: after `set(k, v)`, `get(k)` gives `v`, and every other key keeps its value.
pub proof fn lemma_config_read_after_write(
    before: Map<Seq<char>, Seq<char>>,
    k: Seq<char>,
    v: Seq<char>,
    other: Seq<char>,
)
    requires
        other != k,
    ensures
        before.insert(k, v).contains_key(k),
        before.insert(k, v)[k] == v,
        before.insert(k, v).contains_key(other) == before.contains_key(other),
        before.contains_key(other) ==> before.insert(k, v)[other] == before[other],
{
}

/// Law: each environment entry under the marker sets its key (the rest of
/// the name, lowercased) to its value exactly as given, replacing an earlier
/// setting; an entry not under the marker changes nothing.
pub proof fn lemma_env_settings_append(
    marker: Seq<char>,
    vars: Seq<(Seq<char>, Seq<char>)>,
    k: Seq<char>,
    v: Seq<char>,
)
    ensures
        starts_with(k, marker) ==> env_settings(marker, vars.push((k, v))) == env_settings(
            marker,
            vars,
        ).insert(lowercase(k.skip(marker.len() as int)), v),
        starts_with(k, marker) ==> env_settings(marker, vars.push((k, v))).contains_key(
            lowercase(k.skip(marker.len() as int)),
        ) && env_settings(marker, vars.push((k, v)))[lowercase(k.skip(marker.len() as int))] == v,
        !starts_with(k, marker) ==> env_settings(marker, vars.push((k, v))) == env_settings(marker, vars),
{
    let s = vars.push((k, v));
    assert(s.drop_last() =~= vars);
    assert(s.last() == (k, v));
}

/// Law: every value the settings hold is the value of one of the entries,
/// unchanged.
pub proof fn lemma_env_settings_values_given(marker: Seq<char>, vars: Seq<(Seq<char>, Seq<char>)>)
    ensures
        forall|key: Seq<char>| #[trigger] env_settings(marker, vars).contains_key(key) ==> exists|i: int|
            0 <= i < vars.len() && vars[i].1 == env_settings(marker, vars)[key],
    decreases vars.len(),
{
    if vars.len() > 0 {
        let d = vars.drop_last();
        lemma_env_settings_values_given(marker, d);
        assert forall|key: Seq<char>| #[trigger] env_settings(marker, vars).contains_key(key) implies exists|
            i: int,
        | 0 <= i < vars.len() && vars[i].1 == env_settings(marker, vars)[key] by {
            let k = vars.last().0;
            if starts_with(k, marker) && key == lowercase(k.skip(marker.len() as int)) {
                assert(vars[vars.len() - 1].1 == env_settings(marker, vars)[key]);
            } else {
                assert(env_settings(marker, d).contains_key(key));
                let i = choose|i: int| 0 <= i < d.len() && d[i].1 == env_settings(marker, d)[key];
                assert(vars[i] == d[i]);
            }
        }
    }
}

} // verus!
