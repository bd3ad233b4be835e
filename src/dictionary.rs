use vstd::prelude::*;
use std::collections::BTreeMap;
use crate::table::{map_of, StrTable};

verus! {

#[verifier::external_type_specification]
#[verifier::external_body]
pub struct ExTomlError(toml::de::Error);

/// What `toml::from_str` makes of a document read as a flat table of string
/// values: its (key, value) pairs in key order, or `None` when the text is not
/// such a table.
pub uninterp spec fn toml_string_pairs(text: Seq<char>) -> Option<Seq<(Seq<char>, Seq<char>)>>;

/// Relies on `toml::from_str` into a `BTreeMap<String, String>`: it succeeds
/// exactly when the text is a table whose every value is a string, and the map
/// is walked in key order.
#[verifier::external_body]
fn parse_string_table(text: &str) -> (r: Result<Vec<(String, String)>, toml::de::Error>)
    ensures
        match r {
            Ok(pairs) => toml_string_pairs(text@) == Some(pairs.deep_view()),
            Err(_) => toml_string_pairs(text@) is None,
        },
{
    toml::from_str::<BTreeMap<String, String>>(text).map(|m| m.into_iter().collect())
}

/// Why a dictionary could not be loaded.
#[derive(Debug)]
pub enum ConfigError {
    /// The resource could not be read; the message says why.
    Unreadable(String),
    /// The resource is not a flat table of string values; the message says where.
    Malformed(String),
}

/// The hover dictionary: lookup key to markup payload, fixed once loaded.
pub struct Docs {
    table: StrTable,
}

impl Docs {
    pub closed spec fn wf(&self) -> bool {
        self.table.wf()
    }

    pub closed spec fn view(&self) -> Map<Seq<char>, Seq<char>> {
        self.table@
    }

    /// A dictionary with the given entries; where a key repeats, the later entry wins.
    pub fn from_entries(entries: Vec<(String, String)>) -> (r: Docs)
        ensures
            r.wf(),
            r@ == map_of(entries.deep_view()),
    {
        let mut table = StrTable::new();
        let mut i: usize = 0;
        let n = entries.len();
        let ghost dv = entries.deep_view();
        while i < n
            invariant
                n == entries.len(),
                dv == entries.deep_view(),
                i <= n,
                table.wf(),
                table@ == map_of(dv.take(i as int)),
            decreases n - i,
        {
            let k = entries[i].0.clone();
            let v = entries[i].1.clone();
            proof {
                assert(dv.take(i + 1).drop_last() =~= dv.take(i as int));
            }
            table.insert(k, v);
            i = i + 1;
        }
        proof {
            assert(dv.take(n as int) =~= dv);
        }
        Docs { table }
    }

    /// Parses a dictionary from the text of its configuration resource.
    pub fn parse(text: &str) -> (r: Result<Docs, ConfigError>)
        ensures
            match r {
                Ok(d) => {
                    &&& d.wf()
                    &&& toml_string_pairs(text@) is Some
                    &&& d@ == map_of(toml_string_pairs(text@)->0)
                },
                Err(e) => toml_string_pairs(text@) is None && e is Malformed,
            },
    {
        match parse_string_table(text) {
            Ok(pairs) => Ok(Docs::from_entries(pairs)),
            Err(e) => Err(ConfigError::Malformed(e.to_string())),
        }
    }

    /// The payload for `key`, matched exactly.
    pub fn get(&self, key: &str) -> (r: Option<String>)
        requires
            self.wf(),
        ensures
            match r {
                Some(v) => self@.contains_key(key@) && v@ == self@[key@],
                None => !self@.contains_key(key@),
            },
    {
        let k = key.to_owned();
        self.table.get(&k)
    }
}

} // verus!
