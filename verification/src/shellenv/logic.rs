//! Aliases and functions.

use crate::text;
use crate::text::chars_of;
use crate::text::owned;
use crate::text::string_of;
use crate::text::trim;
use vstd::hash_map::StringHashMap;
use vstd::prelude::*;

verus! {

/// Aliases and functions by name.
pub struct LogTab {
    pub aliases: StringHashMap<String>,
    pub functions: StringHashMap<String>,
}

/// What a table holds, in characters.
pub open spec fn texts(m: Map<Seq<char>, String>) -> Map<Seq<char>, Seq<char>> {
    m.map_values(|s: String| s@)
}

fn trimmed_text(s: &str) -> (r: String)
    ensures
        r@ == text::trimmed(s@),
{
    let v = chars_of(s);
    let t = trim(v.as_slice());
    string_of(t.as_slice())
}

impl LogTab {
    pub fn new() -> (r: Self)
        ensures
            texts(r.aliases@) == Map::<Seq<char>, Seq<char>>::empty(),
            texts(r.functions@) == Map::<Seq<char>, Seq<char>>::empty(),
    {
        let r = LogTab { aliases: StringHashMap::new(), functions: StringHashMap::new() };
        assert(texts(r.aliases@) =~= Map::empty());
        assert(texts(r.functions@) =~= Map::empty());
        r
    }

    pub fn get_alias(&self, name: &str) -> (r: Option<&str>)
        ensures
            match r {
                Some(s) => texts(self.aliases@).contains_key(name@) && s@ == texts(
                    self.aliases@,
                )[name@],
                None => !texts(self.aliases@).contains_key(name@),
            },
    {
        match self.aliases.get(name) {
            Some(s) => Some(s.as_str()),
            None => None,
        }
    }

    /// Sets an alias, without the space around it.
    pub fn set_alias(&mut self, name: &str, body: &str)
        ensures
            texts(final(self).aliases@) == texts(old(self).aliases@).insert(
                name@,
                text::trimmed(body@),
            ),
            final(self).functions == old(self).functions,
    {
        let b = trimmed_text(body);
        self.aliases.insert(owned(name), b);
        assert(texts(self.aliases@) =~= texts(old(self).aliases@).insert(
            name@,
            text::trimmed(body@),
        ));
    }

    pub fn get_function(&self, name: &str) -> (r: Option<&str>)
        ensures
            match r {
                Some(s) => texts(self.functions@).contains_key(name@) && s@ == texts(
                    self.functions@,
                )[name@],
                None => !texts(self.functions@).contains_key(name@),
            },
    {
        match self.functions.get(name) {
            Some(s) => Some(s.as_str()),
            None => None,
        }
    }

    /// Sets a function, without the space around it.
    pub fn set_function(&mut self, name: &str, body: &str)
        ensures
            texts(final(self).functions@) == texts(old(self).functions@).insert(
                name@,
                text::trimmed(body@),
            ),
            final(self).aliases == old(self).aliases,
    {
        let b = trimmed_text(body);
        self.functions.insert(owned(name), b);
        assert(texts(self.functions@) =~= texts(old(self).functions@).insert(
            name@,
            text::trimmed(body@),
        ));
    }
}

} // verus!
