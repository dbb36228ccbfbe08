//! A string-keyed map of localization tokens.
use vstd::prelude::*;
use vstd::hash_map::StringHashMap;

verus! {

/// Localization tokens: each key maps to the text shown for it.
pub struct KeyValues {
    m: StringHashMap<String>,
}

impl View for KeyValues {
    type V = Map<Seq<char>, Seq<char>>;

    closed spec fn view(&self) -> Map<Seq<char>, Seq<char>> {
        self.m@.map_values(|v: String| v@)
    }
}

impl KeyValues {
    /// An empty map.
    pub fn new() -> (r: KeyValues)
        ensures
            r@ == Map::<Seq<char>, Seq<char>>::empty(),
    {
        let r = KeyValues { m: StringHashMap::new() };
        assert(r@ =~= Map::<Seq<char>, Seq<char>>::empty());
        r
    }

    /// Sets the text of key `k` to `v`, replacing any earlier text.
    pub fn insert(&mut self, k: String, v: String)
        ensures
            final(self)@ == old(self)@.insert(k@, v@),
    {
        self.m.insert(k, v);
        assert(self@ =~= old(self)@.insert(k@, v@));
    }

    /// The text of key `k`, if the map has one.
    pub fn get(&self, k: &str) -> (r: Option<&String>)
        ensures
            match r {
                Some(v) => self@.contains_key(k@) && v@ == self@[k@],
                None => !self@.contains_key(k@),
            },
    {
        self.m.get(k)
    }

    /// Number of keys.
    pub fn len(&self) -> (r: usize)
        ensures
            r == self@.len(),
    {
        assert(self@.dom() =~= self.m@.dom());
        self.m.len()
    }

    /// Whether the map has no key.
    pub fn is_empty(&self) -> (r: bool)
        ensures
            r == self@.is_empty(),
    {
        assert(self@.dom() =~= self.m@.dom());
        self.m.is_empty()
    }

    /// Adds every pair of `other`; where both maps hold a key, `other`'s text wins.
    pub fn extend(&mut self, other: KeyValues)
        ensures
            final(self)@ == old(self)@.union_prefer_right(other@),
    {
        let ghost o = other@;
        self.m.union_prefer_right(other.m);
        assert(self@ =~= old(self)@.union_prefer_right(o));
    }
}

} // verus!
