//! A map from lang item names to their targets, kept in an `FxHashMap`.

use vstd::prelude::*;

use ra_syntax::SmolStr;
use rustc_hash::FxHashMap;

use crate::target::LangItemTarget;

verus! {

/// A map from names to targets; keys compare as their text.
#[verifier::external_body]
pub struct TagMap {
    inner: FxHashMap<SmolStr, LangItemTarget>,
}

/// What a `TagMap` holds, keyed by the text of each name.
pub uninterp spec fn tag_map_contents(m: TagMap) -> Map<Seq<char>, LangItemTarget>;

/// The map with no entry.
pub open spec fn no_tags() -> Map<Seq<char>, LangItemTarget> {
    Map::empty()
}

impl TagMap {
    /// Relies on `FxHashMap::default`: a new map holds nothing.
    #[verifier::external_body]
    pub(crate) fn new() -> (r: TagMap)
        ensures
            tag_map_contents(r) == no_tags(),
    {
        TagMap { inner: FxHashMap::default() }
    }

    /// Relies on `HashMap::get`, with `SmolStr` borrowed as `str` (its hash and
    /// equality are those of its text): the target stored under `name`.
    #[verifier::external_body]
    pub(crate) fn get(&self, name: &str) -> (r: Option<&LangItemTarget>)
        ensures
            match r {
                Some(t) => tag_map_contents(*self).contains_key(name@) && *t
                    == tag_map_contents(*self)[name@],
                None => !tag_map_contents(*self).contains_key(name@),
            },
    {
        self.inner.get(name)
    }

    /// Relies on `HashMap::entry` and `Entry::or_insert`: `t` is stored under
    /// `name` unless that name is already present, which keeps its target.
    #[verifier::external_body]
    pub(crate) fn insert_if_absent(&mut self, name: &str, t: LangItemTarget)
        ensures
            tag_map_contents(*final(self)) == (if tag_map_contents(*old(self)).contains_key(
                name@,
            ) {
                tag_map_contents(*old(self))
            } else {
                tag_map_contents(*old(self)).insert(name@, t)
            }),
    {
        self.inner.entry(SmolStr::new(name)).or_insert(t);
    }
}

} // verus!
