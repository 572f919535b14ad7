//! An index from asset tags to handle numbers, kept in the host engine's
//! hash map.
//!
//! Nothing in this file is proved: the contracts below are this library's
//! reading of the hash map's source, and every proof about the asset store
//! rests on them.

use vstd::prelude::*;

verus! {

/// A `bevy::utils::HashMap` from tags to handle numbers. The map itself is
/// opaque to the verifier; `tag_index_entries` names what it holds.
#[verifier::external_body]
pub struct TagIndex {
    map: bevy::utils::HashMap<String, usize>,
}

/// The entries of a tag index: for each tag in it, the handle number kept
/// under that tag.
pub uninterp spec fn tag_index_entries(index: TagIndex) -> Map<Seq<char>, usize>;

/// The entries of an index that holds nothing.
pub open spec fn no_entries() -> Map<Seq<char>, usize> {
    Map::empty()
}

/// Whether `values` lists the value of each entry of `entries` once, in the
/// order in which `tags` lists the keys.
pub open spec fn lists_values(
    entries: Map<Seq<char>, usize>,
    tags: Seq<Seq<char>>,
    values: Seq<usize>,
) -> bool {
    &&& tags.no_duplicates()
    &&& tags.to_set() == entries.dom()
    &&& values.len() == tags.len()
    &&& forall|i: int| 0 <= i < tags.len() ==> values[i] == entries[#[trigger] tags[i]]
}

impl TagIndex {
    /// `HashMap::new`: the map it returns has no entries.
    #[verifier::external_body]
    pub(crate) fn new() -> (created: TagIndex)
        ensures
            tag_index_entries(created) == no_entries(),
    {
        TagIndex { map: bevy::utils::HashMap::new() }
    }

    /// `HashMap::insert`: afterwards the map holds `handle` under `tag`,
    /// in place of what it held under that tag before, and every other
    /// entry as before.
    #[verifier::external_body]
    pub(crate) fn insert(&mut self, tag: String, handle: usize)
        ensures
            tag_index_entries(*final(self)) == tag_index_entries(*old(self)).insert(tag@, handle),
    {
        self.map.insert(tag, handle);
    }

    /// `HashMap::get`: the handle kept under `tag`, or `None` where the map
    /// has no entry for it.
    #[verifier::external_body]
    pub(crate) fn get(&self, tag: &str) -> (handle: Option<usize>)
        ensures
            handle == if tag_index_entries(*self).contains_key(tag@) {
                Some(tag_index_entries(*self)[tag@])
            } else {
                None
            },
    {
        self.map.get(tag).copied()
    }

    /// `HashMap::values`: the value of every entry, once per entry, in an
    /// order that the map does not promise.
    #[verifier::external_body]
    pub(crate) fn values(&self) -> (values: Vec<usize>)
        ensures
            exists|tags: Seq<Seq<char>>| lists_values(tag_index_entries(*self), tags, values@),
    {
        self.map.values().copied().collect()
    }
}

} // verus!
