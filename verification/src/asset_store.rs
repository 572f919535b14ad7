//! The asset store: which handle each tag stands for, which raw loads have
//! resolved, and the composite assets (tile atlases) that wait for their base
//! image.
//!
//! Handles are numbers that the store gives out. A raw handle is the position
//! of a load request in the order of requests; a composite handle is the
//! position of a deferred composite in the order of deferral. The host keeps
//! the engine's own handles in tables by these positions.

use crate::physics::Vec2;
use crate::tag_index::{no_entries, tag_index_entries, TagIndex};
use vstd::prelude::*;

verus! {

/// A reference to a loaded resource.
#[derive(Clone, Copy, Debug, PartialEq, Eq, Structural)]
pub enum Handle {
    /// A resource loaded from a file.
    Raw(usize),
    /// A resource built from a raw one.
    Composite(usize),
}

/// What can go wrong with assets.
#[derive(Clone, Debug, PartialEq, Eq)]
pub enum AssetError {
    /// The file of an asset is not in the asset directory.
    SourceMissing { filename: String },
    /// No resolved asset goes by the tag.
    NotFound { tag: String },
    /// The base image of a composite has not resolved.
    UnresolvedBase { tag: String },
}

/// An asset error with its texts as sequences of characters.
pub enum AssetErrorView {
    SourceMissing { filename: Seq<char> },
    NotFound { tag: Seq<char> },
    UnresolvedBase { tag: Seq<char> },
}

impl View for AssetError {
    type V = AssetErrorView;

    open spec fn view(&self) -> AssetErrorView {
        match *self {
            AssetError::SourceMissing { filename } => AssetErrorView::SourceMissing {
                filename: filename@,
            },
            AssetError::NotFound { tag } => AssetErrorView::NotFound { tag: tag@ },
            AssetError::UnresolvedBase { tag } => AssetErrorView::UnresolvedBase { tag: tag@ },
        }
    }
}

impl AssetErrorView {
    /// The text that describes the error.
    pub open spec fn message(self) -> Seq<char> {
        match self {
            AssetErrorView::SourceMissing { filename } => filename
                + " not found in assets directory"@,
            AssetErrorView::NotFound { tag } => tag + " not found in asset store"@,
            AssetErrorView::UnresolvedBase { tag } => tag + " not loaded for its sprite sheet"@,
        }
    }
}

impl AssetError {
    /// The text that describes the error.
    pub fn message(&self) -> (text: String)
        ensures
            text@ == self@.message(),
    {
        match self {
            AssetError::SourceMissing { filename } => filename.clone().concat(
                " not found in assets directory",
            ),
            AssetError::NotFound { tag } => tag.clone().concat(" not found in asset store"),
            AssetError::UnresolvedBase { tag } => tag.clone().concat(
                " not loaded for its sprite sheet",
            ),
        }
    }
}

/// The tag under which the base image of the composite `tag` is kept.
pub open spec fn base_tag(tag: Seq<char>) -> Seq<char> {
    tag + "_base"@
}

/// The tag under which the base image of the composite `tag` is kept.
pub fn make_base_tag(tag: &str) -> (base: String)
    ensures
        base@ == base_tag(tag@),
{
    tag.to_owned().concat("_base")
}

/// A tag is never the tag of its own base image.
pub proof fn lemma_base_tag_differs(tag: Seq<char>)
    ensures
        base_tag(tag) != tag,
{
    reveal_strlit("_base");
    assert(base_tag(tag).len() == tag.len() + 5);
}

/// A composite that waits for its base image: the tile atlas `tag`, to be cut
/// from the image `texture_tag` in `sprites_x` columns and `sprites_y` rows of
/// tiles of size `tile_size`.
#[derive(Clone, Debug, PartialEq, Eq)]
pub struct FutureAtlas {
    pub tag: String,
    pub texture_tag: String,
    pub tile_size: Vec2,
    pub sprites_x: usize,
    pub sprites_y: usize,
}

/// A deferred composite with its tags as sequences of characters.
pub struct FutureAtlasView {
    pub tag: Seq<char>,
    pub texture_tag: Seq<char>,
    pub tile_size: Vec2,
    pub sprites_x: usize,
    pub sprites_y: usize,
}

impl View for FutureAtlas {
    type V = FutureAtlasView;

    open spec fn view(&self) -> FutureAtlasView {
        FutureAtlasView {
            tag: self.tag@,
            texture_tag: self.texture_tag@,
            tile_size: self.tile_size,
            sprites_x: self.sprites_x,
            sprites_y: self.sprites_y,
        }
    }
}

/// An order to the host: cut the loaded image `texture` into tiles and keep
/// the result as composite number `handle`.
#[derive(Clone, Copy, Debug, PartialEq, Eq, Structural)]
pub struct AtlasJob {
    pub handle: usize,
    pub texture: usize,
    pub tile_size: Vec2,
    pub sprites_x: usize,
    pub sprites_y: usize,
}

/// What an asset store is, mathematically.
pub struct StoreView {
    /// The raw handle of each tag.
    pub index: Map<Seq<char>, usize>,
    /// The composites that wait for their base image, in order of deferral.
    pub deferred: Seq<FutureAtlasView>,
    /// The composite handle of each tag whose composite was built.
    pub composites: Map<Seq<char>, usize>,
    /// For each raw handle, whether its load has resolved.
    pub loaded: Seq<bool>,
}

impl StoreView {
    /// The store that holds nothing.
    pub open spec fn empty() -> StoreView {
        StoreView {
            index: no_entries(),
            deferred: Seq::empty(),
            composites: no_entries(),
            loaded: Seq::empty(),
        }
    }

    /// The handles fit the machine; every raw handle in the index was given
    /// out by this store; every
    /// deferred composite names its base image by the base tag of its own
    /// tag, and that tag is in the index; every composite handle is the
    /// position of a deferred composite with that tag.
    pub open spec fn wf(self) -> bool {
        &&& self.loaded.len() <= usize::MAX
        &&& self.deferred.len() <= usize::MAX
        &&& forall|tag: Seq<char>| #[trigger]
            self.index.contains_key(tag) ==> self.index[tag] < self.loaded.len()
        &&& forall|i: int|
            0 <= i < self.deferred.len() ==> {
                &&& (#[trigger] self.deferred[i]).texture_tag == base_tag(self.deferred[i].tag)
                &&& self.index.contains_key(self.deferred[i].texture_tag)
            }
        &&& forall|tag: Seq<char>| #[trigger]
            self.composites.contains_key(tag) ==> {
                &&& self.composites[tag] < self.deferred.len()
                &&& self.deferred[self.composites[tag] as int].tag == tag
            }
    }

    /// The store after a load was requested for `tag`: the tag stands for a
    /// new raw handle, which has not resolved.
    pub open spec fn with_load(self, tag: Seq<char>) -> StoreView {
        StoreView {
            index: self.index.insert(tag, self.loaded.len() as usize),
            loaded: self.loaded.push(false),
            ..self
        }
    }

    /// The store after the composite `atlas` was deferred.
    pub open spec fn with_deferred(self, atlas: FutureAtlasView) -> StoreView {
        StoreView { deferred: self.deferred.push(atlas), ..self }
    }

    /// The store after the load of `handle` resolved.
    pub open spec fn with_resolved(self, handle: usize) -> StoreView {
        if handle < self.loaded.len() {
            StoreView { loaded: self.loaded.update(handle as int, true), ..self }
        } else {
            self
        }
    }

    /// The raw handle of `tag`, where the tag is in the index and its load
    /// has resolved.
    pub open spec fn raw(self, tag: Seq<char>) -> Option<usize> {
        if self.index.contains_key(tag) && self.index[tag] < self.loaded.len()
            && self.loaded[self.index[tag] as int] {
            Some(self.index[tag])
        } else {
            None
        }
    }

    /// The composite handle of `tag`, where its composite was built.
    pub open spec fn composite(self, tag: Seq<char>) -> Option<usize> {
        if self.composites.contains_key(tag) {
            Some(self.composites[tag])
        } else {
            None
        }
    }

    /// The handle that `tag` stands for: the composite built under that tag,
    /// else the resolved raw resource under that tag, else nothing.
    pub open spec fn lookup(self, tag: Seq<char>) -> Option<Handle> {
        match self.composite(tag) {
            Some(handle) => Some(Handle::Composite(handle)),
            None => match self.raw(tag) {
                Some(handle) => Some(Handle::Raw(handle)),
                None => None,
            },
        }
    }

    /// Whether the base image of the deferred composite `i` has resolved.
    pub open spec fn base_resolved(self, i: int) -> bool {
        self.raw(self.deferred[i].texture_tag).is_some()
    }

    /// Whether `i` is the first deferred composite whose base image has not
    /// resolved.
    pub open spec fn is_first_unresolved(self, i: int) -> bool {
        &&& 0 <= i < self.deferred.len()
        &&& !self.base_resolved(i)
        &&& forall|j: int| 0 <= j < i ==> #[trigger] self.base_resolved(j)
    }

    /// The first deferred composite whose base image has not resolved.
    pub open spec fn first_unresolved(self) -> Option<int> {
        if exists|i: int| self.is_first_unresolved(i) {
            Some(choose|i: int| self.is_first_unresolved(i))
        } else {
            None
        }
    }

    /// The order to build the deferred composite `i`.
    pub open spec fn job(self, i: int) -> AtlasJob {
        AtlasJob {
            handle: i as usize,
            texture: self.index[self.deferred[i].texture_tag],
            tile_size: self.deferred[i].tile_size,
            sprites_x: self.deferred[i].sprites_x,
            sprites_y: self.deferred[i].sprites_y,
        }
    }

    /// The orders to build all deferred composites, in order of deferral.
    pub open spec fn jobs(self) -> Seq<AtlasJob> {
        Seq::new(self.deferred.len(), |i: int| self.job(i))
    }

    /// The composite handles after the first `upto` deferred composites were
    /// built: each is kept under its tag, a later one in place of an earlier
    /// one with the same tag.
    pub open spec fn built(self, upto: nat) -> Map<Seq<char>, usize>
        decreases upto,
    {
        if upto == 0 {
            self.composites
        } else {
            self.built((upto - 1) as nat).insert(
                self.deferred[upto - 1].tag,
                (upto - 1) as usize,
            )
        }
    }

    /// The store after all deferred composites were built.
    pub open spec fn with_atlases(self) -> StoreView {
        StoreView { composites: self.built(self.deferred.len()), ..self }
    }
}

/// Building the first `upto` deferred composites of a well-formed store
/// leaves every composite handle at a deferred composite with its tag, and
/// gives each of those `upto` composites a handle under its tag.
pub proof fn lemma_built_covers(store: StoreView, upto: nat)
    requires
        store.wf(),
        upto <= store.deferred.len(),
    ensures
        forall|tag: Seq<char>| #[trigger]
            store.built(upto).contains_key(tag) ==> {
                &&& store.built(upto)[tag] < store.deferred.len()
                &&& store.deferred[store.built(upto)[tag] as int].tag == tag
            },
        forall|i: int|
            0 <= i < upto ==> store.built(upto).contains_key((#[trigger] store.deferred[i]).tag),
    decreases upto,
{
    if upto > 0 {
        lemma_built_covers(store, (upto - 1) as nat);
        let before = store.built((upto - 1) as nat);
        let newest = store.deferred[upto - 1].tag;
        assert(store.built(upto) == before.insert(newest, (upto - 1) as usize));
        assert forall|tag: Seq<char>| #[trigger] store.built(upto).contains_key(tag) implies {
            &&& store.built(upto)[tag] < store.deferred.len()
            &&& store.deferred[store.built(upto)[tag] as int].tag == tag
        } by {
            if tag != newest {
                assert(before.contains_key(tag));
            }
        }
        assert forall|i: int| 0 <= i < upto implies store.built(upto).contains_key(
            (#[trigger] store.deferred[i]).tag,
        ) by {
            if i < upto - 1 {
                assert(before.contains_key(store.deferred[i].tag));
            }
        }
    }
}

/// The asset store.
pub struct AssetStore {
    asset_index: TagIndex,
    atlases_to_build: Vec<FutureAtlas>,
    atlases: TagIndex,
    loaded: Vec<bool>,
}

impl View for AssetStore {
    type V = StoreView;

    closed spec fn view(&self) -> StoreView {
        StoreView {
            index: tag_index_entries(self.asset_index),
            deferred: self.atlases_to_build@.map_values(|atlas: FutureAtlas| atlas@),
            composites: tag_index_entries(self.atlases),
            loaded: self.loaded@,
        }
    }
}

impl AssetStore {
    /// A store that holds nothing.
    pub fn new() -> (store: Self)
        ensures
            store@ == StoreView::empty(),
            store@.wf(),
    {
        let store = AssetStore {
            asset_index: TagIndex::new(),
            atlases_to_build: Vec::new(),
            atlases: TagIndex::new(),
            loaded: Vec::new(),
        };
        assert(store@.deferred =~= Seq::empty());
        store
    }

    /// Records that a load was requested for `tag` and returns the raw handle
    /// that stands for it. A tag that was in the index stands for the new
    /// handle from now on.
    pub(crate) fn load(&mut self, tag: String) -> (handle: usize)
        ensures
            final(self)@ == old(self)@.with_load(tag@),
            handle == old(self)@.loaded.len(),
    {
        let handle = self.loaded.len();
        self.asset_index.insert(tag, handle);
        self.loaded.push(false);
        handle
    }

    /// Records a composite that waits for its base image.
    pub(crate) fn defer(&mut self, atlas: FutureAtlas)
        ensures
            final(self)@ == old(self)@.with_deferred(atlas@),
    {
        let ghost before = self.atlases_to_build@;
        self.atlases_to_build.push(atlas);
        assert(self.atlases_to_build@.map_values(|atlas: FutureAtlas| atlas@) =~= before.map_values(
            |atlas: FutureAtlas| atlas@,
        ).push(atlas@));
    }

    /// Records that the load of `handle` has resolved. A number that is no
    /// raw handle of this store changes nothing.
    pub(crate) fn mark_loaded(&mut self, handle: usize)
        ensures
            final(self)@ == old(self)@.with_resolved(handle),
    {
        if handle < self.loaded.len() {
            self.loaded.set(handle, true);
        }
    }

    /// The raw handles that the tags of the index stand for.
    pub(crate) fn indexed_handles(&self) -> (handles: Vec<usize>)
        ensures
            exists|tags: Seq<Seq<char>>|
                crate::tag_index::lists_values(self@.index, tags, handles@),
    {
        let handles = self.asset_index.values();
        proof {
            let tags = choose|tags: Seq<Seq<char>>|
                crate::tag_index::lists_values(
                    tag_index_entries(self.asset_index),
                    tags,
                    handles@,
                );
            assert(crate::tag_index::lists_values(self@.index, tags, handles@));
        }
        handles
    }

    /// How many raw loads were requested.
    pub fn requested(&self) -> (count: usize)
        ensures
            count == self@.loaded.len(),
    {
        self.loaded.len()
    }

    /// How many composites wait for, or were built from, a base image.
    pub fn deferred(&self) -> (count: usize)
        ensures
            count == self@.deferred.len(),
    {
        self.atlases_to_build.len()
    }

    /// The raw handle of `tag`: `None` where the tag is not in the index or
    /// its load has not resolved.
    pub fn get_handle(&self, tag: &str) -> (handle: Option<usize>)
        ensures
            handle == self@.raw(tag@),
    {
        match self.asset_index.get(tag) {
            Some(handle) => {
                if handle < self.loaded.len() && self.loaded[handle] {
                    Some(handle)
                } else {
                    None
                }
            },
            None => None,
        }
    }

    /// The composite handle of `tag`: `None` where no composite was built
    /// under that tag.
    pub fn get_atlas_handle(&self, tag: &str) -> (handle: Option<usize>)
        ensures
            handle == self@.composite(tag@),
    {
        self.atlases.get(tag)
    }

    /// The handle that `tag` stands for. Fails where the tag was never
    /// registered, and where its resource has not resolved yet.
    pub fn lookup(&self, tag: &str) -> (found: Result<Handle, AssetError>)
        ensures
            match self@.lookup(tag@) {
                Some(handle) => found == Ok::<Handle, AssetError>(handle),
                None => found matches Err(error) && error@ == (AssetErrorView::NotFound {
                    tag: tag@,
                }),
            },
    {
        match self.get_atlas_handle(tag) {
            Some(handle) => Ok(Handle::Composite(handle)),
            None => match self.get_handle(tag) {
                Some(handle) => Ok(Handle::Raw(handle)),
                None => Err(AssetError::NotFound { tag: tag.to_owned() }),
            },
        }
    }

    /// Builds every deferred composite: looks up the resolved handle of its
    /// base image, writes the order to cut it into tiles, and keeps the
    /// composite's handle under its tag. Where the base image of a deferred
    /// composite has not resolved, nothing is built and the store stays as it
    /// is; the error names the base tag of the first such composite.
    pub fn load_atlases(&mut self) -> (outcome: Result<Vec<AtlasJob>, AssetError>)
        ensures
            match old(self)@.first_unresolved() {
                None => outcome matches Ok(jobs) && jobs@ == old(self)@.jobs() && final(self)@
                    == old(self)@.with_atlases(),
                Some(i) => outcome matches Err(error) && error@
                    == (AssetErrorView::UnresolvedBase { tag: old(self)@.deferred[i].texture_tag })
                    && final(self)@ == old(self)@,
            },
    {
        let mut jobs: Vec<AtlasJob> = Vec::new();
        let mut i: usize = 0;
        while i < self.atlases_to_build.len()
            invariant
                i <= self.atlases_to_build.len(),
                *self == *old(self),
                jobs@.len() == i,
                forall|k: int| 0 <= k < i ==> jobs@[k] == #[trigger] self@.job(k),
                forall|k: int| 0 <= k < i ==> #[trigger] self@.base_resolved(k),
            decreases self.atlases_to_build.len() - i,
        {
            let atlas = &self.atlases_to_build[i];
            assert(self@.deferred[i as int] == atlas@);
            match self.get_handle(atlas.texture_tag.as_str()) {
                Some(texture) => {
                    jobs.push(
                        AtlasJob {
                            handle: i,
                            texture,
                            tile_size: atlas.tile_size,
                            sprites_x: atlas.sprites_x,
                            sprites_y: atlas.sprites_y,
                        },
                    );
                },
                None => {
                    proof {
                        assert(self@.is_first_unresolved(i as int));
                        let c = choose|c: int| self@.is_first_unresolved(c);
                        if c < i {
                            assert(self@.base_resolved(c));
                        } else if i < c {
                            assert(self@.base_resolved(i as int));
                        }
                    }
                    return Err(AssetError::UnresolvedBase { tag: atlas.texture_tag.clone() });
                },
            }
            i = i + 1;
        }
        proof {
            assert forall|c: int| !self@.is_first_unresolved(c) by {
                if 0 <= c < self@.deferred.len() {
                    assert(self@.base_resolved(c));
                }
            }
            assert(jobs@ =~= self@.jobs());
        }
        let mut k: usize = 0;
        while k < self.atlases_to_build.len()
            invariant
                k <= self.atlases_to_build.len(),
                self@.index == old(self)@.index,
                self@.deferred == old(self)@.deferred,
                self@.loaded == old(self)@.loaded,
                self@.composites == old(self)@.built(k as nat),
            decreases self.atlases_to_build.len() - k,
        {
            let tag = self.atlases_to_build[k].tag.clone();
            assert(tag@ == self@.deferred[k as int].tag);
            self.atlases.insert(tag, k);
            k = k + 1;
        }
        Ok(jobs)
    }
}

} // verus!
