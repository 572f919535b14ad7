//! The asset manager: the list of assets that an application declares, and
//! its activation, which turns the list into load requests and an asset
//! store.

use crate::asset_store::{
    base_tag, make_base_tag, AssetError, AssetErrorView, AssetStore, FutureAtlas, FutureAtlasView,
    StoreView,
};
use crate::physics::Vec2;
use vstd::prelude::*;

verus! {

/// The kind of an asset.
#[derive(Clone, Copy, Debug, PartialEq, Eq, Structural)]
pub enum AssetType {
    Image,
    Sound,
    /// An image to be cut into `sprites_x` columns and `sprites_y` rows of
    /// tiles of size `tile_size`.
    SpriteSheet { tile_size: Vec2, sprites_x: usize, sprites_y: usize },
}

/// One declared asset: its tag, the file it is loaded from, and its kind.
pub struct AssetDescriptor {
    pub tag: Seq<char>,
    pub filename: Seq<char>,
    pub kind: AssetType,
}

/// A request to the host to start loading `filename`; the load is known to
/// the asset store as raw handle `handle`.
#[derive(Clone, Debug, PartialEq, Eq)]
pub struct LoadRequest {
    pub handle: usize,
    pub filename: String,
}

/// The assets that an application declares, in the order of declaration.
#[derive(Clone, Debug, PartialEq, Eq)]
pub struct AssetManager {
    asset_list: Vec<(String, String, AssetType)>,
}

impl View for AssetManager {
    type V = Seq<AssetDescriptor>;

    closed spec fn view(&self) -> Seq<AssetDescriptor> {
        self.asset_list@.map_values(
            |entry: (String, String, AssetType)|
                AssetDescriptor { tag: entry.0@, filename: entry.1@, kind: entry.2 },
        )
    }
}

/// The two pictures that every application has: that of the main menu and
/// that of the end of the game.
pub open spec fn menu_pictures() -> Seq<AssetDescriptor> {
    seq![
        AssetDescriptor {
            tag: "main_menu"@,
            filename: "main_menu.png"@,
            kind: AssetType::Image,
        },
        AssetDescriptor {
            tag: "game_over"@,
            filename: "game_over.png"@,
            kind: AssetType::Image,
        },
    ]
}

/// The tag under which the store keeps the raw load of an asset: for a sprite
/// sheet the base tag of its tag, for any other asset its tag.
pub open spec fn store_tag(asset: AssetDescriptor) -> Seq<char> {
    match asset.kind {
        AssetType::SpriteSheet { .. } => base_tag(asset.tag),
        _ => asset.tag,
    }
}

/// The store after the activation of the assets `assets`. Every asset gets
/// one raw load, in the order of declaration, kept under its store tag; a
/// sprite sheet also leaves a deferred composite under its own tag.
pub open spec fn activated(assets: Seq<AssetDescriptor>) -> StoreView
    decreases assets.len(),
{
    if assets.len() == 0 {
        StoreView::empty()
    } else {
        let asset = assets.last();
        let requested = activated(assets.drop_last()).with_load(store_tag(asset));
        match asset.kind {
            AssetType::SpriteSheet { tile_size, sprites_x, sprites_y } => requested.with_deferred(
                FutureAtlasView {
                    tag: asset.tag,
                    texture_tag: base_tag(asset.tag),
                    tile_size,
                    sprites_x,
                    sprites_y,
                },
            ),
            _ => requested,
        }
    }
}

/// Whether `requests` asks for the files of `assets`, one request for each
/// asset in the order of declaration, numbered from zero.
pub open spec fn requests_for(assets: Seq<AssetDescriptor>, requests: Seq<LoadRequest>) -> bool {
    &&& requests.len() == assets.len()
    &&& forall|i: int|
        0 <= i < requests.len() ==> {
            &&& (#[trigger] requests[i]).handle == i
            &&& requests[i].filename@ == assets[i].filename
        }
}

/// Activation gives out one raw handle for each asset and leaves a store that
/// is well formed.
pub proof fn lemma_activated_wf(assets: Seq<AssetDescriptor>)
    requires
        assets.len() <= usize::MAX,
    ensures
        activated(assets).wf(),
        activated(assets).loaded.len() == assets.len(),
        activated(assets).deferred.len() <= assets.len(),
        activated(assets).composites == crate::tag_index::no_entries(),
        forall|h: int| 0 <= h < assets.len() ==> !(#[trigger] activated(assets).loaded[h]),
    decreases assets.len(),
{
    if assets.len() > 0 {
        lemma_activated_wf(assets.drop_last());
        let before = activated(assets.drop_last());
        let requested = before.with_load(store_tag(assets.last()));
        assert(requested.wf());
    }
}

/// After activation the store tag of every declared asset is in the index,
/// with a raw handle that this activation gave out.
pub proof fn lemma_declared_tag_indexed(assets: Seq<AssetDescriptor>, i: int)
    requires
        0 <= i < assets.len(),
    ensures
        activated(assets).index.contains_key(store_tag(assets[i])),
    decreases assets.len(),
{
    if i < assets.len() - 1 {
        lemma_declared_tag_indexed(assets.drop_last(), i);
    }
}

/// After activation every declared sprite sheet has a deferred composite
/// under its tag.
pub proof fn lemma_sprite_sheet_deferred(assets: Seq<AssetDescriptor>, i: int)
    requires
        0 <= i < assets.len(),
        assets[i].kind is SpriteSheet,
    ensures
        exists|j: int|
            0 <= j < activated(assets).deferred.len() && (#[trigger] activated(
                assets,
            ).deferred[j]).tag == assets[i].tag,
    decreases assets.len(),
{
    let store = activated(assets);
    if i < assets.len() - 1 {
        lemma_sprite_sheet_deferred(assets.drop_last(), i);
        let before = activated(assets.drop_last());
        let j = choose|j: int|
            0 <= j < before.deferred.len() && (#[trigger] before.deferred[j]).tag == assets[i].tag;
        assert(store.deferred[j].tag == assets[i].tag);
    } else {
        let j = store.deferred.len() - 1;
        assert(store.deferred[j].tag == assets[i].tag);
    }
}

impl AssetManager {
    /// A manager that declares the two menu pictures.
    pub fn new() -> (manager: Self)
        ensures
            manager@ == menu_pictures(),
    {
        let mut asset_list: Vec<(String, String, AssetType)> = Vec::new();
        asset_list.push(
            (String::from_str("main_menu"), String::from_str("main_menu.png"), AssetType::Image),
        );
        asset_list.push(
            (String::from_str("game_over"), String::from_str("game_over.png"), AssetType::Image),
        );
        let manager = AssetManager { asset_list };
        assert(manager@ =~= menu_pictures());
        manager
    }

    /// How many assets are declared.
    pub fn len(&self) -> (count: usize)
        ensures
            count == self@.len(),
    {
        self.asset_list.len()
    }

    /// Tells whether the file of an asset was found in the asset directory:
    /// the error names the file that was not.
    fn asset_exists(filename: &str, found: bool) -> (outcome: Result<(), AssetError>)
        ensures
            found ==> outcome is Ok,
            !found ==> (outcome matches Err(error) && error@ == (AssetErrorView::SourceMissing {
                filename: filename@,
            })),
    {
        if !found {
            return Err(AssetError::SourceMissing { filename: filename.to_owned() });
        }
        Ok(())
    }

    fn declare(self, tag: &str, filename: &str, kind: AssetType) -> (manager: Self)
        ensures
            manager@ == self@.push(AssetDescriptor { tag: tag@, filename: filename@, kind }),
    {
        let mut manager = self;
        let ghost before = manager@;
        manager.asset_list.push((tag.to_owned(), filename.to_owned(), kind));
        assert(manager@ =~= before.push(
            AssetDescriptor { tag: tag@, filename: filename@, kind },
        ));
        manager
    }

    /// Declares the image `filename` under `tag`. `found` says whether the
    /// file is in the asset directory: a file that is not there is refused,
    /// and the declaration fails.
    pub fn add_image(self, tag: &str, filename: &str, found: bool) -> (outcome: Result<
        Self,
        AssetError,
    >)
        ensures
            found ==> (outcome matches Ok(manager) && manager@ == self@.push(
                AssetDescriptor { tag: tag@, filename: filename@, kind: AssetType::Image },
            )),
            !found ==> (outcome matches Err(error) && error@ == (AssetErrorView::SourceMissing {
                filename: filename@,
            })),
    {
        match AssetManager::asset_exists(filename, found) {
            Ok(()) => Ok(self.declare(tag, filename, AssetType::Image)),
            Err(error) => Err(error),
        }
    }

    /// Declares the sprite sheet `filename` under `tag`, to be cut into
    /// `sprites_x` columns and `sprites_y` rows of tiles `sprite_width` wide
    /// and `sprite_height` high. `found` says whether the file is in the
    /// asset directory: a file that is not there is refused, and the
    /// declaration fails.
    pub fn add_sprite_sheet(
        self,
        tag: &str,
        filename: &str,
        sprite_width: i64,
        sprite_height: i64,
        sprites_x: usize,
        sprites_y: usize,
        found: bool,
    ) -> (outcome: Result<Self, AssetError>)
        ensures
            found ==> (outcome matches Ok(manager) && manager@ == self@.push(
                AssetDescriptor {
                    tag: tag@,
                    filename: filename@,
                    kind: AssetType::SpriteSheet {
                        tile_size: Vec2 { x: sprite_width, y: sprite_height },
                        sprites_x,
                        sprites_y,
                    },
                },
            )),
            !found ==> (outcome matches Err(error) && error@ == (AssetErrorView::SourceMissing {
                filename: filename@,
            })),
    {
        match AssetManager::asset_exists(filename, found) {
            Ok(()) => Ok(
                self.declare(
                    tag,
                    filename,
                    AssetType::SpriteSheet {
                        tile_size: Vec2::new(sprite_width, sprite_height),
                        sprites_x,
                        sprites_y,
                    },
                ),
            ),
            Err(error) => Err(error),
        }
    }

    /// Activates the declared assets: writes one load request for each asset,
    /// in the order of declaration, and builds the asset store that knows
    /// each load by its raw handle. A sprite sheet is loaded as an image
    /// under the base tag of its tag; the atlas itself is deferred until the
    /// image has resolved.
    pub fn setup(&self) -> (activation: (AssetStore, Vec<LoadRequest>))
        ensures
            activation.0@ == activated(self@),
            activation.0@.wf(),
            requests_for(self@, activation.1@),
    {
        let mut assets = AssetStore::new();
        let mut requests: Vec<LoadRequest> = Vec::new();
        let mut i: usize = 0;
        assert(self@.take(0) =~= Seq::<AssetDescriptor>::empty());
        while i < self.asset_list.len()
            invariant
                i <= self.asset_list.len(),
                self@.len() == self.asset_list.len(),
                assets@ == activated(self@.take(i as int)),
                requests_for(self@.take(i as int), requests@),
            decreases self.asset_list.len() - i,
        {
            let entry = &self.asset_list[i];
            proof {
                let upto = self@.take(i + 1);
                assert(upto.drop_last() =~= self@.take(i as int));
                assert(upto.last() == self@[i as int]);
                lemma_activated_wf(self@.take(i as int));
            }
            match entry.2 {
                AssetType::SpriteSheet { tile_size, sprites_x, sprites_y } => {
                    let handle = assets.load(make_base_tag(entry.0.as_str()));
                    requests.push(LoadRequest { handle, filename: entry.1.clone() });
                    assets.defer(
                        FutureAtlas {
                            tag: entry.0.clone(),
                            texture_tag: make_base_tag(entry.0.as_str()),
                            tile_size,
                            sprites_x,
                            sprites_y,
                        },
                    );
                },
                _ => {
                    let handle = assets.load(entry.0.clone());
                    requests.push(LoadRequest { handle, filename: entry.1.clone() });
                },
            }
            i = i + 1;
        }
        proof {
            assert(self@.take(self@.len() as int) =~= self@);
            lemma_activated_wf(self@);
        }
        (assets, requests)
    }
}

} // verus!
