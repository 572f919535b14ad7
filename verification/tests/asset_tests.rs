use my_library::asset_store::make_base_tag;
use my_library::{
    AssetError, AssetManager, AssetStore, AtlasJob, LatchReport, Handle, LoadRequest, LoadState,
    LoadingLatch, MenuResource, Phase, Vec2,
};

fn menus() -> MenuResource {
    MenuResource::new(Phase(1), Phase(2), Phase(3))
}

fn waiting(remaining: usize) -> LatchReport {
    LatchReport { remaining, atlases: Vec::new(), next_phase: None }
}

fn ship_game() -> AssetManager {
    AssetManager::new()
        .add_image("main_menu", "menu.png", true)
        .unwrap()
        .add_sprite_sheet("ship", "ship.png", 32, 32, 4, 1, true)
        .unwrap()
}

fn states_for(latch: &LoadingLatch, loaded: &[usize]) -> Vec<LoadState> {
    latch.pending()
        .iter()
        .map(|handle| if loaded.contains(handle) { LoadState::Loaded } else { LoadState::Pending })
        .collect()
}

#[test]
fn new_manager_declares_the_menu_pictures() {
    let manager = AssetManager::new();
    assert_eq!(manager.len(), 2);
    let (store, requests) = manager.setup();
    assert_eq!(
        requests,
        vec![
            LoadRequest { handle: 0, filename: "main_menu.png".to_string() },
            LoadRequest { handle: 1, filename: "game_over.png".to_string() },
        ]
    );
    assert_eq!(store.requested(), 2);
    assert_eq!(store.deferred(), 0);
}

#[test]
fn add_image_appends_a_found_file() {
    let manager = AssetManager::new().add_image("dragon", "flappy_dragon.png", true).unwrap();
    assert_eq!(manager.len(), 3);
    let (_, requests) = manager.setup();
    assert_eq!(requests[2], LoadRequest { handle: 2, filename: "flappy_dragon.png".to_string() });
}

#[test]
fn add_image_refuses_a_missing_file() {
    let refused = AssetManager::new().add_image("dragon", "flappy_dragon.png", false);
    assert_eq!(
        refused,
        Err(AssetError::SourceMissing { filename: "flappy_dragon.png".to_string() })
    );
    assert_eq!(
        refused.unwrap_err().message(),
        "flappy_dragon.png not found in assets directory"
    );
}

#[test]
fn add_sprite_sheet_refuses_a_missing_file() {
    let refused = AssetManager::new().add_sprite_sheet("flappy", "sheet.png", 62, 65, 4, 1, false);
    assert_eq!(refused, Err(AssetError::SourceMissing { filename: "sheet.png".to_string() }));
}

#[test]
fn error_messages_name_what_failed() {
    assert_eq!(
        AssetError::NotFound { tag: "wall".to_string() }.message(),
        "wall not found in asset store"
    );
    assert_eq!(
        AssetError::UnresolvedBase { tag: "ship_base".to_string() }.message(),
        "ship_base not loaded for its sprite sheet"
    );
}

#[test]
fn base_tag_appends_the_suffix() {
    assert_eq!(make_base_tag("ship"), "ship_base");
    assert_eq!(make_base_tag(""), "_base");
}

#[test]
fn empty_store_finds_nothing() {
    let store = AssetStore::new();
    assert_eq!(store.requested(), 0);
    assert_eq!(store.lookup("ship"), Err(AssetError::NotFound { tag: "ship".to_string() }));
    assert_eq!(store.get_handle("ship"), None);
    assert_eq!(store.get_atlas_handle("ship"), None);
}

#[test]
fn activation_requests_one_load_per_asset() {
    let (store, requests) = ship_game().setup();
    let files: Vec<&str> = requests.iter().map(|request| request.filename.as_str()).collect();
    assert_eq!(files, vec!["main_menu.png", "game_over.png", "menu.png", "ship.png"]);
    let handles: Vec<usize> = requests.iter().map(|request| request.handle).collect();
    assert_eq!(handles, vec![0, 1, 2, 3]);
    assert_eq!(store.requested(), 4);
    assert_eq!(store.deferred(), 1);
}

#[test]
fn lookup_fails_before_the_load_resolves() {
    let (store, _) = ship_game().setup();
    assert_eq!(
        store.lookup("main_menu"),
        Err(AssetError::NotFound { tag: "main_menu".to_string() })
    );
    assert_eq!(store.lookup("ship"), Err(AssetError::NotFound { tag: "ship".to_string() }));
    assert_eq!(store.lookup("never"), Err(AssetError::NotFound { tag: "never".to_string() }));
}

#[test]
fn latch_waits_for_each_indexed_handle_once() {
    let (store, _) = ship_game().setup();
    let latch = LoadingLatch::setup(&store);
    assert!(!latch.is_ready());
    assert_eq!(latch.remaining(), 3);
    let mut pending = latch.pending();
    pending.sort();
    assert_eq!(pending, vec![1, 2, 3]);
}

#[test]
fn latch_opens_once_and_builds_one_composite() {
    let (mut store, _) = ship_game().setup();
    let mut latch = LoadingLatch::setup(&store);
    let mut transitions = 0;
    let mut built = Vec::new();

    let states = states_for(&latch, &[]);
    assert_eq!(latch.run(&states, &mut store, &menus()), Ok(waiting(3)));

    let states = states_for(&latch, &[2]);
    assert_eq!(latch.run(&states, &mut store, &menus()), Ok(waiting(2)));
    assert_eq!(store.lookup("main_menu"), Ok(Handle::Raw(2)));
    assert_eq!(store.lookup("ship"), Err(AssetError::NotFound { tag: "ship".to_string() }));
    assert!(!latch.is_ready());

    let states = states_for(&latch, &[1, 3]);
    let report = latch.run(&states, &mut store, &menus()).unwrap();
    assert_eq!(report.remaining, 0);
    assert_eq!(report.next_phase, Some(Phase(1)));
    assert_eq!(
        report.atlases,
        vec![AtlasJob {
            handle: 0,
            texture: 3,
            tile_size: Vec2 { x: 32, y: 32 },
            sprites_x: 4,
            sprites_y: 1,
        }]
    );
    transitions += report.next_phase.iter().count();
    built.extend(report.atlases);
    assert!(latch.is_ready());

    for _ in 0..3 {
        let report = latch.run(&Vec::new(), &mut store, &menus()).unwrap();
        assert_eq!(report, waiting(0));
        transitions += report.next_phase.iter().count();
        built.extend(report.atlases);
    }
    assert_eq!(transitions, 1);
    assert_eq!(built.len(), 1);
    assert_eq!(store.lookup("ship"), Ok(Handle::Composite(0)));
    assert_eq!(store.lookup("ship_base"), Ok(Handle::Raw(3)));
    assert_eq!(store.lookup("main_menu"), Ok(Handle::Raw(2)));
    assert_eq!(store.lookup("game_over"), Ok(Handle::Raw(1)));
    assert_ne!(store.lookup("ship"), store.lookup("ship_base"));
    assert_eq!(store.get_atlas_handle("ship"), Some(0));
    assert_eq!(store.get_handle("ship"), None);
}

#[test]
fn failed_load_keeps_the_latch_waiting() {
    let (mut store, _) = AssetManager::new().setup();
    let mut latch = LoadingLatch::setup(&store);
    for _ in 0..4 {
        let states: Vec<LoadState> = latch
            .pending()
            .iter()
            .map(|handle| if *handle == 0 { LoadState::Failed } else { LoadState::Loaded })
            .collect();
        assert_eq!(latch.run(&states, &mut store, &menus()), Ok(waiting(1)));
        assert_eq!(latch.pending(), vec![0]);
        assert!(!latch.is_ready());
    }
    assert_eq!(store.lookup("game_over"), Ok(Handle::Raw(1)));
    assert_eq!(
        store.lookup("main_menu"),
        Err(AssetError::NotFound { tag: "main_menu".to_string() })
    );
}

#[test]
fn missing_states_count_as_pending() {
    let (mut store, _) = AssetManager::new().setup();
    let mut latch = LoadingLatch::setup(&store);
    let first = latch.pending()[0];
    assert_eq!(latch.run(&vec![LoadState::Loaded], &mut store, &menus()), Ok(waiting(1)));
    assert!(!latch.pending().contains(&first));
}

#[test]
fn store_without_assets_opens_the_latch_at_once() {
    let mut store = AssetStore::new();
    let mut latch = LoadingLatch::setup(&store);
    assert_eq!(latch.remaining(), 0);
    assert_eq!(
        latch.run(&Vec::new(), &mut store, &menus()),
        Ok(LatchReport { remaining: 0, atlases: Vec::new(), next_phase: Some(Phase(1)) })
    );
    assert!(latch.is_ready());
}

#[test]
fn latch_of_another_store_fails_on_an_unresolved_base() {
    let (mut store, _) = ship_game().setup();
    let mut stranger = LoadingLatch::setup(&AssetStore::new());
    assert_eq!(
        stranger.run(&Vec::new(), &mut store, &menus()),
        Err(AssetError::UnresolvedBase { tag: "ship_base".to_string() })
    );
    assert!(!stranger.is_ready());
    assert_eq!(store.get_atlas_handle("ship"), None);
    assert_eq!(
        store.load_atlases(),
        Err(AssetError::UnresolvedBase { tag: "ship_base".to_string() })
    );
}

#[test]
fn later_declaration_takes_over_a_tag() {
    let manager = AssetManager::new()
        .add_image("wall", "wall.png", true)
        .unwrap()
        .add_image("wall", "brick.png", true)
        .unwrap();
    let (mut store, requests) = manager.setup();
    assert_eq!(requests.len(), 4);
    let mut latch = LoadingLatch::setup(&store);
    assert_eq!(latch.remaining(), 3);
    let states = states_for(&latch, &[0, 1, 3]);
    let report = latch.run(&states, &mut store, &menus()).unwrap();
    assert_eq!(report.next_phase, Some(Phase(1)));
    assert_eq!(store.lookup("wall"), Ok(Handle::Raw(3)));
}

#[test]
fn two_sprite_sheets_get_two_composites() {
    let manager = AssetManager::new()
        .add_sprite_sheet("flappy", "flappy_sprite_sheet.png", 62, 65, 4, 1, true)
        .unwrap()
        .add_sprite_sheet("ship", "ship.png", 32, 32, 4, 2, true)
        .unwrap();
    let (mut store, _) = manager.setup();
    let mut latch = LoadingLatch::setup(&store);
    let states = states_for(&latch, &[0, 1, 2, 3]);
    let report = latch.run(&states, &mut store, &menus()).unwrap();
    assert_eq!(
        report.atlases,
        vec![
            AtlasJob {
                handle: 0,
                texture: 2,
                tile_size: Vec2 { x: 62, y: 65 },
                sprites_x: 4,
                sprites_y: 1,
            },
            AtlasJob {
                handle: 1,
                texture: 3,
                tile_size: Vec2 { x: 32, y: 32 },
                sprites_x: 4,
                sprites_y: 2,
            },
        ]
    );
    assert_eq!(store.lookup("flappy"), Ok(Handle::Composite(0)));
    assert_eq!(store.lookup("ship"), Ok(Handle::Composite(1)));
    assert_eq!(store.lookup("flappy_base"), Ok(Handle::Raw(2)));
}
