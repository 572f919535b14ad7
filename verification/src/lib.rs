//! Game-framework core: a phase scheduler, an asset-loading pipeline and a
//! fixed-timestep physics integrator, written as plain-value logic that a host
//! engine drives once per frame.

pub mod asset_manager;
pub mod asset_store;
pub mod game_menus;
pub mod loading_menu;
pub mod phase;
pub mod physics;
pub mod tag_index;

pub use physics::{
    apply_gravity, apply_velocity, physics_clock, physics_step, sum_impulses, ApplyGravity, Body,
    Entity, Impulse, PhysicsPosition, PhysicsTick, PhysicsTimer, Vec2, Vec3, Velocity,
    PHYSICS_TICK_TIME,
};
pub use phase::{
    HookLists, HookRun, Phase, PhaseError, PhaseEvent, PhaseScheduler, SchedulerState, Stage,
};
pub use game_menus::{MenuAction, MenuGraphic, MenuInput, MenuResource};
pub use asset_store::{AssetError, AssetStore, AtlasJob, FutureAtlas, Handle};
pub use asset_manager::{AssetManager, AssetType, LoadRequest};
pub use loading_menu::{LatchReport, LoadState, LoadingLatch};
