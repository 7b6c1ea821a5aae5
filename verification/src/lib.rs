//! Runtime core of a real-time simulation loop: an entity/component registry
//! and a scheduler that partitions per-frame systems into conflict-free groups
//! and drives them through the Init, Update and FixedUpdate phases.

pub mod driver;
pub mod ecs;
pub mod game_state;
pub mod image;
pub mod independence;
pub mod input;
pub mod networking;
pub mod plan;
pub mod scheduler;

pub use driver::{Dispatch, Driver, PhaseStatus};
pub use ecs::{
    Component, ComponentRef, ComponentStruct, ComponentType, Entity, Registry, Resource, System,
    SystemType,
};
pub use game_state::{GameState, COMPONENT_TYPES};
pub use image::{is_png, load, ImageData};
pub use input::{InputHandler, KEY_COUNT};
pub use networking::{CallbackPacer, FRAMES_PER_CALLBACK_RUN};
pub use plan::generate_execution_order_for_systems;
pub use scheduler::{Scheduler, Tick};
