//! The runtime core of a retained-mode user interface: the tree of entities,
//! the per-entity stores, the event queue with its routing rules, the
//! bindings between data and views, and the order of work within one frame.
//!
//! The platform, the renderer and the passes that compute style and layout
//! stand outside: they hand plain values in and carry out the actions that
//! the runtime decides on.

pub mod application;
pub mod binding;
pub mod cache;
pub mod context;
pub mod dispatch;
pub mod draw;
pub mod entity;
pub mod event;
pub mod geometry;
pub mod geometry_changed;
pub mod id_manager;
pub mod input;
pub mod kinship;
pub mod outline;
pub mod pipeline;
pub mod render;
pub mod resource;
pub mod storage;
pub mod style;
pub mod tree;
pub mod window;

pub use application::{
    Application, ControlFlow, PlatformEvent, Reply, Task, WindowDescription, WindowSize,
};
pub use binding::{Bindings, Data, Lens};
pub use cache::{CacheEntry, CachedData, Display, Visibility};
pub use context::{Context, Environment, World};
pub use dispatch::{Delivery, EventManager};
pub use entity::Entity;
pub use event::{Code, Event, Key, Message, MouseButton, MouseButtonState, Propagation, WindowEvent};
pub use geometry::{BoundingBox, Scalar, Transform};
pub use id_manager::IdManager;
pub use input::{Modifiers, MouseButtonData, MouseState};
pub use outline::Node;
pub use pipeline::{Action, Phase, Step};
pub use render::Scope;
pub use resource::{FontEntry, FontError, FontOrId, ResourceManager};
pub use storage::{SparseSet, StorageError};
pub use style::{Color, Style, Units};
pub use tree::Tree;
