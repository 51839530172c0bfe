//! The mount tree and its reconciliation against freshly rendered nodes.

pub mod component;
pub mod context;
pub mod fragment;
pub mod mount;
pub mod native;
pub mod order;
pub mod runtime;
pub mod world;

pub use context::ContextMount;
pub use fragment::FragmentMount;
pub use mount::{Mount, MountView};
pub use native::{FactoryId, NativeId, NativeOp};
pub use world::{ComponentView, EffectCommand, World};
pub use component::ComponentMount;
pub use runtime::Runtime;
