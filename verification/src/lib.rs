//! A hooks-based reactive UI core. Components declare a tree of virtual
//! nodes from their state; the runtime keeps what is mounted, reconciles it
//! with every newly rendered tree, and tells a native backend what to
//! change.
//!
//! - `value`: type-erased values, a type token and an encoding.
//! - `scope`: the hook storage of one component instance, the chain of
//!   context providers, and the updater that batches re-renders.
//! - `v_node`: the nodes that a render produces.
//! - `renderer`: the mount tree, its reconciliation, and the runtime that
//!   holds components and providers by identifier. `renderer::world` is the
//!   mathematical model that the executable code is proved against.
//! - `dom`: the node types of the DOM target and the bookkeeping of sibling
//!   order that a DOM backend needs.
//! - `components`: the value types and the task list of a small
//!   application.
//! - `laws`: what holds of the core whatever is rendered.
//!
//! The runtime never calls into the backend or runs an effect itself: it
//! issues instructions (`renderer::NativeOp`) and commands
//! (`renderer::EffectCommand`) that the host collects and carries out.
//!
//! A component renders at once when it is mounted or given a model through
//! `renderer::ComponentMount`. The components that a render mounts or gives
//! another model join the batch, and the flush renders them round by round,
//! so that no render is made inside another.

pub mod components;
pub mod dom;
pub mod laws;
pub mod renderer;
pub mod scope;
pub mod test_context;
pub mod v_node;
pub mod value;
