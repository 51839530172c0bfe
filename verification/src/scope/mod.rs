//! Per-component hook storage and the update scheduler.

pub mod callback;
pub mod context;
pub mod effect;
pub mod memo;
pub mod ref_object;
pub mod renderer;
pub mod scope;
pub mod state;
pub mod updater;

pub use callback::{CallbackHandle, CallbackToken};
pub use context::{
    clone_context_link, ContextArena, ContextConsumerHandle, ContextId, ContextLink, ContextNode,
    ContextNodeView,
};
pub use effect::{EffectRun, EffectStore, EffectToken};
pub use memo::MemoStore;
pub use ref_object::{NilRef, RefObject, RefObjectT, RefSlot};
pub use renderer::RendererId;
pub use scope::{
    ComponentScope, ComponentScopeView, HookError, HookList, HookListView, Scope, ScopeView,
};
pub use state::{StateHandle, StateStore};
pub use updater::{queue_update, update, Updater};
