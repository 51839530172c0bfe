//! The boundary to the native target: what the core tells the backend.

use vstd::prelude::*;
use crate::scope::context::{ContextId, ContextLink};
use crate::scope::renderer::RendererId;

verus! {

/// Identifies a mounted native element.
pub type NativeId = usize;

/// Identifies one list of native siblings on the backend's side. Every
/// component and every provider keeps the natives below it in a list of
/// its own, which stands at one place in the list of its parent.
#[derive(Clone, Copy, PartialEq, Eq, Structural, Debug, Hash)]
pub enum FactoryId {
    /// A list that the host set up, such as the children of the element
    /// that the tree is mounted into.
    Host(u64),
    /// The list of a component.
    Component(RendererId),
    /// The list of a provider.
    Context(ContextId),
    /// The children of a native element.
    Native(NativeId),
}

/// One instruction to the backend. The backend keeps a cursor in every
/// sibling list: `ResetScanner` puts it at the start, and every instruction
/// that makes or places a sibling moves it on by one.
pub enum NativeOp<N> {
    /// Open the sibling list `factory` at the cursor of `parent`.
    MakeFactory { parent: FactoryId, factory: FactoryId },
    /// Create the element `mount` for `node` at the cursor of `factory`.
    MakeNative { factory: FactoryId, mount: NativeId, node: N, context_link: ContextLink },
    /// Change the element `mount` in place to show `node`.
    UpdateNative { factory: FactoryId, mount: NativeId, node: N },
    /// See to it that the element `mount` stands at the cursor of `factory`.
    SequenceNative { factory: FactoryId, mount: NativeId },
    /// See to it that the list `factory` stands at the cursor of `parent`.
    SequenceFactory { parent: FactoryId, factory: FactoryId },
    /// Put the cursor of `factory` at the start.
    ResetScanner { factory: FactoryId },
    /// Detach the element `mount` and release it.
    UnmountNative { mount: NativeId },
    /// Close the sibling list `factory`.
    UnmountFactory { factory: FactoryId },
}

} // verus!
