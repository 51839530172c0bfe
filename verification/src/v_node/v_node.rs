//! The declarative tree that a render produces.

use vstd::prelude::*;
use crate::v_node::component::VComponentElement;
use crate::v_node::context::VContext;

verus! {

/// A description of what should exist at one place of the tree. It is made
/// anew by every render and consumed by the mount step.
pub enum VNode<N, M> {
    /// A leaf of the native target; the payload is opaque to the core.
    Native(N),
    /// A component with its own state.
    Component(VComponentElement<N, M>),
    /// Children in render order, each under a key.
    Fragment(Vec<(String, VNode<N, M>)>),
    /// A value provided to everything below.
    Context(VContext<N, M>),
}

impl<N, M> VNode<N, M> {
    /// The node for a component element.
    pub fn component(element: VComponentElement<N, M>) -> (r: VNode<N, M>)
        ensures
            r == VNode::Component(element),
    {
        VNode::Component(element)
    }
}

} // verus!
