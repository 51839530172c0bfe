//! Virtual nodes: what a render declares.

use vstd::prelude::*;
use crate::scope::ref_object::NilRef;
use crate::value::Value;

pub mod component;
pub mod context;
pub mod node_comparison;
pub mod v_node;

pub use component::{compare_models, ComponentModel, VComponentElement};
pub use context::{compare_context, VContext};
pub use node_comparison::NodeComparisonResult;
pub use v_node::VNode;

verus! {

/// A component node for `component_model`.
pub fn h<N, M: ComponentModel<N>>(component_model: M, ref_object: NilRef) -> (r: VNode<N, M>)
    ensures
        r matches VNode::Component(element) && element.component_model == component_model
            && element.ref_object == ref_object,
{
    VNode::component(VComponentElement::new(component_model, ref_object))
}

/// A context node that provides `value` to `children`.
pub fn ct<N, M>(value: Value, children: VNode<N, M>) -> (r: VNode<N, M>)
    ensures
        r matches VNode::Context(context) && context.value == value && *context.children
            == children,
{
    VNode::Context(VContext { value, children: Box::new(children) })
}

} // verus!
