//! Context descriptors: a value for everything below, and the children.

use vstd::prelude::*;
use crate::scope::context::{ContextArena, ContextId, ContextLink, ContextNodeView};
use crate::v_node::node_comparison::NodeComparisonResult;
use crate::v_node::v_node::VNode;
use crate::value::Value;

verus! {

/// A provider as it stands in a node.
pub struct VContext<N, M> {
    pub value: Value,
    pub children: Box<VNode<N, M>>,
}

/// How a new provided `value` relates to the provider `node`: the type of
/// the value decides whether it is the same provider; its content decides
/// whether anything changed.
pub open spec fn compare_context(value: Value, node: ContextNodeView) -> NodeComparisonResult {
    if value.type_token != node.value.type_token {
        NodeComparisonResult::DifferentType
    } else if value@ == node.value@ {
        NodeComparisonResult::Equal
    } else {
        NodeComparisonResult::SameType
    }
}

impl<N, M> VContext<N, M> {
    /// Makes the provider node below `parent`, without subscribers, and
    /// hands out the children to mount under it.
    pub fn to_context_link(self, parent: ContextLink, contexts: &mut ContextArena) -> (r: (
        ContextId,
        VNode<N, M>,
    ))
        ensures
            r.0 == old(contexts)@.len(),
            r.1 == *self.children,
            final(contexts)@ == old(contexts)@.push(
                ContextNodeView { parent, value: self.value, renderers: Seq::empty() },
            ),
    {
        let id = contexts.insert(self.value, parent);
        (id, *self.children)
    }

    /// Stores the value in the provider `context_node`, which keeps its
    /// identity and its subscribers, and hands out the children.
    pub fn push_value(self, context_node: ContextId, contexts: &mut ContextArena) -> (children:
        VNode<N, M>)
        requires
            context_node < old(contexts)@.len(),
            old(contexts)@[context_node as int].value.type_token == self.value.type_token,
        ensures
            children == *self.children,
            final(contexts)@ == old(contexts)@.update(
                context_node as int,
                ContextNodeView { value: self.value, ..old(contexts)@[context_node as int] },
            ),
    {
        contexts.replace_value(context_node, self.value);
        *self.children
    }

    /// Holds the new value against the provider `context_node`.
    pub fn compare(&self, context_node: ContextId, contexts: &ContextArena) -> (r:
        NodeComparisonResult)
        requires
            context_node < contexts@.len(),
        ensures
            r == compare_context(self.value, contexts@[context_node as int]),
    {
        let stored = contexts.value(context_node);
        if self.value.type_token != stored.type_token {
            NodeComparisonResult::DifferentType
        } else if self.value.same(stored) {
            NodeComparisonResult::Equal
        } else {
            NodeComparisonResult::SameType
        }
    }
}

} // verus!
