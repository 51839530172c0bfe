//! Mounted providers.

use vstd::prelude::*;
use crate::renderer::mount::Mount;
use crate::renderer::native::{FactoryId, NativeOp};
use crate::renderer::runtime::Runtime;
use crate::scope::context::{ContextId, ContextLink};
use crate::v_node::component::ComponentModel;
use crate::v_node::context::VContext;
use crate::v_node::node_comparison::NodeComparisonResult;
use crate::v_node::v_node::VNode;

verus! {

/// A mounted provider: its node in the chain, what is mounted below it, and
/// the sibling list of the natives below it.
pub struct ContextMount {
    pub context_link: ContextId,
    pub children_mount: Box<Mount>,
    pub native_mount_factory: FactoryId,
}

impl ContextMount {
    /// Mounts a provider of the context's value below `context_link`, and
    /// the context's children below the provider.
    pub fn new<N, M: ComponentModel<N>>(
        c: VContext<N, M>,
        context_link: ContextLink,
        native_mount_factory: FactoryId,
        rt: &mut Runtime<N, M>,
    ) -> (mount: ContextMount)
        ensures
            (final(rt)@, Mount::Context(mount)@) == old(rt)@.mounted(
                VNode::Context(c),
                context_link,
                native_mount_factory,
            ),
            final(rt)@.components.len() >= old(rt)@.components.len(),
        decreases c,
    {
        let (node, children) = c.to_context_link(context_link, &mut rt.contexts);
        let own = FactoryId::Context(node);
        rt.emit(NativeOp::MakeFactory { parent: native_mount_factory, factory: own });
        let below = Mount::new(children, Some(node), own, rt);
        ContextMount {
            context_link: node,
            children_mount: Box::new(below),
            native_mount_factory: own,
        }
    }

    /// Reconciles the provider with the newly rendered context `n`.
    pub fn update<N, M: ComponentModel<N>>(
        self,
        n: VContext<N, M>,
        parent_native_mount_factory: FactoryId,
        rt: &mut Runtime<N, M>,
    ) -> (mount: Mount)
        ensures
            (final(rt)@, mount@) == old(rt)@.updated(
                Mount::Context(self)@,
                VNode::Context(n),
                parent_native_mount_factory,
            ),
            final(rt)@.components.len() >= old(rt)@.components.len(),
        decreases n,
    {
        let node = self.context_link;
        let factory = self.native_mount_factory;
        rt.emit(
            NativeOp::SequenceFactory { parent: parent_native_mount_factory, factory },
        );
        let comparison = if node < rt.contexts.len() {
            n.compare(node, &rt.contexts)
        } else {
            NodeComparisonResult::DifferentType
        };
        match comparison {
            NodeComparisonResult::DifferentType => {
                let whole = Mount::Context(self);
                let context_link = whole.get_context_link(rt);
                whole.unmount(rt);
                Mount::new(VNode::Context(n), context_link, parent_native_mount_factory, rt)
            },
            NodeComparisonResult::Equal => {
                rt.emit(NativeOp::ResetScanner { factory });
                let children = *n.children;
                let below = (*self.children_mount).update(children, factory, rt);
                Mount::Context(
                    ContextMount {
                        context_link: node,
                        children_mount: Box::new(below),
                        native_mount_factory: factory,
                    },
                )
            },
            NodeComparisonResult::SameType => {
                rt.emit(NativeOp::ResetScanner { factory });
                let children = n.push_value(node, &mut rt.contexts);
                rt.trigger_update(node);
                let below = (*self.children_mount).update(children, factory, rt);
                Mount::Context(
                    ContextMount {
                        context_link: node,
                        children_mount: Box::new(below),
                        native_mount_factory: factory,
                    },
                )
            },
        }
    }

    /// Tears down the provider and everything below it.
    pub fn unmount<N, M: ComponentModel<N>>(self, rt: &mut Runtime<N, M>)
        ensures
            final(rt)@ == old(rt)@.torn_down(Mount::Context(self)@),
    {
        let limit = rt.components.len();
        self.unmount_within(rt, 0, limit)
    }

    /// Tears down the provider and everything below it, looking up
    /// components from `floor` up to `limit`.
    pub fn unmount_within<N, M: ComponentModel<N>>(
        self,
        rt: &mut Runtime<N, M>,
        floor: usize,
        limit: usize,
    )
        ensures
            final(rt)@ == old(rt)@.unmounted(Mount::Context(self)@, floor as nat, limit as nat),
            final(rt)@.components.len() == old(rt)@.components.len(),
        decreases limit - floor, self,
    {
        let node = self.context_link;
        rt.emit(NativeOp::UnmountFactory { factory: self.native_mount_factory });
        let below = *self.children_mount;
        below.unmount_within(rt, floor, limit);
        if node < rt.contexts.len() {
            rt.contexts.discard_subscribers(node);
        }
    }
}

} // verus!
