//! The persistent tree of what is mounted.

use vstd::prelude::*;
use crate::renderer::context::ContextMount;
use crate::renderer::fragment::FragmentMount;
use crate::renderer::component::ComponentMount;
use crate::renderer::native::{FactoryId, NativeId, NativeOp};
use crate::renderer::runtime::Runtime;
use crate::scope::context::{ContextId, ContextLink};
use crate::scope::renderer::RendererId;
use crate::v_node::component::ComponentModel;
use crate::v_node::v_node::VNode;

verus! {

/// What exists at one place of the tree. It stays over renders as long as
/// the node rendered at that place is of a compatible kind and type.
pub enum Mount {
    /// A component, by the identifier under which the runtime holds it.
    Component(RendererId),
    /// A native element, by the identifier that the backend knows it by.
    Native(NativeId),
    Fragment(FragmentMount),
    Context(ContextMount),
}

/// The model of a mount.
#[allow(inconsistent_fields)]
pub enum MountView {
    Component(RendererId),
    Native(NativeId),
    Fragment { content: Seq<(String, MountView)>, context_link: ContextLink, factory: FactoryId },
    Context { node: ContextId, child: Box<MountView>, factory: FactoryId },
}

impl MountView {
    /// Whether every component that the mount names, at any depth of its
    /// fragments and providers, has an identifier from `low` up to `high`.
    /// What those components have mounted themselves is not looked at.
    pub open spec fn within(self, low: nat, high: nat) -> bool
        decreases self,
    {
        match self {
            MountView::Native(_) => true,
            MountView::Component(id) => low <= id < high,
            MountView::Fragment { content, .. } => forall|i: int|
                0 <= i < content.len() ==> (#[trigger] content[i]).1.within(low, high),
            MountView::Context { child, .. } => child.within(low, high),
        }
    }

    /// Whether the mount names the component `id`, at any depth of its
    /// fragments and providers.
    pub open spec fn names(self, id: RendererId) -> bool
        decreases self,
    {
        match self {
            MountView::Native(_) => false,
            MountView::Component(named) => named == id,
            MountView::Fragment { content, .. } => exists|i: int|
                0 <= i < content.len() && (#[trigger] content[i]).1.names(id),
            MountView::Context { child, .. } => child.names(id),
        }
    }
}

impl View for Mount {
    type V = MountView;

    open spec fn view(&self) -> MountView {
        self.model()
    }
}

/// The models of keyed mounts, in order.
pub open spec fn content_model(content: Seq<(String, Mount)>) -> Seq<(String, MountView)>
    decreases content,
{
    Seq::new(
        content.len(),
        |i: int|
            if 0 <= i < content.len() {
                (content[i].0, content[i].1.model())
            } else {
                (content[0].0, MountView::Native(0))
            },
    )
}

impl Mount {
    /// Mounts `vnode` afresh under `context_link`, into the sibling list
    /// `native_mount_factory`. A component in the tree is set up and joins
    /// the batch: the flush renders it.
    pub fn new<N, M: ComponentModel<N>>(
        vnode: VNode<N, M>,
        context_link: ContextLink,
        native_mount_factory: FactoryId,
        rt: &mut Runtime<N, M>,
    ) -> (mount: Mount)
        ensures
            (final(rt)@, mount@) == old(rt)@.mounted(vnode, context_link, native_mount_factory),
            final(rt)@.components.len() >= old(rt)@.components.len(),
        decreases vnode,
    {
        match vnode {
            VNode::Native(node) => {
                let id = rt.add_native(context_link);
                rt.emit(
                    NativeOp::MakeNative {
                        factory: native_mount_factory,
                        mount: id,
                        node,
                        context_link,
                    },
                );
                Mount::Native(id)
            },
            VNode::Fragment(fragment) => Mount::Fragment(
                FragmentMount::new(fragment, context_link, native_mount_factory, rt),
            ),
            VNode::Component(element) => Mount::Component(
                ComponentMount::mount_in_batch(element, context_link, native_mount_factory, rt),
            ),
            VNode::Context(context) => Mount::Context(
                ContextMount::new(context, context_link, native_mount_factory, rt),
            ),
        }
    }

    /// Tears down this mount and everything below it.
    pub fn unmount<N, M: ComponentModel<N>>(self, rt: &mut Runtime<N, M>)
        ensures
            final(rt)@ == old(rt)@.torn_down(self@),
            final(rt)@.components.len() == old(rt)@.components.len(),
    {
        let limit = rt.components.len();
        self.unmount_within(rt, 0, limit)
    }

    /// Tears down this mount and everything below it, looking up
    /// components from `floor` up to `limit`.
    pub fn unmount_within<N, M: ComponentModel<N>>(
        self,
        rt: &mut Runtime<N, M>,
        floor: usize,
        limit: usize,
    )
        ensures
            final(rt)@ == old(rt)@.unmounted(self@, floor as nat, limit as nat),
            final(rt)@.components.len() == old(rt)@.components.len(),
        decreases limit - floor, self,
    {
        match self {
            Mount::Native(id) => {
                rt.drop_native(id);
                rt.emit(NativeOp::UnmountNative { mount: id });
            },
            Mount::Fragment(fragment) => fragment.unmount_within(rt, floor, limit),
            Mount::Component(id) => {
                if floor <= id && id < limit {
                    match rt.take_component(id) {
                        Some(mut component) => {
                            match component.content.take() {
                                Some(content) => content.unmount_within(rt, id + 1, limit),
                                None => {},
                            }
                            rt.emit(
                                NativeOp::UnmountFactory { factory: FactoryId::Component(id) },
                            );
                            rt.end_scope(&mut component.scope);
                        },
                        None => {
                            assert(rt@.components =~= old(rt)@.components);
                        },
                    }
                }
            },
            Mount::Context(context) => context.unmount_within(rt, floor, limit),
        }
    }

    /// Reconciles this mount with the newly rendered `vnode`: a pair of the
    /// same kind is updated in place, any other is torn down and mounted
    /// anew under the same context link. A component in the tree that has to
    /// render joins the batch: the flush renders it.
    pub fn update<N, M: ComponentModel<N>>(
        self,
        vnode: VNode<N, M>,
        parent_native_mount_factory: FactoryId,
        rt: &mut Runtime<N, M>,
    ) -> (mount: Mount)
        ensures
            (final(rt)@, mount@) == old(rt)@.updated(self@, vnode, parent_native_mount_factory),
            final(rt)@.components.len() >= old(rt)@.components.len(),
        decreases vnode,
    {
        match (self, vnode) {
            (Mount::Native(id), VNode::Native(node)) => {
                rt.emit(
                    NativeOp::UpdateNative {
                        factory: parent_native_mount_factory,
                        mount: id,
                        node,
                    },
                );
                rt.emit(
                    NativeOp::SequenceNative { factory: parent_native_mount_factory, mount: id },
                );
                Mount::Native(id)
            },
            (Mount::Fragment(mut fragment), VNode::Fragment(children)) => {
                fragment.update(children, rt);
                Mount::Fragment(fragment)
            },
            (Mount::Component(id), VNode::Component(element)) => {
                rt.emit(
                    NativeOp::SequenceFactory {
                        parent: parent_native_mount_factory,
                        factory: FactoryId::Component(id),
                    },
                );
                ComponentMount::update_in_batch(id, element, rt);
                Mount::Component(id)
            },
            (Mount::Context(context), VNode::Context(node)) => context.update(
                node,
                parent_native_mount_factory,
                rt,
            ),
            (mount, vnode) => {
                let context_link = mount.get_context_link(rt);
                mount.unmount(rt);
                Mount::new(vnode, context_link, parent_native_mount_factory, rt)
            },
        }
    }

    /// The context link under which this mount stands.
    pub fn get_context_link<N, M: ComponentModel<N>>(&self, rt: &Runtime<N, M>) -> (r: ContextLink)
        ensures
            r == rt@.context_link_of(self@),
    {
        match self {
            Mount::Native(id) => {
                if *id < rt.natives.len() {
                    match rt.natives[*id] {
                        Some(link) => link,
                        None => None,
                    }
                } else {
                    None
                }
            },
            Mount::Fragment(fragment) => fragment.context_link,
            Mount::Component(id) => {
                if *id < rt.components.len() {
                    match &rt.components[*id] {
                        Some(component) => component.scope.clone_context_link(),
                        None => None,
                    }
                } else {
                    None
                }
            },
            Mount::Context(context) => {
                if context.context_link < rt.contexts.len() {
                    rt.contexts.parent(context.context_link)
                } else {
                    None
                }
            },
        }
    }

    /// The model of the mount.
    pub open spec fn model(self) -> MountView
        decreases self,
    {
        match self {
            Mount::Component(id) => MountView::Component(id),
            Mount::Native(id) => MountView::Native(id),
            Mount::Fragment(fragment) => MountView::Fragment {
                content: content_model(fragment.content@),
                context_link: fragment.context_link,
                factory: fragment.native_mount_factory,
            },
            Mount::Context(context) => MountView::Context {
                node: context.context_link,
                child: Box::new(context.children_mount.model()),
                factory: context.native_mount_factory,
            },
        }
    }
}

} // verus!
