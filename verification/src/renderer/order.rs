//! The order of identifiers. A component is given its identifier before it
//! renders, so that whatever it mounts is younger than itself. Tearing down
//! relies on that: it looks for the components below a component among the
//! identifiers above its own.

use vstd::prelude::*;
use crate::laws::{law_mount_leaves_the_rest, law_unmount_only_clears};
use crate::renderer::mount::MountView;
use crate::renderer::native::{FactoryId, NativeOp};
use crate::renderer::world::{
    filled_slots, lemma_slot_of_in_range, slot_of, ComponentView, RenderStep, Slots, World,
};
use crate::scope::context::{ContextId, ContextLink, ContextNodeView};
use crate::scope::renderer::RendererId;
use crate::v_node::component::{compare_models, ComponentModel, VComponentElement};
use crate::v_node::context::{compare_context, VContext};
use crate::v_node::node_comparison::NodeComparisonResult;
use crate::v_node::v_node::VNode;

verus! {

/// A mount that names components of a range names components of every
/// wider range.
pub proof fn lemma_within_wider(mount: MountView, low: nat, high: nat, lower: nat, higher: nat)
    requires
        mount.within(low, high),
        lower <= low,
        high <= higher,
    ensures
        mount.within(lower, higher),
    decreases mount,
{
    match mount {
        MountView::Native(_) => {},
        MountView::Component(_) => {},
        MountView::Fragment { content, .. } => {
            assert forall|i: int| 0 <= i < content.len() implies (#[trigger] content[i]).1.within(
                lower,
                higher,
            ) by {
                lemma_within_wider(content[i].1, low, high, lower, higher);
            }
        },
        MountView::Context { child, .. } => {
            lemma_within_wider(*child, low, high, lower, higher);
        },
    }
}

/// Whether every slot of `after` is empty, holds a component that has
/// mounted nothing, or holds a component with the content that the
/// component of that slot has in `before`; and no slot was given up.
pub open spec fn keeps_contents<N, M>(before: World<N, M>, after: World<N, M>) -> bool {
    &&& after.components.len() >= before.components.len()
    &&& forall|i: int|
        0 <= i < after.components.len() ==> {
            ||| (#[trigger] after.components[i]).is_none()
            ||| after.components[i].unwrap().content.is_none()
            ||| (i < before.components.len() && before.components[i].is_some()
                && after.components[i].unwrap().content
                == before.components[i].unwrap().content)
        }
}

impl<N, M: ComponentModel<N>> World<N, M> {
    /// Whether the identifiers of all slots are machine integers, as they
    /// are in every runtime that exists.
    pub open spec fn fits(self) -> bool {
        self.components.len() <= usize::MAX
    }

    /// Whether every mounted component has mounted only components that
    /// are younger than itself and have a slot.
    pub open spec fn ordered(self) -> bool {
        forall|id: int|
            0 <= id < self.components.len() ==> match #[trigger] self.components[id] {
                Some(component) => match component.content {
                    Some(mount) => mount.within((id + 1) as nat, self.components.len()),
                    None => true,
                },
                None => true,
            }
    }
}

/// Keeping contents goes through a chain of steps.
pub proof fn lemma_keeps_contents_chain<N, M>(first: World<N, M>, second: World<N, M>, third: World<
    N,
    M,
>)
    requires
        keeps_contents(first, second),
        keeps_contents(second, third),
    ensures
        keeps_contents(first, third),
{
    assert forall|i: int| 0 <= i < third.components.len() implies {
        ||| (#[trigger] third.components[i]).is_none()
        ||| third.components[i].unwrap().content.is_none()
        ||| (i < first.components.len() && first.components[i].is_some()
            && third.components[i].unwrap().content == first.components[i].unwrap().content)
    } by {
        if third.components[i].is_some() && third.components[i].unwrap().content.is_some() {
            assert(second.components[i].is_some());
        }
    }
}

/// A runtime that keeps the contents of an ordered runtime is ordered.
pub proof fn lemma_ordered_kept<N, M: ComponentModel<N>>(before: World<N, M>, after: World<N, M>)
    requires
        before.ordered(),
        keeps_contents(before, after),
    ensures
        after.ordered(),
{
    assert forall|id: int| 0 <= id < after.components.len() implies match #[trigger] after.components[id] {
        Some(component) => match component.content {
            Some(mount) => mount.within((id + 1) as nat, after.components.len()),
            None => true,
        },
        None => true,
    } by {
        if after.components[id].is_some() && after.components[id].unwrap().content.is_some() {
            let mount = after.components[id].unwrap().content.unwrap();
            assert(before.components[id].unwrap().content == Some(mount));
            lemma_within_wider(
                mount,
                (id + 1) as nat,
                before.components.len(),
                (id + 1) as nat,
                after.components.len(),
            );
        }
    }
}

/// Marking renderers dirty keeps every content.
pub proof fn lemma_marked_all_keeps_contents<N, M: ComponentModel<N>>(
    world: World<N, M>,
    renderers: Seq<RendererId>,
    n: nat,
)
    ensures
        keeps_contents(world, world.marked_all(renderers, n)),
        world.marked_all(renderers, n).components.len() == world.components.len(),
    decreases n,
{
    if n == 0 || n > renderers.len() {
    } else {
        lemma_marked_all_keeps_contents(world, renderers, (n - 1) as nat);
        let before = world.marked_all(renderers, (n - 1) as nat);
        assert(keeps_contents(before, before.marked(renderers[n - 1])));
        lemma_keeps_contents_chain(world, before, before.marked(renderers[n - 1]));
    }
}

/// What is mounted afresh names only components with new identifiers, and
/// the new components have mounted nothing yet.
pub proof fn lemma_mounted_order<N, M: ComponentModel<N>>(
    world: World<N, M>,
    vnode: VNode<N, M>,
    context_link: ContextLink,
    factory: FactoryId,
)
    requires
        world.mounted(vnode, context_link, factory).0.fits(),
    ensures
        ({
            let (after, mount) = world.mounted(vnode, context_link, factory);
            &&& keeps_contents(world, after)
            &&& mount.within(world.components.len(), after.components.len())
        }),
    decreases vnode,
{
    match vnode {
        VNode::Native(_) => {},
        VNode::Component(_) => {},
        VNode::Fragment(children) => {
            lemma_mounted_children_order(
                world,
                children@,
                children@.len(),
                context_link,
                factory,
            );
        },
        VNode::Context(context) => {
            let node = world.contexts.len() as usize;
            let own = FactoryId::Context(node);
            let before = World {
                contexts: world.contexts.push(
                    ContextNodeView {
                        parent: context_link,
                        value: context.value,
                        renderers: Seq::empty(),
                    },
                ),
                ..world.with_op(NativeOp::MakeFactory { parent: factory, factory: own })
            };
            lemma_mounted_order(before, *context.children, Some(node), own);
            assert(keeps_contents(world, before));
            lemma_keeps_contents_chain(
                world,
                before,
                before.mounted(*context.children, Some(node), own).0,
            );
        },
    }
}

/// Children that are mounted afresh name only components with new
/// identifiers.
pub proof fn lemma_mounted_children_order<N, M: ComponentModel<N>>(
    world: World<N, M>,
    children: Seq<(String, VNode<N, M>)>,
    n: nat,
    context_link: ContextLink,
    factory: FactoryId,
)
    requires
        world.mounted_children(children, n, context_link, factory).0.fits(),
    ensures
        ({
            let (after, content) = world.mounted_children(children, n, context_link, factory);
            &&& keeps_contents(world, after)
            &&& forall|i: int|
                0 <= i < content.len() ==> (#[trigger] content[i]).1.within(
                    world.components.len(),
                    after.components.len(),
                )
        }),
    decreases children, n,
{
    if n == 0 || n > children.len() {
    } else {
        let (before, content) = world.mounted_children(
            children,
            (n - 1) as nat,
            context_link,
            factory,
        );
        law_mount_leaves_the_rest(before, children[n - 1].1, context_link, factory);
        lemma_mounted_children_order(world, children, (n - 1) as nat, context_link, factory);
        lemma_mounted_order(before, children[n - 1].1, context_link, factory);
        let (after, mount) = before.mounted(children[n - 1].1, context_link, factory);
        lemma_keeps_contents_chain(world, before, after);
        let grown = content.push((children[n - 1].0, mount));
        assert forall|i: int| 0 <= i < grown.len() implies (#[trigger] grown[i]).1.within(
            world.components.len(),
            after.components.len(),
        ) by {
            if i < content.len() {
                assert(grown[i] == content[i]);
                lemma_within_wider(
                    content[i].1,
                    world.components.len(),
                    before.components.len(),
                    world.components.len(),
                    after.components.len(),
                );
            } else {
                lemma_within_wider(
                    mount,
                    before.components.len(),
                    after.components.len(),
                    world.components.len(),
                    after.components.len(),
                );
            }
        }
    }
}

/// Giving a component a new element keeps the content of every other
/// component, and leaves the component its content or none.
pub proof fn lemma_component_updated_keeps_contents<N, M: ComponentModel<N>>(
    world: World<N, M>,
    id: RendererId,
    element: VComponentElement<N, M>,
)
    ensures
        keeps_contents(world, world.component_updated(id, element)),
{
    if world.live(id) {
        let component = world.components[id as int].unwrap();
        match compare_models::<N, M>(element.component_model, component.element.component_model) {
            NodeComparisonResult::Equal => {},
            NodeComparisonResult::SameType => {},
            NodeComparisonResult::DifferentType => {
                let taken = World {
                    components: world.components.update(id as int, None),
                    ..world
                };
                if component.content.is_some() {
                    law_unmount_only_clears(
                        taken,
                        component.content.unwrap(),
                        (id + 1) as nat,
                        taken.components.len(),
                    );
                }
            },
        }
    }
}

/// Reconciling gives up no slot.
pub proof fn lemma_updated_grows<N, M: ComponentModel<N>>(
    world: World<N, M>,
    mount: MountView,
    vnode: VNode<N, M>,
    parent_factory: FactoryId,
)
    ensures
        world.updated(mount, vnode, parent_factory).0.components.len() >= world.components.len(),
    decreases vnode,
{
    match (mount, vnode) {
        (MountView::Native(id), VNode::Native(node)) => {},
        (MountView::Component(id), VNode::Component(element)) => {
            let placed = world.with_op(
                NativeOp::SequenceFactory {
                    parent: parent_factory,
                    factory: FactoryId::Component(id),
                },
            );
            lemma_component_updated_keeps_contents(placed, id, element);
        },
        (MountView::Fragment { content, context_link, factory }, VNode::Fragment(children)) => {
            let slots = filled_slots(content);
            lemma_reconciled_grows(world, slots, children@, children@.len(), context_link, factory);
            let matched = world.reconciled(slots, children@, children@.len(), context_link, factory);
            lemma_swept_keeps_contents(matched.0, matched.1, matched.1.len());
        },
        (MountView::Context { node, child, factory }, VNode::Context(context)) => {
            let old = MountView::Context { node, child, factory };
            let placed = world.with_op(
                NativeOp::SequenceFactory { parent: parent_factory, factory },
            );
            if node < world.contexts.len() && compare_context(
                context.value,
                world.contexts[node as int],
            ) != NodeComparisonResult::DifferentType {
                let scanned = placed.with_op(NativeOp::ResetScanner { factory });
                let valued = World {
                    contexts: scanned.contexts.update(
                        node as int,
                        ContextNodeView { value: context.value, ..scanned.contexts[node as int] },
                    ),
                    ..scanned
                };
                lemma_marked_all_keeps_contents(
                    valued,
                    world.contexts[node as int].renderers,
                    world.contexts[node as int].renderers.len(),
                );
                let pushed = if compare_context(context.value, world.contexts[node as int])
                    == NodeComparisonResult::Equal {
                    scanned
                } else {
                    valued.marked_all(
                        world.contexts[node as int].renderers,
                        world.contexts[node as int].renderers.len(),
                    )
                };
                lemma_updated_grows(pushed, *child, *context.children, factory);
            } else {
                law_unmount_only_clears(placed, old, 0, placed.components.len());
                law_mount_leaves_the_rest(
                    placed.torn_down(old),
                    VNode::Context(context),
                    placed.context_link_of(old),
                    parent_factory,
                );
            }
        },
        _ => {
            law_unmount_only_clears(world, mount, 0, world.components.len());
            law_mount_leaves_the_rest(
                world.torn_down(mount),
                vnode,
                world.context_link_of(mount),
                parent_factory,
            );
        },
    }
}

/// Matching the children of a fragment gives up no slot.
pub proof fn lemma_reconciled_grows<N, M: ComponentModel<N>>(
    world: World<N, M>,
    slots: Slots,
    children: Seq<(String, VNode<N, M>)>,
    n: nat,
    context_link: ContextLink,
    factory: FactoryId,
)
    ensures
        world.reconciled(slots, children, n, context_link, factory).0.components.len()
            >= world.components.len(),
    decreases children, n,
{
    if n == 0 || n > children.len() {
    } else {
        lemma_reconciled_grows(world, slots, children, (n - 1) as nat, context_link, factory);
        let (before, open, content) = world.reconciled(
            slots,
            children,
            (n - 1) as nat,
            context_link,
            factory,
        );
        let at = slot_of(open, children[n - 1].0@);
        lemma_slot_of_in_range(open, children[n - 1].0@);
        if at < open.len() {
            lemma_updated_grows(before, open[at].1.unwrap(), children[n - 1].1, factory);
        } else {
            law_mount_leaves_the_rest(before, children[n - 1].1, context_link, factory);
        }
    }
}

/// Whether every mount in the slots names only components from `low` up
/// to `high`.
pub open spec fn slots_within(slots: Slots, low: nat, high: nat) -> bool {
    forall|j: int|
        0 <= j < slots.len() ==> match (#[trigger] slots[j]).1 {
            Some(mount) => mount.within(low, high),
            None => true,
        }
}

/// Whether every mount of the content names only components from `low` up
/// to `high`.
pub open spec fn content_within(content: Seq<(String, MountView)>, low: nat, high: nat) -> bool {
    forall|i: int| 0 <= i < content.len() ==> (#[trigger] content[i]).1.within(low, high)
}

/// Reconciling a mount changes the content of no component, and the mount
/// that stands afterwards names only components that the old one named or
/// that are new.
pub proof fn lemma_updated_order<N, M: ComponentModel<N>>(
    world: World<N, M>,
    mount: MountView,
    vnode: VNode<N, M>,
    parent_factory: FactoryId,
    low: nat,
)
    requires
        low <= world.components.len(),
        mount.within(low, world.components.len()),
        world.updated(mount, vnode, parent_factory).0.fits(),
    ensures
        ({
            let (after, fresh) = world.updated(mount, vnode, parent_factory);
            &&& keeps_contents(world, after)
            &&& fresh.within(low, after.components.len())
        }),
    decreases vnode,
{
    match (mount, vnode) {
        (MountView::Native(id), VNode::Native(node)) => {},
        (MountView::Component(id), VNode::Component(element)) => {
            let placed = world.with_op(
                NativeOp::SequenceFactory {
                    parent: parent_factory,
                    factory: FactoryId::Component(id),
                },
            );
            lemma_component_updated_keeps_contents(placed, id, element);
        },
        (MountView::Fragment { content, context_link, factory }, VNode::Fragment(children)) => {
            lemma_fragment_updated_order(world, content, context_link, factory, children@, low);
        },
        (MountView::Context { node, child, factory }, VNode::Context(context)) => {
            lemma_context_updated_order(world, node, *child, factory, context, parent_factory, low);
        },
        _ => {
            lemma_replaced_order(world, mount, vnode, world.context_link_of(mount), parent_factory, low);
        },
    }
}

/// Tearing a mount down and mounting a node in its place changes the
/// content of no component that stays, and the new mount names only new
/// components.
pub proof fn lemma_replaced_order<N, M: ComponentModel<N>>(
    world: World<N, M>,
    mount: MountView,
    vnode: VNode<N, M>,
    context_link: ContextLink,
    parent_factory: FactoryId,
    low: nat,
)
    requires
        low <= world.components.len(),
        world.torn_down(mount).mounted(vnode, context_link, parent_factory).0.fits(),
    ensures
        ({
            let (after, fresh) = world.torn_down(mount).mounted(vnode, context_link, parent_factory);
            &&& keeps_contents(world, after)
            &&& fresh.within(low, after.components.len())
        }),
{
    let torn = world.torn_down(mount);
    law_unmount_only_clears(world, mount, 0, world.components.len());
    lemma_mounted_order(torn, vnode, context_link, parent_factory);
    let (after, fresh) = torn.mounted(vnode, context_link, parent_factory);
    lemma_keeps_contents_chain(world, torn, after);
    lemma_within_wider(
        fresh,
        torn.components.len(),
        after.components.len(),
        low,
        after.components.len(),
    );
}

/// Reconciling a provider keeps the order of identifiers.
pub proof fn lemma_context_updated_order<N, M: ComponentModel<N>>(
    world: World<N, M>,
    node: ContextId,
    child: MountView,
    factory: FactoryId,
    context: VContext<N, M>,
    parent_factory: FactoryId,
    low: nat,
)
    requires
        low <= world.components.len(),
        child.within(low, world.components.len()),
        world.context_updated(node, child, factory, context, parent_factory).0.fits(),
    ensures
        ({
            let (after, fresh) = world.context_updated(
                node,
                child,
                factory,
                context,
                parent_factory,
            );
            &&& keeps_contents(world, after)
            &&& fresh.within(low, after.components.len())
        }),
    decreases context,
{
    let mount = MountView::Context { node, child: Box::new(child), factory };
    let placed = world.with_op(NativeOp::SequenceFactory { parent: parent_factory, factory });
    if node < world.contexts.len() && compare_context(context.value, world.contexts[node as int])
        != NodeComparisonResult::DifferentType {
        let scanned = placed.with_op(NativeOp::ResetScanner { factory });
        let pushed = if compare_context(context.value, world.contexts[node as int])
            == NodeComparisonResult::Equal {
            scanned
        } else {
            World {
                contexts: scanned.contexts.update(
                    node as int,
                    ContextNodeView { value: context.value, ..scanned.contexts[node as int] },
                ),
                ..scanned
            }.marked_all(
                world.contexts[node as int].renderers,
                world.contexts[node as int].renderers.len(),
            )
        };
        if compare_context(context.value, world.contexts[node as int])
            != NodeComparisonResult::Equal {
            lemma_marked_all_keeps_contents(
                World {
                    contexts: scanned.contexts.update(
                        node as int,
                        ContextNodeView { value: context.value, ..scanned.contexts[node as int] },
                    ),
                    ..scanned
                },
                world.contexts[node as int].renderers,
                world.contexts[node as int].renderers.len(),
            );
        }
        assert(keeps_contents(world, pushed));
        lemma_updated_order(pushed, child, *context.children, factory, low);
        lemma_keeps_contents_chain(
            world,
            pushed,
            pushed.updated(child, *context.children, factory).0,
        );
    } else {
        lemma_replaced_order(
            placed,
            mount,
            VNode::Context(context),
            placed.context_link_of(mount),
            parent_factory,
            low,
        );
        assert(keeps_contents(world, placed));
        lemma_keeps_contents_chain(
            world,
            placed,
            placed.torn_down(mount).mounted(
                VNode::Context(context),
                placed.context_link_of(mount),
                parent_factory,
            ).0,
        );
    }
}

/// Tearing down what is left in the slots keeps every other content.
pub proof fn lemma_swept_keeps_contents<N, M: ComponentModel<N>>(
    world: World<N, M>,
    slots: Slots,
    n: nat,
)
    ensures
        keeps_contents(world, world.swept(slots, n)),
        world.swept(slots, n).components.len() == world.components.len(),
    decreases n,
{
    if n == 0 || n > slots.len() {
    } else {
        lemma_swept_keeps_contents(world, slots, (n - 1) as nat);
        let before = world.swept(slots, (n - 1) as nat);
        match slots[n - 1].1 {
            Some(mount) => {
                law_unmount_only_clears(before, mount, 0, before.components.len());
                lemma_keeps_contents_chain(world, before, before.torn_down(mount));
            },
            None => {},
        }
    }
}

/// Reconciling a fragment keeps the order of identifiers.
pub proof fn lemma_fragment_updated_order<N, M: ComponentModel<N>>(
    world: World<N, M>,
    content: Seq<(String, MountView)>,
    context_link: ContextLink,
    factory: FactoryId,
    children: Seq<(String, VNode<N, M>)>,
    low: nat,
)
    requires
        low <= world.components.len(),
        content_within(content, low, world.components.len()),
        world.fragment_updated(content, context_link, factory, children).0.fits(),
    ensures
        ({
            let (after, fresh) = world.fragment_updated(content, context_link, factory, children);
            &&& keeps_contents(world, after)
            &&& fresh.within(low, after.components.len())
        }),
    decreases children, children.len() + 1,
{
    let slots = filled_slots(content);
    let matched = world.reconciled(slots, children, children.len(), context_link, factory);
    lemma_swept_keeps_contents(matched.0, matched.1, matched.1.len());
    assert(slots_within(slots, low, world.components.len())) by {
        assert forall|j: int| 0 <= j < slots.len() implies match (#[trigger] slots[j]).1 {
            Some(mount) => mount.within(low, world.components.len()),
            None => true,
        } by {
            assert(slots[j].1 == Some(content[j].1));
        }
    }
    lemma_reconciled_order(world, slots, children, children.len(), context_link, factory, low);
    let (reconciled, open, fresh) = world.reconciled(
        slots,
        children,
        children.len(),
        context_link,
        factory,
    );
    lemma_swept_keeps_contents(reconciled, open, open.len());
    lemma_keeps_contents_chain(world, reconciled, reconciled.swept(open, open.len()));
}

/// Matching the children of a fragment keeps the order of identifiers.
pub proof fn lemma_reconciled_order<N, M: ComponentModel<N>>(
    world: World<N, M>,
    slots: Slots,
    children: Seq<(String, VNode<N, M>)>,
    n: nat,
    context_link: ContextLink,
    factory: FactoryId,
    low: nat,
)
    requires
        n <= children.len(),
        low <= world.components.len(),
        slots_within(slots, low, world.components.len()),
        world.reconciled(slots, children, n, context_link, factory).0.fits(),
    ensures
        ({
            let (after, open, content) = world.reconciled(
                slots,
                children,
                n,
                context_link,
                factory,
            );
            &&& keeps_contents(world, after)
            &&& slots_within(open, low, after.components.len())
            &&& content_within(content, low, after.components.len())
        }),
    decreases children, n,
{
    if n == 0 {
    } else {
        let (before, open, content) = world.reconciled(
            slots,
            children,
            (n - 1) as nat,
            context_link,
            factory,
        );
        let key = children[n - 1].0;
        let at = slot_of(open, key@);
        lemma_slot_of_in_range(open, key@);
        let (after, rest, grown) = world.reconciled(slots, children, n, context_link, factory);
        if at < open.len() {
            lemma_updated_grows(before, open[at].1.unwrap(), children[n - 1].1, factory);
        } else {
            law_mount_leaves_the_rest(before, children[n - 1].1, context_link, factory);
        }
        lemma_reconciled_order(
            world,
            slots,
            children,
            (n - 1) as nat,
            context_link,
            factory,
            low,
        );
        if at < open.len() {
            let old = open[at].1.unwrap();
            lemma_updated_order(before, old, children[n - 1].1, factory, low);
            let (next, mount) = before.updated(old, children[n - 1].1, factory);
            assert(after == next);
            assert(rest == open.update(at, (open[at].0, None)));
            assert(grown == content.push((key, mount)));
        } else {
            lemma_mounted_order(before, children[n - 1].1, context_link, factory);
            let (next, mount) = before.mounted(children[n - 1].1, context_link, factory);
            assert(after == next);
            assert(rest == open);
            assert(grown == content.push((key, mount)));
            lemma_within_wider(
                mount,
                before.components.len(),
                after.components.len(),
                low,
                after.components.len(),
            );
        }
        lemma_keeps_contents_chain(world, before, after);
        assert(slots_within(rest, low, after.components.len())) by {
            assert forall|j: int| 0 <= j < rest.len() implies match (#[trigger] rest[j]).1 {
                Some(mount) => mount.within(low, after.components.len()),
                None => true,
            } by {
                if rest[j].1.is_some() {
                    assert(rest[j] == open[j]);
                    lemma_within_wider(
                        open[j].1.unwrap(),
                        low,
                        before.components.len(),
                        low,
                        after.components.len(),
                    );
                }
            }
        }
        assert(content_within(grown, low, after.components.len())) by {
            assert forall|i: int| 0 <= i < grown.len() implies (#[trigger] grown[i]).1.within(
                low,
                after.components.len(),
            ) by {
                if i < content.len() {
                    assert(grown[i] == content[i]);
                    lemma_within_wider(
                        content[i].1,
                        low,
                        before.components.len(),
                        low,
                        after.components.len(),
                    );
                }
            }
        }
    }
}

/// What a component mounts is younger than the component: a runtime in
/// which that holds of every component still has it after the component
/// `id`, taken out of its slot to render, is put back with what its render
/// produced.
pub proof fn law_commit_keeps_order<N, M: ComponentModel<N>>(
    world: World<N, M>,
    id: RendererId,
    component: ComponentView<N, M>,
    node: VNode<N, M>,
)
    requires
        world.ordered(),
        id < world.components.len(),
        match component.content {
            Some(mount) => mount.within((id + 1) as nat, world.components.len()),
            None => true,
        },
        world.committed(id, component, node).fits(),
    ensures
        world.committed(id, component, node).ordered(),
{
    let own = FactoryId::Component(id);
    let (reconciled, content) = match component.content {
        Some(mount) => world.updated(mount, node, own),
        None => world.mounted(node, component.scope.component_scope.context_link, own),
    };
    match component.content {
        Some(mount) => {
            lemma_updated_order(world, mount, node, own, (id + 1) as nat);
        },
        None => {
            lemma_mounted_order(world, node, component.scope.component_scope.context_link, own);
            lemma_within_wider(
                content,
                world.components.len(),
                reconciled.components.len(),
                (id + 1) as nat,
                reconciled.components.len(),
            );
        },
    }
    lemma_ordered_kept(world, reconciled);
    let after = world.committed(id, component, node);
    assert(after.components == reconciled.components.update(
        id as int,
        Some(ComponentView { content: Some(content), ..component }),
    ));
    assert forall|other: int| 0 <= other < after.components.len() implies match #[trigger] after.components[other] {
        Some(component) => match component.content {
            Some(mount) => mount.within((other + 1) as nat, after.components.len()),
            None => true,
        },
        None => true,
    } by {
        if other != id {
            assert(after.components[other] == reconciled.components[other]);
        }
    }
}

/// Handing effects to the host keeps a runtime ordered.
pub proof fn lemma_effects_keep_order<N, M: ComponentModel<N>>(
    world: World<N, M>,
    renderers: Seq<RendererId>,
    n: nat,
)
    requires
        world.ordered(),
    ensures
        world.effects_run_all(renderers, n).ordered(),
        world.effects_run_all(renderers, n).components.len() == world.components.len(),
    decreases n,
{
    if n == 0 || n > renderers.len() {
    } else {
        lemma_effects_keep_order(world, renderers, (n - 1) as nat);
        let before = world.effects_run_all(renderers, (n - 1) as nat);
        assert(keeps_contents(before, before.effects_run(renderers[n - 1])));
        lemma_ordered_kept(before, before.effects_run(renderers[n - 1]));
    }
}

/// A re-render keeps a runtime ordered, whatever the render function
/// leaves behind.
pub proof fn law_rerender_keeps_order<N, M: ComponentModel<N>>(
    world: World<N, M>,
    id: RendererId,
    step: RenderStep<N, M>,
)
    requires
        world.ordered(),
        world.live(id),
        world.rerendered_with(id, step).fits(),
    ensures
        world.rerendered_with(id, step).ordered(),
{
    let taken = world.rendering(id, step.contexts);
    assert(keeps_contents(world, taken));
    lemma_ordered_kept(world, taken);
    law_commit_keeps_order(
        taken,
        id,
        ComponentView { scope: step.scope, ..world.components[id as int].unwrap() },
        step.node,
    );
}

/// Mounting afresh, reconciling and tearing down keep a runtime ordered.
pub proof fn law_reconciliation_keeps_order<N, M: ComponentModel<N>>(
    world: World<N, M>,
    mount: MountView,
    vnode: VNode<N, M>,
    context_link: ContextLink,
    factory: FactoryId,
)
    requires
        world.ordered(),
        mount.within(0, world.components.len()),
        world.mounted(vnode, context_link, factory).0.fits(),
        world.updated(mount, vnode, factory).0.fits(),
    ensures
        world.mounted(vnode, context_link, factory).0.ordered(),
        world.updated(mount, vnode, factory).0.ordered(),
        world.torn_down(mount).ordered(),
{
    lemma_mounted_order(world, vnode, context_link, factory);
    lemma_ordered_kept(world, world.mounted(vnode, context_link, factory).0);
    lemma_updated_order(world, mount, vnode, factory, 0);
    lemma_ordered_kept(world, world.updated(mount, vnode, factory).0);
    law_unmount_only_clears(world, mount, 0, world.components.len());
    lemma_ordered_kept(world, world.torn_down(mount));
}

/// In an ordered runtime tearing down leaves nothing behind: no component
/// that the mount names is mounted afterwards, and the same holds, by the
/// same law, of what those components had mounted.
pub proof fn law_teardown_is_complete<N, M: ComponentModel<N>>(
    world: World<N, M>,
    mount: MountView,
    floor: nat,
    limit: nat,
    id: RendererId,
)
    requires
        mount.within(floor, limit),
        limit == world.components.len(),
        mount.names(id),
    ensures
        !world.unmounted(mount, floor, limit).live(id),
    decreases mount,
{
    match mount {
        MountView::Native(_) => {},
        MountView::Component(named) => {
            if world.live(named) {
                let component = world.components[named as int].unwrap();
                let taken = World {
                    components: world.components.update(named as int, None),
                    ..world
                };
                if component.content.is_some() {
                    law_unmount_only_clears(
                        taken,
                        component.content.unwrap(),
                        (named + 1) as nat,
                        limit,
                    );
                }
            }
        },
        MountView::Fragment { content, .. } => {
            let at = choose|i: int| 0 <= i < content.len() && (#[trigger] content[i]).1.names(id);
            lemma_teardown_of_children_is_complete(world, content, content.len(), floor, limit, at, id);
        },
        MountView::Context { node, child, factory } => {
            law_teardown_is_complete(
                world.with_op(NativeOp::UnmountFactory { factory }),
                *child,
                floor,
                limit,
                id,
            );
        },
    }
}

/// Tearing down children leaves no component behind that one of them
/// names.
pub proof fn lemma_teardown_of_children_is_complete<N, M: ComponentModel<N>>(
    world: World<N, M>,
    children: Seq<(String, MountView)>,
    n: nat,
    floor: nat,
    limit: nat,
    at: int,
    id: RendererId,
)
    requires
        n <= children.len(),
        0 <= at < n,
        forall|i: int| 0 <= i < children.len() ==> (#[trigger] children[i]).1.within(floor, limit),
        limit == world.components.len(),
        children[at].1.names(id),
    ensures
        !world.unmounted_children(children, n, floor, limit).live(id),
    decreases children, n,
{
    let before = world.unmounted_children(children, (n - 1) as nat, floor, limit);
    crate::laws::lemma_unmount_children_only_clear(world, children, (n - 1) as nat, floor, limit);
    if at == n - 1 {
        law_teardown_is_complete(before, children[n - 1].1, floor, limit, id);
    } else {
        lemma_teardown_of_children_is_complete(
            world,
            children,
            (n - 1) as nat,
            floor,
            limit,
            at,
            id,
        );
        law_unmount_only_clears(before, children[n - 1].1, floor, limit);
    }
}

} // verus!
