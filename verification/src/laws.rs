//! What holds of the core whatever is rendered: laws over the models that
//! the contracts of the executable functions speak of.

use vstd::prelude::*;
use crate::renderer::mount::MountView;
use crate::renderer::native::{FactoryId, NativeOp};
use crate::renderer::runtime::lemma_effects_keep_queue;
use crate::renderer::world::{
    executed, filled_slots, lemma_pass_is_over_when_settled, lemma_slot_of,
    lemma_slot_of_in_range, run_commands, slot_matches, slot_of, RenderStep,
    ComponentView, EffectCommand, Slots, World,
};
use crate::scope::context::{ContextConsumerHandle, ContextId, ContextLink, ContextNodeView};
use crate::scope::effect::{EffectStore, EffectToken};
use crate::scope::renderer::RendererId;
use crate::scope::scope::{
    unsubscribed_all, ComponentScopeView, HookRequest, HookShape, ScopeView,
};
use crate::scope::updater::distinct;
use crate::v_node::component::{compare_models, ComponentModel, VComponentElement};
use crate::v_node::context::{compare_context, VContext};
use crate::v_node::node_comparison::NodeComparisonResult;
use crate::v_node::v_node::VNode;
use crate::value::{TypeToken, Value};

verus! {

/// A component that is given a model of its type that compares equal to
/// the one it has keeps everything: the runtime is the same afterwards,
/// with the element on record, every hook, what is mounted, the queue and
/// what was issued to the backend and the host.
pub proof fn law_equal_model_changes_nothing<N, M: ComponentModel<N>>(
    world: World<N, M>,
    id: RendererId,
    element: VComponentElement<N, M>,
)
    requires
        world.live(id),
        compare_models::<N, M>(
            element.component_model,
            world.components[id as int].unwrap().element.component_model,
        ) == NodeComparisonResult::Equal,
    ensures
        world.component_updated(id, element) == world,
{
}

/// Reconciling a mounted component with a node of its type whose model
/// compares equal renders nothing and mutates nothing on the backend: the
/// only instruction issued is the one that confirms the component's place
/// among its siblings, and the mount stays.
pub proof fn law_equal_model_short_circuit<N, M: ComponentModel<N>>(
    world: World<N, M>,
    id: RendererId,
    element: VComponentElement<N, M>,
    parent_factory: FactoryId,
)
    requires
        world.live(id),
        compare_models::<N, M>(
            element.component_model,
            world.components[id as int].unwrap().element.component_model,
        ) == NodeComparisonResult::Equal,
    ensures
        world.updated(MountView::Component(id), VNode::Component(element), parent_factory) == (
            world.with_op(
                NativeOp::SequenceFactory {
                    parent: parent_factory,
                    factory: FactoryId::Component(id),
                },
            ),
            MountView::Component(id),
        ),
{
}

/// A setter that is given a value equal to the stored one changes nothing
/// in the scope: the cell, the dirty flag and every other hook stay, so
/// that nothing asks for a re-render.
pub proof fn law_equal_state_changes_nothing(scope: ScopeView, index: usize, value: Value)
    requires
        scope.state_cell(index, value.type_token),
        value@ == scope.component_scope.state_hooks.hooks[index as int].value@,
    ensures
        scope.state_written(index, value) == scope,
{
}

/// A setter that is given another value stores it and marks the scope
/// dirty.
pub proof fn law_new_state_marks_dirty(scope: ScopeView, index: usize, value: Value)
    requires
        scope.state_cell(index, value.type_token),
        value@ != scope.component_scope.state_hooks.hooks[index as int].value@,
    ensures
        scope.state_written(index, value).update_flag,
        scope.state_written(index, value).component_scope.state_hooks.hooks[index as int].value
            == value,
{
}

/// An effect that ran is asked for again, on a later render, with a basis
/// equal to the one it ran for: it stays as it is, not pending, however
/// often that happens, and the host is told to run neither its cleanup nor
/// its body.
pub proof fn law_same_basis_never_reruns(
    scope: ComponentScopeView,
    effect: EffectToken,
    basis: Value,
    renderer: RendererId,
)
    requires
        scope.has_init,
        scope.effect_ready(basis.type_token),
        basis@ == scope.effect_hooks.next().basis.unwrap()@,
    ensures
        scope.effect_requested(effect, basis).effect_hooks.hooks == scope.effect_hooks.hooks,
        !scope.effect_hooks.next().pending_execution ==> run_commands(
            scope.effect_requested(effect, basis).effect_hooks.hooks,
            renderer,
            (scope.effect_hooks.current_index + 1) as nat,
        ) == run_commands(
            scope.effect_hooks.hooks,
            renderer,
            scope.effect_hooks.current_index as nat,
        ),
{
}

/// An effect that is asked for, on a later render, with a basis that
/// differs from the one it last ran for becomes pending, and the next flush
/// tells the host to run the cleanup of its last run, if one is due, and
/// then its new body.
pub proof fn law_new_basis_reruns(
    scope: ComponentScopeView,
    effect: EffectToken,
    basis: Value,
    renderer: RendererId,
)
    requires
        scope.has_init,
        scope.effect_ready(basis.type_token),
        basis@ != scope.effect_hooks.next().basis.unwrap()@,
    ensures
        ({
            let index = scope.effect_hooks.current_index;
            let hooks = scope.effect_requested(effect, basis).effect_hooks.hooks;
            let before = run_commands(hooks, renderer, index as nat);
            let run = EffectCommand::Run { renderer, index, effect };
            &&& hooks[index as int].pending_execution
            &&& run_commands(hooks, renderer, (index + 1) as nat) == match scope.effect_hooks.next().cleanup {
                Some(cleanup) => before.push(EffectCommand::Cleanup { cleanup }).push(run),
                None => before.push(run),
            }
        }),
{
}

/// After the effects of a scope were handed to the host none is pending,
/// so that handing them over again tells the host nothing: every pending
/// effect runs exactly once.
pub proof fn law_effects_run_once(effects: Seq<EffectStore>, renderer: RendererId, n: nat)
    ensures
        run_commands(executed(effects), renderer, n) == Seq::<EffectCommand>::empty(),
    decreases n,
{
    if n == 0 || n > effects.len() {
    } else {
        law_effects_run_once(effects, renderer, (n - 1) as nat);
    }
}

/// However often a renderer is marked dirty before a flush, the batch
/// holds it once: one render pass for any number of triggers.
pub proof fn law_repeated_marks_one_render(renderer: RendererId, marks: nat)
    requires
        marks >= 1,
    ensures
        distinct(Seq::new(marks, |i: int| renderer)) == seq![renderer],
    decreases marks,
{
    let queue = Seq::new(marks, |i: int| renderer);
    if marks == 1 {
        assert(queue.drop_last() =~= Seq::<RendererId>::empty());
        assert(distinct(queue.drop_last()) =~= Seq::<RendererId>::empty());
        assert(distinct(queue) =~= seq![renderer]);
    } else {
        law_repeated_marks_one_render(renderer, (marks - 1) as nat);
        assert(queue.drop_last() =~= Seq::new((marks - 1) as nat, |i: int| renderer));
        assert(seq![renderer][0] == renderer);
        assert(distinct(queue.drop_last()).contains(renderer));
    }
}

/// The component `component` with its scope asking for a re-render.
pub open spec fn flagged<N, M>(component: ComponentView<N, M>) -> ComponentView<N, M> {
    ComponentView { scope: ScopeView { update_flag: true, ..component.scope }, ..component }
}

/// Marking the subscribers of a provider dirty reaches exactly them: they
/// are queued in the order of their subscriptions, every subscriber that is
/// mounted asks for a re-render and is otherwise as it was, and no other
/// component, no provider, no native element and nothing issued to the
/// backend or the host changes.
pub proof fn law_context_change_reaches_subscribers<N, M: ComponentModel<N>>(
    world: World<N, M>,
    subscribers: Seq<RendererId>,
    n: nat,
)
    requires
        n <= subscribers.len(),
    ensures
        ({
            let after = world.marked_all(subscribers, n);
            &&& after.dirty == world.dirty + subscribers.take(n as int)
            &&& after.contexts == world.contexts
            &&& after.natives == world.natives
            &&& after.ops == world.ops
            &&& after.commands == world.commands
            &&& after.components.len() == world.components.len()
            &&& forall|id: RendererId|
                id < world.components.len() ==> #[trigger] after.components[id as int] == (
                if subscribers.take(n as int).contains(id) && world.live(id) {
                    Some(flagged(world.components[id as int].unwrap()))
                } else {
                    world.components[id as int]
                })
        }),
    decreases n,
{
    if n == 0 {
        assert(world.dirty + subscribers.take(0) =~= world.dirty);
    } else {
        let before = world.marked_all(subscribers, (n - 1) as nat);
        let after = world.marked_all(subscribers, n);
        let last = subscribers[n - 1];
        law_context_change_reaches_subscribers(world, subscribers, (n - 1) as nat);
        assert(after == before.marked(last));
        assert(subscribers.take(n as int) =~= subscribers.take(n - 1).push(last));
        assert(after.dirty =~= world.dirty + subscribers.take(n as int));
        assert forall|id: RendererId| id < world.components.len() implies #[trigger] after.components[id as int]
            == (if subscribers.take(n as int).contains(id) && world.live(id) {
            Some(flagged(world.components[id as int].unwrap()))
        } else {
            world.components[id as int]
        }) by {
            let head = subscribers.take(n - 1);
            let all = subscribers.take(n as int);
            if head.contains(id) {
                let j = choose|j: int| 0 <= j < head.len() && head[j] == id;
                assert(all[j] == id);
            }
            if all.contains(id) && !head.contains(id) {
                let j = choose|j: int| 0 <= j < all.len() && all[j] == id;
                assert(j == n - 1);
            }
            if last == id {
                assert(all[n - 1] == id);
            }
        }
    }
}

/// Mounting a node afresh adds to the runtime and touches nothing that was
/// there: every component, provider and native element that existed is as
/// it was, and the new ones get identifiers that were never in use.
pub proof fn law_mount_leaves_the_rest<N, M: ComponentModel<N>>(
    world: World<N, M>,
    vnode: VNode<N, M>,
    context_link: ContextLink,
    factory: FactoryId,
)
    ensures
        ({
            let after = world.mounted(vnode, context_link, factory).0;
            &&& after.components.len() >= world.components.len()
            &&& after.contexts.len() >= world.contexts.len()
            &&& after.natives.len() >= world.natives.len()
            &&& forall|i: int|
                0 <= i < world.components.len() ==> #[trigger] after.components[i]
                    == world.components[i]
            &&& forall|i: int|
                0 <= i < world.contexts.len() ==> #[trigger] after.contexts[i] == world.contexts[i]
            &&& forall|i: int|
                0 <= i < world.natives.len() ==> #[trigger] after.natives[i] == world.natives[i]
            &&& after.commands == world.commands
        }),
    decreases vnode,
{
    match vnode {
        VNode::Native(_) => {},
        VNode::Component(_) => {},
        VNode::Fragment(children) => {
            lemma_mount_children_leave_the_rest(
                world,
                children@,
                children@.len(),
                context_link,
                factory,
            );
        },
        VNode::Context(context) => {
            let node = world.contexts.len() as usize;
            let own = FactoryId::Context(node);
            let before = World {
                contexts: world.contexts.push(
                    ContextNodeView {
                        parent: context_link,
                        value: context.value,
                        renderers: Seq::empty(),
                    },
                ),
                ..world.with_op(NativeOp::MakeFactory { parent: factory, factory: own })
            };
            law_mount_leaves_the_rest(before, *context.children, Some(node), own);
        },
    }
}

/// Mounting children afresh touches nothing that was there.
pub proof fn lemma_mount_children_leave_the_rest<N, M: ComponentModel<N>>(
    world: World<N, M>,
    children: Seq<(String, VNode<N, M>)>,
    n: nat,
    context_link: ContextLink,
    factory: FactoryId,
)
    ensures
        ({
            let after = world.mounted_children(children, n, context_link, factory).0;
            &&& after.components.len() >= world.components.len()
            &&& after.contexts.len() >= world.contexts.len()
            &&& after.natives.len() >= world.natives.len()
            &&& forall|i: int|
                0 <= i < world.components.len() ==> #[trigger] after.components[i]
                    == world.components[i]
            &&& forall|i: int|
                0 <= i < world.contexts.len() ==> #[trigger] after.contexts[i] == world.contexts[i]
            &&& forall|i: int|
                0 <= i < world.natives.len() ==> #[trigger] after.natives[i] == world.natives[i]
            &&& after.commands == world.commands
        }),
    decreases children, n,
{
    if n == 0 || n > children.len() {
    } else {
        lemma_mount_children_leave_the_rest(
            world,
            children,
            (n - 1) as nat,
            context_link,
            factory,
        );
        let before = world.mounted_children(children, (n - 1) as nat, context_link, factory).0;
        law_mount_leaves_the_rest(before, children[n - 1].1, context_link, factory);
    }
}

/// Whether two states of the provider chain have the same nodes with the
/// same parents and values; the subscriptions may differ.
pub open spec fn same_providers(before: Seq<ContextNodeView>, after: Seq<ContextNodeView>) -> bool {
    &&& after.len() == before.len()
    &&& forall|i: int|
        0 <= i < before.len() ==> (#[trigger] after[i]).parent == before[i].parent && after[i].value
            == before[i].value
}

/// Ending subscriptions changes no provider's parent or value.
pub proof fn lemma_unsubscribed_all_same_providers(
    nodes: Seq<ContextNodeView>,
    handles: Seq<ContextConsumerHandle>,
    renderer: RendererId,
    n: nat,
)
    ensures
        same_providers(nodes, unsubscribed_all(nodes, handles, renderer, n)),
    decreases n,
{
    if n == 0 || n > handles.len() {
    } else {
        lemma_unsubscribed_all_same_providers(nodes, handles, renderer, (n - 1) as nat);
    }
}

/// Tearing down a mount gives and takes no slot, queues no renderer, and
/// changes no provider's parent or value: only subscriptions end.
pub proof fn law_unmount_keeps_providers<N, M: ComponentModel<N>>(
    world: World<N, M>,
    mount: MountView,
    floor: nat,
    limit: nat,
)
    ensures
        ({
            let after = world.unmounted(mount, floor, limit);
            &&& after.components.len() == world.components.len()
            &&& after.natives.len() == world.natives.len()
            &&& after.dirty == world.dirty
            &&& same_providers(world.contexts, after.contexts)
        }),
    decreases limit - floor, mount,
{
    match mount {
        MountView::Native(_) => {},
        MountView::Component(id) => {
            if floor <= id < limit && world.live(id) {
                let component = world.components[id as int].unwrap();
                let taken = World { components: world.components.update(id as int, None), ..world };
                let below = match component.content {
                    Some(content) => taken.unmounted(content, (id + 1) as nat, limit),
                    None => taken,
                };
                if component.content.is_some() {
                    law_unmount_keeps_providers(
                        taken,
                        component.content.unwrap(),
                        (id + 1) as nat,
                        limit,
                    );
                }
                lemma_unsubscribed_all_same_providers(
                    below.contexts,
                    component.scope.component_scope.context_hooks.hooks,
                    component.scope.component_scope.renderer,
                    component.scope.component_scope.context_hooks.hooks.len(),
                );
            }
        },
        MountView::Fragment { content, .. } => {
            lemma_unmount_children_keep_providers(world, content, content.len(), floor, limit);
        },
        MountView::Context { node, child, factory } => {
            law_unmount_keeps_providers(
                world.with_op(NativeOp::UnmountFactory { factory }),
                *child,
                floor,
                limit,
            );
        },
    }
}

/// Tearing down children changes no provider's parent or value.
pub proof fn lemma_unmount_children_keep_providers<N, M: ComponentModel<N>>(
    world: World<N, M>,
    children: Seq<(String, MountView)>,
    n: nat,
    floor: nat,
    limit: nat,
)
    ensures
        ({
            let after = world.unmounted_children(children, n, floor, limit);
            &&& after.components.len() == world.components.len()
            &&& after.natives.len() == world.natives.len()
            &&& after.dirty == world.dirty
            &&& same_providers(world.contexts, after.contexts)
        }),
    decreases limit - floor, children, n,
{
    if n == 0 || n > children.len() {
    } else {
        lemma_unmount_children_keep_providers(world, children, (n - 1) as nat, floor, limit);
        let before = world.unmounted_children(children, (n - 1) as nat, floor, limit);
        law_unmount_keeps_providers(before, children[n - 1].1, floor, limit);
    }
}

/// A context of another type at the place of a mounted provider replaces
/// the provider: the old node loses every subscription, and the context is
/// mounted under a node of a new identity, below the same parent, that
/// holds the new value and has no subscribers.
pub proof fn law_provider_type_change_discards_subscriptions<N, M: ComponentModel<N>>(
    world: World<N, M>,
    node: ContextId,
    child: MountView,
    factory: FactoryId,
    context: VContext<N, M>,
    parent_factory: FactoryId,
)
    requires
        node < world.contexts.len(),
        compare_context(context.value, world.contexts[node as int])
            == NodeComparisonResult::DifferentType,
    ensures
        ({
            let (after, mount) = world.context_updated(
                node,
                child,
                factory,
                context,
                parent_factory,
            );
            let fresh = world.contexts.len() as int;
            &&& mount matches MountView::Context { node: renewed, .. } && renewed
                == world.contexts.len() as usize
            &&& after.contexts.len() > fresh
            &&& after.contexts[fresh] == (ContextNodeView {
                parent: world.contexts[node as int].parent,
                value: context.value,
                renderers: Seq::empty(),
            })
            &&& after.contexts[node as int].renderers == Seq::<RendererId>::empty()
        }),
{
    let old_mount = MountView::Context { node, child: Box::new(child), factory };
    let placed = world.with_op(NativeOp::SequenceFactory { parent: parent_factory, factory });
    let closed = placed.with_op(NativeOp::UnmountFactory { factory });
    law_unmount_keeps_providers(closed, child, 0, placed.components.len());
    let torn = placed.torn_down(old_mount);
    let link = placed.context_link_of(old_mount);
    let renewed = torn.contexts.len() as usize;
    let own = FactoryId::Context(renewed);
    let before = World {
        contexts: torn.contexts.push(
            ContextNodeView { parent: link, value: context.value, renderers: Seq::empty() },
        ),
        ..torn.with_op(NativeOp::MakeFactory { parent: parent_factory, factory: own })
    };
    law_mount_leaves_the_rest(before, *context.children, Some(renewed), own);
    assert(before.contexts[world.contexts.len() as int] == (ContextNodeView {
        parent: link,
        value: context.value,
        renderers: Seq::empty(),
    }));
}

/// A fragment whose two children are components is re-rendered with the
/// same keys in the other order and with models that compare equal: both
/// components keep their slots with every hook, nothing is torn down or
/// mounted, the content stands in the new order, and the backend is told
/// only where the two sibling lists now stand.
pub proof fn law_keyed_reorder_keeps_state<N, M: ComponentModel<N>>(
    world: World<N, M>,
    first: (String, RendererId),
    second: (String, RendererId),
    new_first: (String, VComponentElement<N, M>),
    new_second: (String, VComponentElement<N, M>),
    context_link: ContextLink,
    factory: FactoryId,
)
    requires
        first.0@ != second.0@,
        new_first.0@ == second.0@,
        new_second.0@ == first.0@,
        world.live(first.1),
        world.live(second.1),
        compare_models::<N, M>(
            new_first.1.component_model,
            world.components[second.1 as int].unwrap().element.component_model,
        ) == NodeComparisonResult::Equal,
        compare_models::<N, M>(
            new_second.1.component_model,
            world.components[first.1 as int].unwrap().element.component_model,
        ) == NodeComparisonResult::Equal,
    ensures
        world.fragment_updated(
            seq![
                (first.0, MountView::Component(first.1)),
                (second.0, MountView::Component(second.1)),
            ],
            context_link,
            factory,
            seq![
                (new_first.0, VNode::Component(new_first.1)),
                (new_second.0, VNode::Component(new_second.1)),
            ],
        ) == (
            world.with_op(
                NativeOp::SequenceFactory {
                    parent: factory,
                    factory: FactoryId::Component(second.1),
                },
            ).with_op(
                NativeOp::SequenceFactory {
                    parent: factory,
                    factory: FactoryId::Component(first.1),
                },
            ),
            MountView::Fragment {
                content: seq![
                    (new_first.0, MountView::Component(second.1)),
                    (new_second.0, MountView::Component(first.1)),
                ],
                context_link,
                factory,
            },
        ),
{
    let content = seq![
        (first.0, MountView::Component(first.1)),
        (second.0, MountView::Component(second.1)),
    ];
    let children = seq![
        (new_first.0, VNode::Component(new_first.1)),
        (new_second.0, VNode::Component(new_second.1)),
    ];
    let slots = filled_slots(content);
    let start = world.reconciled(slots, children, 0, context_link, factory);
    assert(start == (world, slots, Seq::<(String, MountView)>::empty()));
    lemma_slot_of(slots, new_first.0@, 1);
    let one = world.reconciled(slots, children, 1, context_link, factory);
    let placed_second = world.with_op(
        NativeOp::SequenceFactory { parent: factory, factory: FactoryId::Component(second.1) },
    );
    let open = slots.update(1, (slots[1].0, None));
    assert(slots[1].1.unwrap() == MountView::Component(second.1));
    assert(children[0] == (new_first.0, VNode::<N, M>::Component(new_first.1)));
    law_equal_model_short_circuit(world, second.1, new_first.1, factory);
    assert(one.0 == placed_second);
    assert(one.1 == open);
    assert(one.2 =~= seq![(new_first.0, MountView::Component(second.1))]);
    lemma_slot_of(open, new_second.0@, 0);
    let two = world.reconciled(slots, children, 2, context_link, factory);
    let placed_first = placed_second.with_op(
        NativeOp::SequenceFactory { parent: factory, factory: FactoryId::Component(first.1) },
    );
    let closed = open.update(0, (open[0].0, None));
    assert(open[0].1.unwrap() == MountView::Component(first.1));
    assert(children[1] == (new_second.0, VNode::<N, M>::Component(new_second.1)));
    assert(placed_second.live(first.1));
    law_equal_model_short_circuit(placed_second, first.1, new_second.1, factory);
    assert(two.0 == placed_first);
    assert(two.1 == closed);
    assert(two.2 =~= seq![
        (new_first.0, MountView::Component(second.1)),
        (new_second.0, MountView::Component(first.1)),
    ]);
    assert(placed_first.swept(closed, 0) == placed_first);
    assert(placed_first.swept(closed, 1) == placed_first);
    assert(placed_first.swept(closed, 2) == placed_first);
}

/// While the children of a fragment are matched, the new content grows by
/// one mount per child, under the child's key, and no slot is added.
pub proof fn lemma_reconciled_shape<N, M: ComponentModel<N>>(
    world: World<N, M>,
    slots: Slots,
    children: Seq<(String, VNode<N, M>)>,
    n: nat,
    context_link: ContextLink,
    factory: FactoryId,
)
    requires
        n <= children.len(),
    ensures
        ({
            let (after, open, content) = world.reconciled(
                slots,
                children,
                n,
                context_link,
                factory,
            );
            &&& content.len() == n
            &&& open.len() == slots.len()
            &&& forall|i: int| 0 <= i < n ==> (#[trigger] content[i]).0 == children[i].0
        }),
    decreases n,
{
    if n > 0 {
        lemma_reconciled_shape(world, slots, children, (n - 1) as nat, context_link, factory);
        let (before, open, content) = world.reconciled(
            slots,
            children,
            (n - 1) as nat,
            context_link,
            factory,
        );
        let key = children[n - 1].0;
        let at = slot_of(open, key@);
        lemma_slot_of_in_range(open, key@);
        let result = world.reconciled(slots, children, n, context_link, factory);
        let fresh = result.2;
        if at < open.len() {
            let mount = before.updated(open[at].1.unwrap(), children[n - 1].1, factory).1;
            assert(fresh == content.push((key, mount)));
            assert(result.1 == open.update(at, (open[at].0, None)));
        } else {
            let mount = before.mounted(children[n - 1].1, context_link, factory).1;
            assert(fresh == content.push((key, mount)));
            assert(result.1 == open);
        }
        assert(result.1.len() == slots.len());
        assert(fresh.len() == n);
        assert forall|i: int| 0 <= i < n implies (#[trigger] fresh[i]).0 == children[i].0 by {
            if i < n - 1 {
                assert(fresh[i] == content[i]);
            }
        }
    } else {
        let result = world.reconciled(slots, children, n, context_link, factory);
        assert(result == (world, slots, Seq::<(String, MountView)>::empty()));
    }
}

/// A fragment stands, after it was reconciled, in the order of its new
/// children: one mount per child, under the child's key, whatever the order
/// was before.
pub proof fn law_fragment_follows_new_order<N, M: ComponentModel<N>>(
    world: World<N, M>,
    content: Seq<(String, MountView)>,
    context_link: ContextLink,
    factory: FactoryId,
    children: Seq<(String, VNode<N, M>)>,
)
    ensures
        world.fragment_updated(content, context_link, factory, children).1 matches MountView::Fragment {
            content: fresh,
            context_link: link,
            factory: list,
        } && link == context_link && list == factory && fresh.len() == children.len()
            && forall|i: int| 0 <= i < children.len() ==> (#[trigger] fresh[i]).0 == children[i].0,
{
    lemma_reconciled_shape(
        world,
        filled_slots(content),
        children,
        children.len(),
        context_link,
        factory,
    );
}

/// Tearing down a mount fills no slot: every component is afterwards
/// either as it was or gone.
pub proof fn law_unmount_only_clears<N, M: ComponentModel<N>>(
    world: World<N, M>,
    mount: MountView,
    floor: nat,
    limit: nat,
)
    ensures
        ({
            let after = world.unmounted(mount, floor, limit);
            &&& after.components.len() == world.components.len()
            &&& forall|i: int|
                0 <= i < world.components.len() ==> (#[trigger] after.components[i]).is_none()
                    || after.components[i] == world.components[i]
        }),
    decreases limit - floor, mount,
{
    match mount {
        MountView::Native(_) => {},
        MountView::Component(id) => {
            if floor <= id < limit && world.live(id) {
                let component = world.components[id as int].unwrap();
                let taken = World { components: world.components.update(id as int, None), ..world };
                if component.content.is_some() {
                    law_unmount_only_clears(
                        taken,
                        component.content.unwrap(),
                        (id + 1) as nat,
                        limit,
                    );
                }
            }
        },
        MountView::Fragment { content, .. } => {
            lemma_unmount_children_only_clear(world, content, content.len(), floor, limit);
        },
        MountView::Context { node, child, factory } => {
            law_unmount_only_clears(
                world.with_op(NativeOp::UnmountFactory { factory }),
                *child,
                floor,
                limit,
            );
        },
    }
}

/// Tearing down children fills no slot.
pub proof fn lemma_unmount_children_only_clear<N, M: ComponentModel<N>>(
    world: World<N, M>,
    children: Seq<(String, MountView)>,
    n: nat,
    floor: nat,
    limit: nat,
)
    ensures
        ({
            let after = world.unmounted_children(children, n, floor, limit);
            &&& after.components.len() == world.components.len()
            &&& forall|i: int|
                0 <= i < world.components.len() ==> (#[trigger] after.components[i]).is_none()
                    || after.components[i] == world.components[i]
        }),
    decreases limit - floor, children, n,
{
    if n == 0 || n > children.len() {
    } else {
        lemma_unmount_children_only_clear(world, children, (n - 1) as nat, floor, limit);
        let before = world.unmounted_children(children, (n - 1) as nat, floor, limit);
        law_unmount_only_clears(before, children[n - 1].1, floor, limit);
    }
}

/// A mounted component that is torn down is gone: its slot is empty, and
/// stays reserved, so that its identifier names nothing from then on.
pub proof fn law_unmounted_component_is_gone<N, M: ComponentModel<N>>(
    world: World<N, M>,
    id: RendererId,
)
    requires
        world.live(id),
    ensures
        !world.torn_down(MountView::Component(id)).live(id),
        world.torn_down(MountView::Component(id)).components.len() == world.components.len(),
{
    let component = world.components[id as int].unwrap();
    let taken = World { components: world.components.update(id as int, None), ..world };
    if component.content.is_some() {
        law_unmount_only_clears(
            taken,
            component.content.unwrap(),
            (id + 1) as nat,
            world.components.len(),
        );
    }
}

/// A component that is given a model of another type while a tree is
/// reconciled starts over: what it mounted is torn down, its hooks are
/// cleared, the new element is on record, and it is dirty and queued for
/// its first render as the new type. It keeps its identifier and its place.
pub proof fn law_other_type_starts_over<N, M: ComponentModel<N>>(
    world: World<N, M>,
    id: RendererId,
    element: VComponentElement<N, M>,
)
    requires
        world.live(id),
        compare_models::<N, M>(
            element.component_model,
            world.components[id as int].unwrap().element.component_model,
        ) == NodeComparisonResult::DifferentType,
    ensures
        ({
            let before = world.components[id as int].unwrap();
            let after = world.component_updated(id, element);
            &&& after.components.len() == world.components.len()
            &&& after.components[id as int] == Some(
                ComponentView {
                    scope: ScopeView {
                        update_flag: true,
                        component_scope: before.scope.component_scope.cleared(),
                    },
                    element,
                    content: None,
                    native_mount_factory: before.native_mount_factory,
                },
            )
            &&& after.dirty == world.dirty.push(id)
        }),
{
    let component = world.components[id as int].unwrap();
    let taken = World { components: world.components.update(id as int, None), ..world };
    if component.content.is_some() {
        law_unmount_keeps_providers(
            taken,
            component.content.unwrap(),
            (id + 1) as nat,
            taken.components.len(),
        );
    }
}

/// The mounts of a fragment whose children are the components `old`, each
/// under its key.
pub open spec fn component_content(old: Seq<(String, RendererId)>) -> Seq<(String, MountView)> {
    Seq::new(old.len(), |i: int| (old[i].0, MountView::Component(old[i].1)))
}

/// The newly rendered children of a fragment that are the components
/// `new`, each under its key.
pub open spec fn component_children<N, M>(new: Seq<(String, VComponentElement<N, M>)>) -> Seq<
    (String, VNode<N, M>),
> {
    Seq::new(new.len(), |i: int| (new[i].0, VNode::Component(new[i].1)))
}

/// Whether `order` names every position below its length once.
pub open spec fn is_permutation(order: Seq<int>) -> bool {
    &&& forall|i: int| 0 <= i < order.len() ==> 0 <= #[trigger] order[i] < order.len()
    &&& forall|i: int, j: int|
        0 <= i < order.len() && 0 <= j < order.len() && i != j ==> #[trigger] order[i]
            != #[trigger] order[j]
}

/// Whether the children `new` are the components `old` in the order
/// `order`, under the same keys and with models that compare equal to the
/// mounted ones.
pub open spec fn reordered<N, M: ComponentModel<N>>(
    world: World<N, M>,
    old: Seq<(String, RendererId)>,
    new: Seq<(String, VComponentElement<N, M>)>,
    order: Seq<int>,
) -> bool {
    &&& old.len() == new.len()
    &&& order.len() == new.len()
    &&& is_permutation(order)
    &&& forall|i: int, j: int|
        0 <= i < old.len() && 0 <= j < old.len() && i != j ==> (#[trigger] old[i]).0@
            != (#[trigger] old[j]).0@
    &&& forall|i: int| 0 <= i < old.len() ==> world.live((#[trigger] old[i]).1)
    &&& forall|i: int|
        0 <= i < new.len() ==> (#[trigger] new[i]).0@ == old[order[i]].0@ && compare_models::<N, M>(
            new[i].1.component_model,
            world.components[old[order[i]].1 as int].unwrap().element.component_model,
        ) == NodeComparisonResult::Equal
}

/// What the backend is told when the first `n` children of a reordered
/// fragment are matched: where the sibling list of each now stands.
pub open spec fn placements<N>(
    factory: FactoryId,
    old: Seq<(String, RendererId)>,
    order: Seq<int>,
    n: nat,
) -> Seq<NativeOp<N>> {
    Seq::new(
        n,
        |i: int|
            NativeOp::SequenceFactory {
                parent: factory,
                factory: FactoryId::Component(old[order[i]].1),
            },
    )
}

/// Matching the first `n` children of a reordered fragment changes nothing
/// but what the backend is told.
pub proof fn lemma_reordered_prefix<N, M: ComponentModel<N>>(
    world: World<N, M>,
    old: Seq<(String, RendererId)>,
    new: Seq<(String, VComponentElement<N, M>)>,
    order: Seq<int>,
    context_link: ContextLink,
    factory: FactoryId,
    n: nat,
)
    requires
        reordered(world, old, new, order),
        n <= new.len(),
    ensures
        world.reconciled(
            filled_slots(component_content(old)),
            component_children(new),
            n,
            context_link,
            factory,
        ) == (
            World { ops: world.ops + placements(factory, old, order, n), ..world },
            unmatched_slots(component_content(old), order, n),
            Seq::new(n, |i: int| (new[i].0, MountView::Component(old[order[i]].1))),
        ),
    decreases n,
{
    let slots = filled_slots(component_content(old));
    let children = component_children(new);
    if n == 0 {
        assert(world.ops + placements::<N>(factory, old, order, 0) =~= world.ops);
        assert(unmatched_slots(component_content(old), order, 0) =~= slots);
        assert(Seq::new(0, |i: int| (new[i].0, MountView::Component(old[order[i]].1)))
            =~= Seq::<(String, MountView)>::empty());
    } else {
        lemma_reordered_prefix(world, old, new, order, context_link, factory, (n - 1) as nat);
        let before = World {
            ops: world.ops + placements(factory, old, order, (n - 1) as nat),
            ..world
        };
        let open = unmatched_slots(component_content(old), order, (n - 1) as nat);
        let content = Seq::new(
            (n - 1) as nat,
            |i: int| (new[i].0, MountView::Component(old[order[i]].1)),
        );
        let key = children[n - 1].0;
        let at = order[n - 1];
        assert(key == new[n - 1].0);
        lemma_next_slot(component_content(old), order, key@, n);
        let id = old[at].1;
        assert(open[at].1.unwrap() == MountView::Component(id));
        assert(children[n - 1].1 == VNode::<N, M>::Component(new[n - 1].1));
        assert(before.live(id));
        law_equal_model_short_circuit(before, id, new[n - 1].1, factory);
        let placed = before.with_op(
            NativeOp::SequenceFactory { parent: factory, factory: FactoryId::Component(id) },
        );
        assert(placed.ops =~= world.ops + placements(factory, old, order, n));
        assert(content.push((key, MountView::Component(id))) =~= Seq::new(
            n,
            |i: int| (new[i].0, MountView::Component(old[order[i]].1)),
        ));
    }
}

/// Nothing is left to tear down in slots that are all empty.
pub proof fn lemma_swept_empty_slots<N, M: ComponentModel<N>>(world: World<N, M>, slots: Slots, n: nat)
    requires
        forall|j: int| 0 <= j < slots.len() ==> (#[trigger] slots[j]).1.is_none(),
    ensures
        world.swept(slots, n) == world,
    decreases n,
{
    if n == 0 || n > slots.len() {
    } else {
        lemma_swept_empty_slots(world, slots, (n - 1) as nat);
    }
}

/// A fragment of components is re-rendered with the same keys in any other
/// order and with models that compare equal: every component keeps its slot
/// with every hook, nothing is torn down or mounted, nothing is queued, the
/// content stands in the new order, and the backend is told only where each
/// sibling list now stands.
pub proof fn law_keyed_permutation_keeps_state<N, M: ComponentModel<N>>(
    world: World<N, M>,
    old: Seq<(String, RendererId)>,
    new: Seq<(String, VComponentElement<N, M>)>,
    order: Seq<int>,
    context_link: ContextLink,
    factory: FactoryId,
)
    requires
        reordered(world, old, new, order),
    ensures
        world.fragment_updated(
            component_content(old),
            context_link,
            factory,
            component_children(new),
        ) == (
            World { ops: world.ops + placements(factory, old, order, new.len()), ..world },
            MountView::Fragment {
                content: Seq::new(
                    new.len(),
                    |i: int| (new[i].0, MountView::Component(old[order[i]].1)),
                ),
                context_link,
                factory,
            },
        ),
{
    let n = new.len();
    lemma_reordered_prefix(world, old, new, order, context_link, factory, n);
    let after = World { ops: world.ops + placements(factory, old, order, n), ..world };
    let slots = unmatched_slots(component_content(old), order, n);
    assert forall|j: int| 0 <= j < slots.len() implies (#[trigger] slots[j]).1.is_none() by {
        lemma_permutation_is_onto(order, j);
    }
    lemma_swept_empty_slots(after, slots, slots.len());
    assert(component_children(new).len() == n);
}

/// A permutation names every position.
pub proof fn lemma_permutation_is_onto(order: Seq<int>, j: int)
    requires
        is_permutation(order),
        0 <= j < order.len(),
    ensures
        exists|i: int| 0 <= i < order.len() && order[i] == j,
{
    let values = order.to_set();
    let all = Set::new(|k: int| 0 <= k < order.len());
    order.unique_seq_to_set();
    assert(values.subset_of(all)) by {
        assert forall|k: int| values.contains(k) implies all.contains(k) by {
            let i = choose|i: int| 0 <= i < order.len() && order[i] == k;
        }
    }
    vstd::set_lib::lemma_int_range(0, order.len() as int);
    assert(all =~= vstd::set_lib::set_int_range(0, order.len() as int));
    vstd::set_lib::lemma_subset_equality(values, all);
    assert(values.contains(j));
}

/// Whether the newly rendered `vnode` is of the kind and type of what
/// `mount` holds: a native node for a native element, or a component for a
/// mounted component of its type, with whatever model.
pub open spec fn same_kind<N, M: ComponentModel<N>>(
    world: World<N, M>,
    mount: MountView,
    vnode: VNode<N, M>,
) -> bool {
    match (mount, vnode) {
        (MountView::Native(_), VNode::Native(_)) => true,
        (MountView::Component(id), VNode::Component(element)) => {
            &&& world.live(id)
            &&& element.component_model.type_token_spec()
                == world.components[id as int].unwrap().element.component_model.type_token_spec()
        },
        _ => false,
    }
}

/// Whether the children `new` are the children `old` in the order `order`:
/// under the same keys, and each of the kind and type of what is mounted
/// under its key.
pub open spec fn rearranged<N, M: ComponentModel<N>>(
    world: World<N, M>,
    old: Seq<(String, MountView)>,
    new: Seq<(String, VNode<N, M>)>,
    order: Seq<int>,
) -> bool {
    &&& old.len() == new.len()
    &&& order.len() == new.len()
    &&& is_permutation(order)
    &&& forall|i: int, j: int|
        0 <= i < old.len() && 0 <= j < old.len() && i != j ==> (#[trigger] old[i]).0@
            != (#[trigger] old[j]).0@
    &&& forall|i: int|
        0 <= i < new.len() ==> (#[trigger] new[i]).0@ == old[order[i]].0@ && same_kind(
            world,
            old[order[i]].1,
            new[i].1,
        )
}

/// What the backend is told about a child that keeps its mount: for a
/// native element what it now shows and that it stands at the cursor, for a
/// component that its sibling list stands at the cursor.
pub open spec fn report<N, M>(factory: FactoryId, mount: MountView, vnode: VNode<N, M>) -> Seq<
    NativeOp<N>,
> {
    match (mount, vnode) {
        (MountView::Native(id), VNode::Native(node)) => seq![
            NativeOp::UpdateNative { factory, mount: id, node },
            NativeOp::SequenceNative { factory, mount: id },
        ],
        (MountView::Component(id), VNode::Component(_)) => seq![
            NativeOp::SequenceFactory { parent: factory, factory: FactoryId::Component(id) },
        ],
        _ => Seq::empty(),
    }
}

/// What the backend is told when the first `n` children of a rearranged
/// fragment are matched: the report on each, in the new order.
pub open spec fn reports<N, M>(
    factory: FactoryId,
    old: Seq<(String, MountView)>,
    new: Seq<(String, VNode<N, M>)>,
    order: Seq<int>,
    n: nat,
) -> Seq<NativeOp<N>>
    decreases n,
{
    if n == 0 || n > new.len() {
        Seq::empty()
    } else {
        reports(factory, old, new, order, (n - 1) as nat) + report(
            factory,
            old[order[n - 1]].1,
            new[n - 1].1,
        )
    }
}

/// Whether `after` has every component of `before` with the hooks, the
/// content and the sibling list that it had and with a model of the type
/// that it had, and no other component; whether the providers, the native
/// elements and what the host was told are the same; and whether the queue
/// has only grown. A component that does not ask for a re-render in `after`
/// is as it was.
pub open spec fn keeps_hooks<N, M: ComponentModel<N>>(before: World<N, M>, after: World<N, M>)
    -> bool {
    &&& after.components.len() == before.components.len()
    &&& after.contexts == before.contexts
    &&& after.natives == before.natives
    &&& after.commands == before.commands
    &&& after.round_limit == before.round_limit
    &&& before.dirty.is_prefix_of(after.dirty)
    &&& forall|id: int|
        0 <= id < before.components.len() ==> match #[trigger] before.components[id] {
            Some(was) => {
                &&& after.components[id].is_some()
                &&& after.components[id].unwrap().scope.component_scope
                    == was.scope.component_scope
                &&& after.components[id].unwrap().content == was.content
                &&& after.components[id].unwrap().native_mount_factory
                    == was.native_mount_factory
                &&& after.components[id].unwrap().element.component_model.type_token_spec()
                    == was.element.component_model.type_token_spec()
                &&& (after.components[id].unwrap().scope.update_flag || after.components[id]
                    == Some(was))
            },
            None => after.components[id].is_none(),
        }
}

/// The slots of a rearranged fragment after the first `n` children were
/// matched: the slots of those children are empty.
pub open spec fn unmatched_slots(old: Seq<(String, MountView)>, order: Seq<int>, n: nat) -> Slots {
    Seq::new(
        old.len(),
        |j: int|
            (
                old[j].0,
                if exists|i: int| 0 <= i < n && order[i] == j {
                    None
                } else {
                    Some(old[j].1)
                },
            ),
    )
}

/// The child that is matched next finds its mount in the slot that the
/// order names, and leaves that slot empty.
pub proof fn lemma_next_slot(old: Seq<(String, MountView)>, order: Seq<int>, key: Seq<char>, n: nat)
    requires
        order.len() == old.len(),
        is_permutation(order),
        forall|i: int, j: int|
            0 <= i < old.len() && 0 <= j < old.len() && i != j ==> (#[trigger] old[i]).0@
                != (#[trigger] old[j]).0@,
        0 < n <= old.len(),
        key == old[order[n - 1]].0@,
    ensures
        ({
            let open = unmatched_slots(old, order, (n - 1) as nat);
            let at = order[n - 1];
            &&& slot_of(open, key) == at
            &&& open[at].1 == Some(old[at].1)
            &&& open.update(at, (open[at].0, None)) == unmatched_slots(old, order, n)
        }),
{
    let open = unmatched_slots(old, order, (n - 1) as nat);
    let at = order[n - 1];
    assert forall|j: int| 0 <= j < at implies !slot_matches(open[j], key) by {
        assert(old[j].0@ != old[at].0@);
    }
    assert(slot_matches(open[at], key)) by {
        if exists|i: int| 0 <= i < n - 1 && order[i] == at {
            let i = choose|i: int| 0 <= i < n - 1 && order[i] == at;
            assert(order[i] != order[n - 1]);
        }
    }
    lemma_slot_of(open, key, at);
    assert(open.update(at, (open[at].0, None)) =~= unmatched_slots(old, order, n)) by {
        assert forall|j: int| 0 <= j < old.len() implies open.update(at, (open[at].0, None))[j]
            == unmatched_slots(old, order, n)[j] by {
            if j == at {
                assert(order[n - 1] == j);
            } else {
                if exists|i: int| 0 <= i < n && order[i] == j {
                    let i = choose|i: int| 0 <= i < n && order[i] == j;
                    assert(i < n - 1);
                }
            }
        }
    }
}

/// Matching the first `n` children of a rearranged fragment keeps every
/// component with its hooks and tells the backend only the reports on the
/// children.
pub proof fn lemma_rearranged_prefix<N, M: ComponentModel<N>>(
    world: World<N, M>,
    old: Seq<(String, MountView)>,
    new: Seq<(String, VNode<N, M>)>,
    order: Seq<int>,
    context_link: ContextLink,
    factory: FactoryId,
    n: nat,
)
    requires
        rearranged(world, old, new, order),
        n <= new.len(),
    ensures
        ({
            let (after, slots, content) = world.reconciled(
                filled_slots(old),
                new,
                n,
                context_link,
                factory,
            );
            &&& keeps_hooks(world, after)
            &&& after.ops == world.ops + reports(factory, old, new, order, n)
            &&& slots == unmatched_slots(old, order, n)
            &&& content == Seq::new(n, |i: int| (new[i].0, old[order[i]].1))
        }),
    decreases n,
{
    if n == 0 {
        assert(world.ops + reports(factory, old, new, order, 0) =~= world.ops);
        assert(unmatched_slots(old, order, 0) =~= filled_slots(old));
        assert(Seq::new(0, |i: int| (new[i].0, old[order[i]].1))
            =~= Seq::<(String, MountView)>::empty());
        assert(world.dirty.is_prefix_of(world.dirty));
    } else {
        lemma_rearranged_prefix(world, old, new, order, context_link, factory, (n - 1) as nat);
        let (before, open, content) = world.reconciled(
            filled_slots(old),
            new,
            (n - 1) as nat,
            context_link,
            factory,
        );
        let key = new[n - 1].0;
        let at = order[n - 1];
        lemma_next_slot(old, order, key@, n);
        let mount = old[at].1;
        let vnode = new[n - 1].1;
        assert(same_kind(world, mount, vnode));
        let (after, kept) = before.updated(mount, vnode, factory);
        let told = reports(factory, old, new, order, (n - 1) as nat);
        match (mount, vnode) {
            (MountView::Native(id), VNode::Native(node)) => {
                assert(after.ops =~= world.ops + (told + report(factory, mount, vnode)));
            },
            (MountView::Component(id), VNode::Component(element)) => {
                let placed = before.with_op(
                    NativeOp::SequenceFactory {
                        parent: factory,
                        factory: FactoryId::Component(id),
                    },
                );
                assert(world.components[id as int].is_some());
                assert(placed.live(id));
                assert(after == placed.component_updated(id, element));
                assert(placed.ops =~= world.ops + (told + report(factory, mount, vnode)));
                assert(after.ops == placed.ops);
                assert(world.dirty.is_prefix_of(after.dirty));
                assert(keeps_hooks(world, after));
            },
            _ => {},
        }
        assert(kept == mount);
        assert(content.push((key, kept)) =~= Seq::new(n, |i: int| (new[i].0, old[order[i]].1)));
    }
}

/// A fragment is re-rendered with the same keys in any other order, each
/// child of the kind and type of what is mounted under its key, native
/// element or component with whatever model: every child keeps its mount,
/// and the content stands in the new order; every component keeps its
/// hooks and what it mounted, and one whose model compares equal is as it
/// was; nothing is mounted or torn down, no cleanup is issued, and the
/// backend is told only the reports on the children, one child after the
/// other in the new order.
pub proof fn law_keyed_rearrangement_keeps_mounts<N, M: ComponentModel<N>>(
    world: World<N, M>,
    old: Seq<(String, MountView)>,
    new: Seq<(String, VNode<N, M>)>,
    order: Seq<int>,
    context_link: ContextLink,
    factory: FactoryId,
)
    requires
        rearranged(world, old, new, order),
    ensures
        ({
            let (after, mount) = world.fragment_updated(old, context_link, factory, new);
            &&& mount == MountView::Fragment {
                content: Seq::new(new.len(), |i: int| (new[i].0, old[order[i]].1)),
                context_link,
                factory,
            }
            &&& keeps_hooks(world, after)
            &&& after.ops == world.ops + reports(factory, old, new, order, new.len())
        }),
{
    let n = new.len();
    lemma_rearranged_prefix(world, old, new, order, context_link, factory, n);
    let (after, slots, content) = world.reconciled(filled_slots(old), new, n, context_link, factory);
    assert forall|j: int| 0 <= j < slots.len() implies (#[trigger] slots[j]).1.is_none() by {
        lemma_permutation_is_onto(order, j);
    }
    lemma_swept_empty_slots(after, slots, slots.len());
}

/// Whether the newly rendered `vnode` has the shape of what `mount` holds,
/// at every depth: a native node for a native element; a component for a
/// mounted component of its type, with whatever model; a fragment for a
/// fragment, with the same keys in whatever order and under each key a
/// node of the shape of what is mounted under it; a context for a provider
/// of the type of its value, with children of the shape of what is mounted
/// below the provider.
pub open spec fn same_shape<N, M: ComponentModel<N>>(
    world: World<N, M>,
    mount: MountView,
    vnode: VNode<N, M>,
) -> bool
    decreases vnode,
{
    match (mount, vnode) {
        (MountView::Native(_), VNode::Native(_)) => true,
        (MountView::Component(id), VNode::Component(element)) => {
            &&& world.live(id)
            &&& element.component_model.type_token_spec()
                == world.components[id as int].unwrap().element.component_model.type_token_spec()
        },
        (MountView::Fragment { content, .. }, VNode::Fragment(children)) => {
            &&& children@.len() == content.len()
            &&& forall|i: int, j: int|
                0 <= i < content.len() && 0 <= j < content.len() && i != j ==> (
                #[trigger] content[i]).0@ != (#[trigger] content[j]).0@
            &&& forall|i: int, j: int|
                0 <= i < children@.len() && 0 <= j < children@.len() && i != j ==> (
                #[trigger] children@[i]).0@ != (#[trigger] children@[j]).0@
            &&& children_fit(world, content, children@, children@.len())
        },
        (MountView::Context { node, child, .. }, VNode::Context(context)) => {
            &&& node < world.contexts.len()
            &&& context.value.type_token == world.contexts[node as int].value.type_token
            &&& same_shape(world, *child, *context.children)
        },
        _ => false,
    }
}

/// Whether each of the first `n` of `children` finds a child of `content`
/// under its key, and has the shape of what is mounted there.
pub open spec fn children_fit<N, M: ComponentModel<N>>(
    world: World<N, M>,
    content: Seq<(String, MountView)>,
    children: Seq<(String, VNode<N, M>)>,
    n: nat,
) -> bool
    decreases children, n,
{
    if n == 0 || n > children.len() {
        true
    } else {
        let at = slot_of(filled_slots(content), children[n - 1].0@);
        &&& children_fit(world, content, children, (n - 1) as nat)
        &&& at < content.len()
        &&& same_shape(world, content[at].1, children[n - 1].1)
    }
}

/// What the backend is told when `mount` is reconciled with a node of its
/// shape in the sibling list `parent_factory`: for a native element what it
/// now shows and that it stands at the cursor; for a component that its
/// sibling list stands at the cursor; for a provider that its list stands
/// at the cursor and is scanned from the start, and then what is told about
/// its child; for a fragment what is told about its children, one after the
/// other in the new order.
pub open spec fn reports_of<N, M>(parent_factory: FactoryId, mount: MountView, vnode: VNode<N, M>)
    -> Seq<NativeOp<N>>
    decreases vnode,
{
    match (mount, vnode) {
        (MountView::Native(id), VNode::Native(node)) => seq![
            NativeOp::UpdateNative { factory: parent_factory, mount: id, node },
            NativeOp::SequenceNative { factory: parent_factory, mount: id },
        ],
        (MountView::Component(id), VNode::Component(_)) => seq![
            NativeOp::SequenceFactory { parent: parent_factory, factory: FactoryId::Component(id) },
        ],
        (MountView::Fragment { content, factory, .. }, VNode::Fragment(children)) =>
            reports_of_children(factory, content, children@, children@.len()),
        (MountView::Context { child, factory, .. }, VNode::Context(context)) => seq![
            NativeOp::SequenceFactory { parent: parent_factory, factory },
            NativeOp::ResetScanner { factory },
        ] + reports_of(factory, *child, *context.children),
        _ => Seq::empty(),
    }
}

/// What the backend is told about the first `n` of `children`.
pub open spec fn reports_of_children<N, M>(
    factory: FactoryId,
    content: Seq<(String, MountView)>,
    children: Seq<(String, VNode<N, M>)>,
    n: nat,
) -> Seq<NativeOp<N>>
    decreases children, n,
{
    if n == 0 || n > children.len() {
        Seq::empty()
    } else {
        reports_of_children(factory, content, children, (n - 1) as nat) + reports_of(
            factory,
            content[slot_of(filled_slots(content), children[n - 1].0@)].1,
            children[n - 1].1,
        )
    }
}

/// The mount that stands in the place of `mount` after it was reconciled
/// with a node of its shape: the same elements, components and providers,
/// with the children of every fragment in the new order.
pub open spec fn rearranged_mount<N, M>(mount: MountView, vnode: VNode<N, M>) -> MountView
    decreases vnode,
{
    match (mount, vnode) {
        (MountView::Fragment { content, context_link, factory }, VNode::Fragment(children)) =>
            MountView::Fragment {
                content: rearranged_content(content, children@, children@.len()),
                context_link,
                factory,
            },
        (MountView::Context { node, child, factory }, VNode::Context(context)) =>
            MountView::Context {
                node,
                child: Box::new(rearranged_mount(*child, *context.children)),
                factory,
            },
        _ => mount,
    }
}

/// The first `n` children of a fragment in the new order.
pub open spec fn rearranged_content<N, M>(
    content: Seq<(String, MountView)>,
    children: Seq<(String, VNode<N, M>)>,
    n: nat,
) -> Seq<(String, MountView)>
    decreases children, n,
{
    if n == 0 || n > children.len() {
        Seq::empty()
    } else {
        rearranged_content(content, children, (n - 1) as nat).push(
            (
                children[n - 1].0,
                rearranged_mount(
                    content[slot_of(filled_slots(content), children[n - 1].0@)].1,
                    children[n - 1].1,
                ),
            ),
        )
    }
}

/// Whether `after` has every component of `before` with the hooks, the
/// content and the sibling list that it had and with a model of the type
/// that it had, and no other component; every provider with its parent, its
/// subscribers and a value of the type that it had, and no other provider;
/// the same native elements; and whether the host was told nothing and the
/// queue has only grown. A component that does not ask for a re-render in
/// `after` is as it was.
pub open spec fn keeps_shape<N, M: ComponentModel<N>>(before: World<N, M>, after: World<N, M>)
    -> bool {
    &&& after.components.len() == before.components.len()
    &&& after.natives == before.natives
    &&& after.commands == before.commands
    &&& after.round_limit == before.round_limit
    &&& before.dirty.is_prefix_of(after.dirty)
    &&& after.contexts.len() == before.contexts.len()
    &&& forall|node: int|
        0 <= node < before.contexts.len() ==> {
            &&& (#[trigger] after.contexts[node]).parent == before.contexts[node].parent
            &&& after.contexts[node].renderers == before.contexts[node].renderers
            &&& after.contexts[node].value.type_token == before.contexts[node].value.type_token
        }
    &&& forall|id: int|
        0 <= id < before.components.len() ==> match #[trigger] before.components[id] {
            Some(was) => {
                &&& after.components[id].is_some()
                &&& after.components[id].unwrap().scope.component_scope
                    == was.scope.component_scope
                &&& after.components[id].unwrap().content == was.content
                &&& after.components[id].unwrap().native_mount_factory
                    == was.native_mount_factory
                &&& after.components[id].unwrap().element.component_model.type_token_spec()
                    == was.element.component_model.type_token_spec()
                &&& (after.components[id].unwrap().scope.update_flag || after.components[id]
                    == Some(was))
            },
            None => after.components[id].is_none(),
        }
}

/// What keeps the shape twice keeps it.
pub proof fn lemma_keeps_shape_chain<N, M: ComponentModel<N>>(
    first: World<N, M>,
    second: World<N, M>,
    third: World<N, M>,
)
    requires
        keeps_shape(first, second),
        keeps_shape(second, third),
    ensures
        keeps_shape(first, third),
{
    assert(first.dirty.is_prefix_of(third.dirty)) by {
        assert(first.dirty =~= third.dirty.subrange(0, first.dirty.len() as int)) by {
            assert(first.dirty =~= second.dirty.subrange(0, first.dirty.len() as int));
            assert(second.dirty =~= third.dirty.subrange(0, second.dirty.len() as int));
        }
    }
    assert forall|node: int| 0 <= node < first.contexts.len() implies {
        &&& (#[trigger] third.contexts[node]).parent == first.contexts[node].parent
        &&& third.contexts[node].renderers == first.contexts[node].renderers
        &&& third.contexts[node].value.type_token == first.contexts[node].value.type_token
    } by {
        assert(second.contexts[node].parent == first.contexts[node].parent);
    }
    assert forall|id: int| 0 <= id < first.components.len() implies match #[trigger] first.components[id] {
        Some(was) => {
            &&& third.components[id].is_some()
            &&& third.components[id].unwrap().scope.component_scope == was.scope.component_scope
            &&& third.components[id].unwrap().content == was.content
            &&& third.components[id].unwrap().native_mount_factory == was.native_mount_factory
            &&& third.components[id].unwrap().element.component_model.type_token_spec()
                == was.element.component_model.type_token_spec()
            &&& (third.components[id].unwrap().scope.update_flag || third.components[id] == Some(
                was,
            ))
        },
        None => third.components[id].is_none(),
    } by {
        let middle = second.components[id];
    }
}

/// Marking renderers dirty keeps the shape and tells the backend nothing.
pub proof fn lemma_marked_all_keeps_shape<N, M: ComponentModel<N>>(
    world: World<N, M>,
    renderers: Seq<RendererId>,
    n: nat,
)
    ensures
        keeps_shape(world, world.marked_all(renderers, n)),
        world.marked_all(renderers, n).ops == world.ops,
        world.marked_all(renderers, n).contexts == world.contexts,
    decreases n,
{
    if n == 0 || n > renderers.len() {
        assert(world.dirty.is_prefix_of(world.dirty));
    } else {
        lemma_marked_all_keeps_shape(world, renderers, (n - 1) as nat);
        let before = world.marked_all(renderers, (n - 1) as nat);
        let after = before.marked(renderers[n - 1]);
        assert(before.dirty.is_prefix_of(after.dirty));
        assert(keeps_shape(before, after));
        lemma_keeps_shape_chain(world, before, after);
    }
}

/// A child among the first `n` finds its mount under its key and has its
/// shape.
pub proof fn lemma_child_fits<N, M: ComponentModel<N>>(
    world: World<N, M>,
    content: Seq<(String, MountView)>,
    children: Seq<(String, VNode<N, M>)>,
    n: nat,
    i: int,
)
    requires
        children_fit(world, content, children, n),
        n <= children.len(),
        0 <= i < n,
    ensures
        0 <= slot_of(filled_slots(content), children[i].0@) < content.len(),
        content[slot_of(filled_slots(content), children[i].0@)].0@ == children[i].0@,
        same_shape(
            world,
            content[slot_of(filled_slots(content), children[i].0@)].1,
            children[i].1,
        ),
    decreases n,
{
    if i < n - 1 {
        lemma_child_fits(world, content, children, (n - 1) as nat, i);
    } else {
        lemma_slot_of_in_range(filled_slots(content), children[i].0@);
    }
}

/// A node that has the shape of a mount has it in every runtime that keeps
/// the shape.
pub proof fn lemma_shape_stays<N, M: ComponentModel<N>>(
    world: World<N, M>,
    later: World<N, M>,
    mount: MountView,
    vnode: VNode<N, M>,
)
    requires
        keeps_shape(world, later),
        same_shape(world, mount, vnode),
    ensures
        same_shape(later, mount, vnode),
    decreases vnode,
{
    match (mount, vnode) {
        (MountView::Component(id), VNode::Component(element)) => {
            assert(world.components[id as int].is_some());
        },
        (MountView::Fragment { content, .. }, VNode::Fragment(children)) => {
            lemma_children_stay_fit(world, later, content, children@, children@.len());
        },
        (MountView::Context { node, child, .. }, VNode::Context(context)) => {
            assert(later.contexts[node as int].value.type_token
                == world.contexts[node as int].value.type_token);
            lemma_shape_stays(world, later, *child, *context.children);
        },
        _ => {},
    }
}

/// Children that fit do so in every runtime that keeps the shape.
pub proof fn lemma_children_stay_fit<N, M: ComponentModel<N>>(
    world: World<N, M>,
    later: World<N, M>,
    content: Seq<(String, MountView)>,
    children: Seq<(String, VNode<N, M>)>,
    n: nat,
)
    requires
        keeps_shape(world, later),
        children_fit(world, content, children, n),
    ensures
        children_fit(later, content, children, n),
    decreases children, n,
{
    if n == 0 || n > children.len() {
    } else {
        lemma_children_stay_fit(world, later, content, children, (n - 1) as nat);
        let at = slot_of(filled_slots(content), children[n - 1].0@);
        lemma_shape_stays(world, later, content[at].1, children[n - 1].1);
    }
}

/// The order in which the new children take the mounted ones: for each
/// child the position of the mount under its key.
pub open spec fn child_order<N, M>(
    content: Seq<(String, MountView)>,
    children: Seq<(String, VNode<N, M>)>,
) -> Seq<int> {
    Seq::new(children.len(), |i: int| slot_of(filled_slots(content), children[i].0@))
}

/// Children with keys of their own that all fit take every mounted child
/// once.
pub proof fn lemma_child_order_is_permutation<N, M: ComponentModel<N>>(
    world: World<N, M>,
    content: Seq<(String, MountView)>,
    children: Seq<(String, VNode<N, M>)>,
)
    requires
        children.len() == content.len(),
        forall|i: int, j: int|
            0 <= i < children.len() && 0 <= j < children.len() && i != j ==> (
            #[trigger] children[i]).0@ != (#[trigger] children[j]).0@,
        children_fit(world, content, children, children.len()),
    ensures
        is_permutation(child_order(content, children)),
{
    let order = child_order(content, children);
    assert forall|i: int| 0 <= i < order.len() implies 0 <= #[trigger] order[i] < order.len() by {
        lemma_child_fits(world, content, children, children.len(), i);
    }
    assert forall|i: int, j: int|
        0 <= i < order.len() && 0 <= j < order.len() && i != j implies #[trigger] order[i]
        != #[trigger] order[j] by {
        lemma_child_fits(world, content, children, children.len(), i);
        lemma_child_fits(world, content, children, children.len(), j);
        assert(children[i].0@ != children[j].0@);
    }
}

/// Reconciling a mount with a node of its shape keeps the mount, with the
/// children of its fragments in the new order, keeps every component with
/// its hooks and every provider with its subscribers, and tells the backend
/// only the reports.
pub proof fn lemma_updated_in_shape<N, M: ComponentModel<N>>(
    world: World<N, M>,
    mount: MountView,
    vnode: VNode<N, M>,
    parent_factory: FactoryId,
)
    requires
        same_shape(world, mount, vnode),
    ensures
        ({
            let (after, kept) = world.updated(mount, vnode, parent_factory);
            &&& kept == rearranged_mount(mount, vnode)
            &&& keeps_shape(world, after)
            &&& after.ops == world.ops + reports_of(parent_factory, mount, vnode)
        }),
    decreases vnode,
{
    let (after, kept) = world.updated(mount, vnode, parent_factory);
    assert(world.dirty.is_prefix_of(world.dirty));
    match (mount, vnode) {
        (MountView::Native(id), VNode::Native(node)) => {
            assert(after.ops =~= world.ops + reports_of(parent_factory, mount, vnode));
        },
        (MountView::Component(id), VNode::Component(element)) => {
            let placed = world.with_op(
                NativeOp::SequenceFactory {
                    parent: parent_factory,
                    factory: FactoryId::Component(id),
                },
            );
            assert(world.components[id as int].is_some());
            assert(after == placed.component_updated(id, element));
            assert(placed.ops =~= world.ops + reports_of(parent_factory, mount, vnode));
            assert(world.dirty.is_prefix_of(after.dirty));
        },
        (MountView::Fragment { content, context_link, factory }, VNode::Fragment(children)) => {
            let n = children@.len();
            lemma_reconciled_in_shape(world, content, children@, n, context_link, factory);
            let (matched, slots, fresh) = world.reconciled(
                filled_slots(content),
                children@,
                n,
                context_link,
                factory,
            );
            let order = child_order(content, children@);
            lemma_child_order_is_permutation(world, content, children@);
            assert forall|j: int| 0 <= j < slots.len() implies (#[trigger] slots[j]).1.is_none() by {
                lemma_permutation_is_onto(order, j);
            }
            lemma_swept_empty_slots(matched, slots, slots.len());
        },
        (MountView::Context { node, child, factory }, VNode::Context(context)) => {
            let placed = world.with_op(
                NativeOp::SequenceFactory { parent: parent_factory, factory },
            );
            let scanned = placed.with_op(NativeOp::ResetScanner { factory });
            let told = seq![
                NativeOp::SequenceFactory { parent: parent_factory, factory },
                NativeOp::ResetScanner { factory },
            ];
            assert(scanned.ops =~= world.ops + told);
            let stored = World {
                contexts: scanned.contexts.update(
                    node as int,
                    ContextNodeView { value: context.value, ..scanned.contexts[node as int] },
                ),
                ..scanned
            };
            let pushed = if compare_context(context.value, world.contexts[node as int])
                == NodeComparisonResult::Equal {
                scanned
            } else {
                stored.marked_all(
                    world.contexts[node as int].renderers,
                    world.contexts[node as int].renderers.len(),
                )
            };
            assert(keeps_shape(world, scanned));
            assert(keeps_shape(world, stored));
            lemma_marked_all_keeps_shape(
                stored,
                world.contexts[node as int].renderers,
                world.contexts[node as int].renderers.len(),
            );
            if pushed != scanned {
                lemma_keeps_shape_chain(world, stored, pushed);
            }
            assert(pushed.ops == scanned.ops);
            lemma_shape_stays(world, pushed, *child, *context.children);
            lemma_updated_in_shape(pushed, *child, *context.children, factory);
            let (below_world, below) = pushed.updated(*child, *context.children, factory);
            lemma_keeps_shape_chain(world, pushed, below_world);
            assert(after == below_world);
            assert(after.ops =~= world.ops + reports_of(parent_factory, mount, vnode));
        },
        _ => {},
    }
}

/// Matching the first `n` children of a fragment whose children all fit.
pub proof fn lemma_reconciled_in_shape<N, M: ComponentModel<N>>(
    world: World<N, M>,
    content: Seq<(String, MountView)>,
    children: Seq<(String, VNode<N, M>)>,
    n: nat,
    context_link: ContextLink,
    factory: FactoryId,
)
    requires
        children.len() == content.len(),
        forall|i: int, j: int|
            0 <= i < content.len() && 0 <= j < content.len() && i != j ==> (
            #[trigger] content[i]).0@ != (#[trigger] content[j]).0@,
        forall|i: int, j: int|
            0 <= i < children.len() && 0 <= j < children.len() && i != j ==> (
            #[trigger] children[i]).0@ != (#[trigger] children[j]).0@,
        children_fit(world, content, children, children.len()),
        n <= children.len(),
    ensures
        ({
            let (after, slots, fresh) = world.reconciled(
                filled_slots(content),
                children,
                n,
                context_link,
                factory,
            );
            &&& keeps_shape(world, after)
            &&& after.ops == world.ops + reports_of_children(factory, content, children, n)
            &&& slots == unmatched_slots(content, child_order(content, children), n)
            &&& fresh == rearranged_content(content, children, n)
        }),
    decreases children, n,
{
    let order = child_order(content, children);
    if n == 0 {
        assert(world.ops + reports_of_children(factory, content, children, 0) =~= world.ops);
        assert(unmatched_slots(content, order, 0) =~= filled_slots(content));
        assert(world.dirty.is_prefix_of(world.dirty));
    } else {
        lemma_reconciled_in_shape(world, content, children, (n - 1) as nat, context_link, factory);
        lemma_child_order_is_permutation(world, content, children);
        let (before, open, fresh) = world.reconciled(
            filled_slots(content),
            children,
            (n - 1) as nat,
            context_link,
            factory,
        );
        let key = children[n - 1].0;
        let at = order[n - 1];
        lemma_child_fits(world, content, children, children.len(), n - 1);
        lemma_next_slot(content, order, key@, n);
        let mount = content[at].1;
        let vnode = children[n - 1].1;
        lemma_shape_stays(world, before, mount, vnode);
        lemma_updated_in_shape(before, mount, vnode, factory);
        let (after, kept) = before.updated(mount, vnode, factory);
        lemma_keeps_shape_chain(world, before, after);
        assert(after.ops =~= world.ops + reports_of_children(factory, content, children, n));
    }
}

/// A mount is reconciled with a node of its shape: a fragment with the
/// same keys in any other order, at any depth, under providers and with
/// native elements and components of the mounted types. Every element,
/// component and provider keeps its identity, and the children of every
/// fragment stand in the new order; every component keeps its hooks and
/// what it mounted, and one that is not asked to render again is as it
/// was; every provider keeps its subscribers; nothing is mounted or torn
/// down, no cleanup is issued, and the backend is told only the reports on
/// what was reconciled, child by child in the new order.
pub proof fn law_rearrangement_keeps_mounts_in_depth<N, M: ComponentModel<N>>(
    world: World<N, M>,
    mount: MountView,
    vnode: VNode<N, M>,
    parent_factory: FactoryId,
)
    requires
        same_shape(world, mount, vnode),
    ensures
        ({
            let (after, kept) = world.updated(mount, vnode, parent_factory);
            &&& kept == rearranged_mount(mount, vnode)
            &&& keeps_shape(world, after)
            &&& after.ops == world.ops + reports_of(parent_factory, mount, vnode)
        }),
{
    lemma_updated_in_shape(world, mount, vnode, parent_factory);
}

/// Whether a request can be served goes by the shape of the scope alone;
/// a context also needs its provider to be there.
pub proof fn law_ready_goes_by_shape(
    scope: ComponentScopeView,
    contexts: Seq<ContextNodeView>,
    token: TypeToken,
)
    ensures
        scope.state_ready(token) <==> scope.shape().ready(HookRequest::State(token)),
        scope.ref_ready(token) <==> scope.shape().ready(HookRequest::Ref(token)),
        scope.effect_ready(token) <==> scope.shape().ready(HookRequest::Effect(Some(token))),
        scope.always_effect_ready() <==> scope.shape().ready(HookRequest::Effect(None)),
        scope.memo_ready(token) <==> scope.shape().ready(HookRequest::Memo(token)),
        scope.context_ready(contexts, token) ==> scope.shape().ready(HookRequest::Context(token)),
        scope.rewound().shape() == (HookShape {
            state_index: 0,
            ref_index: 0,
            context_index: 0,
            effect_index: 0,
            memo_index: 0,
            ..scope.shape()
        }),
{
    crate::scope::scope::lemma_same_shape(
        scope.rewound().shape(),
        HookShape {
            state_index: 0,
            ref_index: 0,
            context_index: 0,
            effect_index: 0,
            memo_index: 0,
            ..scope.shape()
        },
    );
}

/// Whether every list of hook types of `early` is the beginning of the
/// list of `late`.
pub open spec fn grown_from(late: HookShape, early: HookShape) -> bool {
    &&& early.states.is_prefix_of(late.states)
    &&& early.refs.is_prefix_of(late.refs)
    &&& early.contexts.is_prefix_of(late.contexts)
    &&& early.effects.is_prefix_of(late.effects)
    &&& early.memos.is_prefix_of(late.memos)
}

/// A first render only adds hooks: what the first requests stored is the
/// beginning of what all requests stored.
pub proof fn lemma_first_render_grows(requests: Seq<HookRequest>, i: nat, n: nat)
    requires
        i <= n <= requests.len(),
    ensures
        grown_from(
            HookShape::empty().served_all(requests, n),
            HookShape::empty().served_all(requests, i),
        ),
        !HookShape::empty().served_all(requests, n).has_init,
    decreases n,
{
    if n == 0 {
    } else if i == n {
        lemma_first_render_grows(requests, (n - 1) as nat, (n - 1) as nat);
    } else {
        lemma_first_render_grows(requests, i, (n - 1) as nat);
    }
}

/// A later render that asks for the hooks of the first render, in order,
/// changes no type, and has moved on in every list by as many hooks as the
/// first render had stored in it at the same point.
pub proof fn lemma_later_render_follows(requests: Seq<HookRequest>, i: nat)
    requires
        i <= requests.len(),
    ensures
        ({
            let first = HookShape::empty().served_all(requests, requests.len());
            let early = HookShape::empty().served_all(requests, i);
            let later = first.rendered().served_all(requests, i);
            &&& later.has_init
            &&& later.states == first.states
            &&& later.refs == first.refs
            &&& later.contexts == first.contexts
            &&& later.effects == first.effects
            &&& later.memos == first.memos
            &&& later.state_index == early.states.len()
            &&& later.ref_index == early.refs.len()
            &&& later.context_index == early.contexts.len()
            &&& later.effect_index == early.effects.len()
            &&& later.memo_index == early.memos.len()
        }),
    decreases i,
{
    if i > 0 {
        lemma_later_render_follows(requests, (i - 1) as nat);
        lemma_first_render_grows(requests, (i - 1) as nat, (i - 1) as nat);
    }
}

/// A component that asks for the same hooks, in the same order, on every
/// render is always served: whatever the hooks of its first render were,
/// every request of a later render that repeats them finds a hook of its
/// kind and type at its position.
pub proof fn law_same_hooks_are_served(requests: Seq<HookRequest>, i: nat)
    requires
        i < requests.len(),
    ensures
        HookShape::empty().served_all(requests, requests.len()).rendered().served_all(
            requests,
            i,
        ).ready(requests[i as int]),
{
    let first = HookShape::empty().served_all(requests, requests.len());
    let early = HookShape::empty().served_all(requests, i);
    let next = HookShape::empty().served_all(requests, i + 1);
    lemma_later_render_follows(requests, i);
    lemma_first_render_grows(requests, i, i);
    lemma_first_render_grows(requests, i + 1, requests.len());
    assert(next == early.served(requests[i as int]));
    match requests[i as int] {
        HookRequest::State(token) => {
            assert(next.states[early.states.len() as int] == token);
            assert(first.states.subrange(0, next.states.len() as int)[early.states.len() as int]
                == token);
        },
        HookRequest::Ref(token) => {
            assert(next.refs[early.refs.len() as int] == token);
            assert(first.refs.subrange(0, next.refs.len() as int)[early.refs.len() as int]
                == token);
        },
        HookRequest::Context(token) => {
            assert(next.contexts[early.contexts.len() as int] == token);
            assert(first.contexts.subrange(0, next.contexts.len() as int)[early.contexts.len() as int]
                == token);
        },
        HookRequest::Effect(token) => {
            assert(next.effects[early.effects.len() as int] == token);
            assert(first.effects.subrange(0, next.effects.len() as int)[early.effects.len() as int]
                == token);
        },
        HookRequest::Memo(token) => {
            assert(next.memos[early.memos.len() as int] == token);
            assert(first.memos.subrange(0, next.memos.len() as int)[early.memos.len() as int]
                == token);
        },
    }
}

/// One trigger, one render pass. A trigger finds the queue empty and
/// leaves the scope of its mounted renderer dirty, by however many writes;
/// the render of the renderer queues nothing. Then the flush renders that
/// renderer once and no other, and only after the render are the pending
/// effects of its scope handed to the host, and the queue is empty
/// afterwards.
pub proof fn law_one_trigger_one_render<N, M: ComponentModel<N>>(
    world: World<N, M>,
    renderer: RendererId,
    scope: ScopeView,
    step: RenderStep<N, M>,
)
    requires
        world.dirty.len() == 0,
        world.live(renderer),
        scope.update_flag,
        world.round_limit >= 1,
        (World { dirty: Seq::empty(), ..world.triggered(renderer, scope) }).renders(
            renderer,
            step,
        ),
        (World { dirty: Seq::empty(), ..world.triggered(renderer, scope) }).rerendered_with(
            renderer,
            step,
        ).dirty.len() == 0,
    ensures
        ({
            let triggered = world.triggered(renderer, scope);
            let rendered = (World { dirty: Seq::empty(), ..triggered }).rerendered_with(
                renderer,
                step,
            );
            &&& triggered.pass_rendered(world.round_limit as nat, seq![step]) == (
                rendered,
                1nat,
                seq![renderer],
                true,
            )
            &&& triggered.flushed(world.round_limit as nat, seq![step]) == rendered.effects_run(
                renderer,
            )
            &&& triggered.flushed(world.round_limit as nat, seq![step]).dirty.len() == 0
        }),
{
    let triggered = world.triggered(renderer, scope);
    let trace = seq![step];
    let start = World { dirty: Seq::empty(), ..triggered };
    let rendered = start.rerendered_with(renderer, step);
    assert(triggered.dirty =~= seq![renderer]);
    assert(triggered.dirty.drop_last() =~= Seq::<RendererId>::empty());
    assert(distinct(triggered.dirty.drop_last()) =~= Seq::<RendererId>::empty());
    assert(distinct(triggered.dirty) =~= seq![renderer]);
    let batch = distinct(triggered.dirty);
    assert(start.batch_rendered(batch, 0, trace, 0) == (start, 0nat, Seq::<RendererId>::empty(), true));
    assert(start.wants_render(renderer));
    assert(Seq::<RendererId>::empty().push(renderer) =~= seq![renderer]);
    assert(start.batch_rendered(batch, 1, trace, 0) == (rendered, 1nat, seq![renderer], true));
    assert(triggered.pass_rendered(0, trace) == (triggered, 0nat, Seq::<RendererId>::empty(), true));
    assert(Seq::<RendererId>::empty() + seq![renderer] =~= seq![renderer]);
    assert(triggered.pass_rendered(1, trace) == (rendered, 1nat, seq![renderer], true));
    lemma_pass_is_over_when_settled(triggered, 1, world.round_limit as nat, trace);
    assert(rendered.effects_run_all(seq![renderer], 0) == rendered);
    assert(rendered.effects_run_all(seq![renderer], 1) == rendered.effects_run(renderer));
    lemma_effects_keep_queue(rendered, seq![renderer], 1);
}

/// A trigger that finds renderers queued only queues: it makes its change
/// to the scope of its renderer and adds the renderer to the batch; nothing
/// is rendered, nothing is issued to the backend, no effect is handed to the
/// host, and no other component is touched. Effects are never interleaved
/// with the writes of a batch.
pub proof fn law_trigger_in_a_batch_only_queues<N, M: ComponentModel<N>>(
    world: World<N, M>,
    renderer: RendererId,
    scope: ScopeView,
    trace: Seq<RenderStep<N, M>>,
    after: World<N, M>,
)
    requires
        world.dirty.len() > 0,
        world.updates(renderer, scope, trace, after),
    ensures
        trace.len() == 0,
        after.dirty == world.dirty.push(renderer),
        after.ops == world.ops,
        after.commands == world.commands,
        after.contexts == world.contexts,
        after.natives == world.natives,
        after.components.len() == world.components.len(),
        forall|i: int|
            0 <= i < world.components.len() && i != renderer ==> after.components[i]
                == world.components[i],
        world.live(renderer) ==> after.components[renderer as int] == Some(
            ComponentView { scope, ..world.components[renderer as int].unwrap() },
        ),
{
}

/// A trigger that changes nothing renders nothing. The trigger finds the
/// queue empty and leaves the scope of its renderer not asking for a
/// re-render, as setters do that are given the stored values: then no
/// render function is called, nothing is issued to the backend or the
/// host, and the queue is empty again. The runtime is as it was but for
/// what the trigger left of the scope.
pub proof fn law_trigger_without_change_renders_nothing<N, M: ComponentModel<N>>(
    world: World<N, M>,
    renderer: RendererId,
    scope: ScopeView,
    trace: Seq<RenderStep<N, M>>,
    after: World<N, M>,
)
    requires
        world.dirty.len() == 0,
        world.round_limit >= 1,
        world.live(renderer) ==> !scope.update_flag,
        world.updates(renderer, scope, trace, after),
    ensures
        trace.len() == 0,
        after == (World { dirty: Seq::empty(), ..world.triggered(renderer, scope) }),
        world.live(renderer) && scope == world.components[renderer as int].unwrap().scope
            ==> after == world,
{
    let triggered = world.triggered(renderer, scope);
    let start = World { dirty: Seq::empty(), ..triggered };
    assert(triggered.dirty =~= seq![renderer]);
    assert(triggered.dirty.drop_last() =~= Seq::<RendererId>::empty());
    assert(distinct(triggered.dirty.drop_last()) =~= Seq::<RendererId>::empty());
    assert(distinct(triggered.dirty) =~= seq![renderer]);
    let batch = distinct(triggered.dirty);
    assert(start.batch_rendered(batch, 0, trace, 0) == (start, 0nat, Seq::<RendererId>::empty(), true));
    assert(!start.wants_render(renderer));
    assert(start.batch_rendered(batch, 1, trace, 0) == (start, 0nat, Seq::<RendererId>::empty(), true));
    assert(triggered.pass_rendered(0, trace) == (triggered, 0nat, Seq::<RendererId>::empty(), true));
    assert(Seq::<RendererId>::empty() + Seq::<RendererId>::empty()
        =~= Seq::<RendererId>::empty());
    assert(triggered.pass_rendered(1, trace) == (start, 0nat, Seq::<RendererId>::empty(), true));
    lemma_pass_is_over_when_settled(triggered, 1, world.round_limit as nat, trace);
    assert(start.effects_run_all(Seq::<RendererId>::empty(), 0) == start);
    if world.live(renderer) && scope == world.components[renderer as int].unwrap().scope {
        assert(start.components =~= world.components);
        assert(start.dirty =~= world.dirty);
    }
}

/// A flush leaves renderers queued only when it has used up its rounds:
/// every round that it was allowed then ended with renderers queued. So a
/// flush in which one round ends with an empty queue leaves the queue empty.
pub proof fn law_unsettled_flush_used_every_round<N, M: ComponentModel<N>>(
    world: World<N, M>,
    trace: Seq<RenderStep<N, M>>,
    after: World<N, M>,
    rounds: nat,
)
    requires
        world.flushes(trace, after),
        rounds <= world.round_limit,
    ensures
        after.dirty.len() > 0 ==> world.pass_rendered(rounds, trace).0.dirty.len() > 0,
{
    let limit = world.round_limit as nat;
    let (rendered, used, touched, fine) = world.pass_rendered(limit, trace);
    lemma_effects_keep_queue(rendered, touched, touched.len());
    if world.pass_rendered(rounds, trace).0.dirty.len() == 0 {
        lemma_pass_is_over_when_settled(world, rounds, limit, trace);
    }
}

} // verus!
