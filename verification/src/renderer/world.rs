//! The mathematical model of the runtime, and reconciliation as functions
//! on it. The executable code is proved to compute exactly these.

use vstd::prelude::*;
use crate::renderer::mount::MountView;
use crate::renderer::native::{FactoryId, NativeOp};
use crate::scope::context::{ContextId, ContextLink, ContextNodeView};
use crate::scope::effect::{EffectStore, EffectToken};
use crate::scope::renderer::RendererId;
use crate::scope::scope::{
    due_cleanups, unsubscribed_all, ComponentScopeView, HookListView, ScopeView,
};
use crate::v_node::component::{compare_models, ComponentModel, VComponentElement};
use crate::v_node::context::{compare_context, VContext};
use crate::v_node::node_comparison::NodeComparisonResult;
use crate::v_node::v_node::VNode;

verus! {

/// What the host has to run on behalf of an effect.
#[derive(Clone, Copy, PartialEq, Eq, Structural, Debug)]
pub enum EffectCommand {
    /// Run the cleanup body `cleanup`.
    Cleanup { cleanup: EffectToken },
    /// Run the effect body `effect` of hook `index` of `renderer`, and
    /// report the cleanup that it hands back.
    Run { renderer: RendererId, index: usize, effect: EffectToken },
}

/// The model of a mounted component.
pub struct ComponentView<N, M> {
    pub scope: ScopeView,
    pub element: VComponentElement<N, M>,
    pub content: Option<MountView>,
    pub native_mount_factory: FactoryId,
}

/// The model of the runtime: the components and providers by identifier,
/// the context links of the mounted natives, the updater, and what was
/// issued to the backend and to the host since they last collected.
pub struct World<N, M> {
    pub components: Seq<Option<ComponentView<N, M>>>,
    pub contexts: Seq<ContextNodeView>,
    pub natives: Seq<Option<ContextLink>>,
    pub dirty: Seq<RendererId>,
    pub ops: Seq<NativeOp<N>>,
    pub commands: Seq<EffectCommand>,
    /// How many rounds the render pass of a flush may take.
    pub round_limit: usize,
}

/// One call of a render function: the element whose render function was
/// called, the hooks and the providers that it was called on, and what it
/// left behind: the scope of the component, the providers, and the node
/// that came back.
pub struct RenderStep<N, M> {
    pub element: VComponentElement<N, M>,
    pub hooks: ComponentScopeView,
    pub providers: Seq<ContextNodeView>,
    pub scope: ScopeView,
    pub contexts: Seq<ContextNodeView>,
    pub node: VNode<N, M>,
}

/// A fragment's old children while the new ones are matched against them:
/// a child that was matched has left its slot.
pub type Slots = Seq<(String, Option<MountView>)>;

/// Every old child in its slot.
pub open spec fn filled_slots(content: Seq<(String, MountView)>) -> Slots {
    Seq::new(content.len(), |i: int| (content[i].0, Some(content[i].1)))
}

/// Whether `slot` holds a child under `key`.
pub open spec fn slot_matches(slot: (String, Option<MountView>), key: Seq<char>) -> bool {
    slot.0@ == key && slot.1.is_some()
}

/// The position of the first slot that holds a child under `key`, or the
/// number of slots.
pub open spec fn slot_of(slots: Slots, key: Seq<char>) -> int
    decreases slots.len(),
{
    if slots.len() == 0 {
        0
    } else if slot_matches(slots[0], key) {
        0
    } else {
        1 + slot_of(slots.drop_first(), key)
    }
}

/// `slot_of` is a position in the slots, or their number.
pub proof fn lemma_slot_of_in_range(slots: Slots, key: Seq<char>)
    ensures
        0 <= slot_of(slots, key) <= slots.len(),
        slot_of(slots, key) < slots.len() ==> slot_matches(slots[slot_of(slots, key)], key),
    decreases slots.len(),
{
    if slots.len() > 0 && !slot_matches(slots[0], key) {
        lemma_slot_of_in_range(slots.drop_first(), key);
    }
}

/// `slot_of` is where a scan from the front stops.
pub proof fn lemma_slot_of(slots: Slots, key: Seq<char>, i: int)
    requires
        0 <= i <= slots.len(),
        forall|j: int| 0 <= j < i ==> !slot_matches(slots[j], key),
        i < slots.len() ==> slot_matches(slots[i], key),
    ensures
        slot_of(slots, key) == i,
    decreases slots.len(),
{
    if slots.len() == 0 {
    } else if i == 0 {
    } else {
        let rest = slots.drop_first();
        assert forall|j: int| 0 <= j < i - 1 implies !slot_matches(rest[j], key) by {
            assert(rest[j] == slots[j + 1]);
        }
        assert(!slot_matches(slots[0], key));
        lemma_slot_of(rest, key, i - 1);
    }
}

/// The cleanup commands for `tokens`, in order.
pub open spec fn cleanup_commands(tokens: Seq<EffectToken>) -> Seq<EffectCommand> {
    Seq::new(tokens.len(), |i: int| EffectCommand::Cleanup { cleanup: tokens[i] })
}

/// An effect after it was handed to the host, if it was pending.
pub open spec fn executed_one(effect: EffectStore) -> EffectStore {
    if effect.pending_execution {
        EffectStore { cleanup: None, pending_execution: false, ..effect }
    } else {
        effect
    }
}

/// The effects after every pending one was handed to the host.
pub open spec fn executed(effects: Seq<EffectStore>) -> Seq<EffectStore> {
    Seq::new(effects.len(), |i: int| executed_one(effects[i]))
}

/// What the host has to run for the first `n` of `effects`, in hook order:
/// for every pending effect the cleanup of its last run, if one is due, and
/// then its body.
pub open spec fn run_commands(effects: Seq<EffectStore>, renderer: RendererId, n: nat) -> Seq<
    EffectCommand,
>
    decreases n,
{
    if n == 0 || n > effects.len() {
        Seq::empty()
    } else {
        let before = run_commands(effects, renderer, (n - 1) as nat);
        let effect = effects[n - 1];
        if !effect.pending_execution {
            before
        } else {
            let cleaned = match effect.cleanup {
                Some(cleanup) => before.push(EffectCommand::Cleanup { cleanup }),
                None => before,
            };
            cleaned.push(
                EffectCommand::Run {
                    renderer,
                    index: (n - 1) as usize,
                    effect: effect.effect,
                },
            )
        }
    }
}

impl<N, M: ComponentModel<N>> World<N, M> {
    /// The runtime before anything was mounted.
    pub open spec fn empty(round_limit: usize) -> World<N, M> {
        World {
            round_limit,
            components: Seq::empty(),
            contexts: Seq::empty(),
            natives: Seq::empty(),
            dirty: Seq::empty(),
            ops: Seq::empty(),
            commands: Seq::empty(),
        }
    }

    /// Whether `id` names a mounted component.
    pub open spec fn live(self, id: RendererId) -> bool {
        id < self.components.len() && self.components[id as int].is_some()
    }

    /// The runtime after `op` was issued to the backend.
    pub open spec fn with_op(self, op: NativeOp<N>) -> World<N, M> {
        World { ops: self.ops.push(op), ..self }
    }

    /// The runtime after `renderer` was marked dirty through the updater:
    /// it is queued, and its scope, if it is mounted, asks for a re-render.
    pub open spec fn marked(self, renderer: RendererId) -> World<N, M> {
        World {
            components: if self.live(renderer) {
                let component = self.components[renderer as int].unwrap();
                self.components.update(
                    renderer as int,
                    Some(
                        ComponentView {
                            scope: ScopeView { update_flag: true, ..component.scope },
                            ..component
                        },
                    ),
                )
            } else {
                self.components
            },
            dirty: self.dirty.push(renderer),
            ..self
        }
    }

    /// The runtime after the first `n` of `renderers` were marked dirty, in
    /// order.
    pub open spec fn marked_all(self, renderers: Seq<RendererId>, n: nat) -> World<N, M>
        decreases n,
    {
        if n == 0 || n > renderers.len() {
            self
        } else {
            self.marked_all(renderers, (n - 1) as nat).marked(renderers[n - 1])
        }
    }

    /// The context link under which `mount` stands: that of its nearest
    /// provider above.
    pub open spec fn context_link_of(self, mount: MountView) -> ContextLink {
        match mount {
            MountView::Native(id) => if id < self.natives.len() {
                match self.natives[id as int] {
                    Some(link) => link,
                    None => None,
                }
            } else {
                None
            },
            MountView::Fragment { context_link, .. } => context_link,
            MountView::Component(id) => if self.live(id) {
                self.components[id as int].unwrap().scope.component_scope.context_link
            } else {
                None
            },
            MountView::Context { node, .. } => if node < self.contexts.len() {
                self.contexts[node as int].parent
            } else {
                None
            },
        }
    }

    /// Mounting `vnode` afresh under `context_link`, into the sibling list
    /// `factory`: the runtime afterwards and the new mount. A component is
    /// set up with an empty scope, marked dirty and queued; its first render
    /// is the flush's to make.
    pub open spec fn mounted(self, vnode: VNode<N, M>, context_link: ContextLink, factory: FactoryId)
        -> (World<N, M>, MountView)
        decreases vnode,
    {
        match vnode {
            VNode::Native(node) => {
                let id = self.natives.len() as usize;
                (
                    World {
                        natives: self.natives.push(Some(context_link)),
                        ..self.with_op(
                            NativeOp::MakeNative { factory, mount: id, node, context_link },
                        )
                    },
                    MountView::Native(id),
                )
            },
            VNode::Component(element) => {
                let id = self.components.len() as usize;
                let component = ComponentView {
                    scope: ScopeView {
                        update_flag: true,
                        component_scope: ComponentScopeView::fresh(id, context_link),
                    },
                    element,
                    content: None,
                    native_mount_factory: factory,
                };
                (
                    World {
                        components: self.components.push(Some(component)),
                        dirty: self.dirty.push(id),
                        ..self.with_op(
                            NativeOp::MakeFactory {
                                parent: factory,
                                factory: FactoryId::Component(id),
                            },
                        )
                    },
                    MountView::Component(id),
                )
            },
            VNode::Fragment(children) => {
                let (world, content) = self.mounted_children(
                    children@,
                    children@.len(),
                    context_link,
                    factory,
                );
                (world, MountView::Fragment { content, context_link, factory })
            },
            VNode::Context(context) => {
                let node = self.contexts.len() as usize;
                let own = FactoryId::Context(node);
                let before = World {
                    contexts: self.contexts.push(
                        ContextNodeView {
                            parent: context_link,
                            value: context.value,
                            renderers: Seq::empty(),
                        },
                    ),
                    ..self.with_op(NativeOp::MakeFactory { parent: factory, factory: own })
                };
                let (world, child) = before.mounted(*context.children, Some(node), own);
                (world, MountView::Context { node, child: Box::new(child), factory: own })
            },
        }
    }

    /// Mounting the first `n` of `children` afresh, in order.
    pub open spec fn mounted_children(
        self,
        children: Seq<(String, VNode<N, M>)>,
        n: nat,
        context_link: ContextLink,
        factory: FactoryId,
    ) -> (World<N, M>, Seq<(String, MountView)>)
        decreases children, n,
    {
        if n == 0 || n > children.len() {
            (self, Seq::empty())
        } else {
            let (before, content) = self.mounted_children(
                children,
                (n - 1) as nat,
                context_link,
                factory,
            );
            let (world, mount) = before.mounted(children[n - 1].1, context_link, factory);
            (world, content.push((children[n - 1].0, mount)))
        }
    }

    /// The runtime after the scope of an unmounted component ended its
    /// life: the cleanups that were due are issued, in hook order, and the
    /// renderer's context subscriptions are ended.
    pub open spec fn scope_ended(self, scope: ScopeView) -> World<N, M> {
        World {
            commands: self.commands + cleanup_commands(
                due_cleanups(scope.component_scope.effect_hooks.hooks),
            ),
            contexts: unsubscribed_all(
                self.contexts,
                scope.component_scope.context_hooks.hooks,
                scope.component_scope.renderer,
                scope.component_scope.context_hooks.hooks.len(),
            ),
            ..self
        }
    }

    /// Tearing down `mount` and everything below it. Children go before
    /// their parent. A component leaves its slot, its content is torn down,
    /// its sibling list is closed and its scope ends. A provider's sibling
    /// list is closed, what is below is torn down, and its subscriptions are
    /// discarded. Components are looked up between `floor` and `limit`:
    /// what a component renders always has a larger identifier than the
    /// component itself.
    pub open spec fn unmounted(self, mount: MountView, floor: nat, limit: nat) -> World<N, M>
        decreases limit - floor, mount,
    {
        match mount {
            MountView::Native(id) => World {
                natives: if id < self.natives.len() {
                    self.natives.update(id as int, None)
                } else {
                    self.natives
                },
                ..self.with_op(NativeOp::UnmountNative { mount: id })
            },
            MountView::Component(id) => if floor <= id < limit && self.live(id) {
                let component = self.components[id as int].unwrap();
                let taken = World { components: self.components.update(id as int, None), ..self };
                let below = match component.content {
                    Some(content) => taken.unmounted(content, (id + 1) as nat, limit),
                    None => taken,
                };
                below.with_op(
                    NativeOp::UnmountFactory { factory: FactoryId::Component(id) },
                ).scope_ended(component.scope)
            } else {
                self
            },
            MountView::Fragment { content, .. } => self.unmounted_children(
                content,
                content.len(),
                floor,
                limit,
            ),
            MountView::Context { node, child, factory } => {
                let below = self.with_op(NativeOp::UnmountFactory { factory }).unmounted(
                    *child,
                    floor,
                    limit,
                );
                World {
                    contexts: if node < below.contexts.len() {
                        below.contexts.update(
                            node as int,
                            ContextNodeView {
                                renderers: Seq::empty(),
                                ..below.contexts[node as int]
                            },
                        )
                    } else {
                        below.contexts
                    },
                    ..below
                }
            },
        }
    }

    /// Tearing down the first `n` of `children`, in order.
    pub open spec fn unmounted_children(
        self,
        children: Seq<(String, MountView)>,
        n: nat,
        floor: nat,
        limit: nat,
    ) -> World<N, M>
        decreases limit - floor, children, n,
    {
        if n == 0 || n > children.len() {
            self
        } else {
            self.unmounted_children(children, (n - 1) as nat, floor, limit).unmounted(
                children[n - 1].1,
                floor,
                limit,
            )
        }
    }

    /// Tearing down a whole mount: every component is in reach.
    pub open spec fn torn_down(self, mount: MountView) -> World<N, M> {
        self.unmounted(mount, 0, self.components.len())
    }

    /// The runtime with a new component for `element` in a slot of its own,
    /// with an empty scope and its sibling list opened in `factory`. The
    /// component has not rendered and does not ask for it.
    pub open spec fn component_created(
        self,
        element: VComponentElement<N, M>,
        context_link: ContextLink,
        factory: FactoryId,
    ) -> World<N, M> {
        let id = self.components.len() as usize;
        World {
            components: self.components.push(
                Some(
                    ComponentView {
                        scope: ScopeView::fresh(id, context_link),
                        element,
                        content: None,
                        native_mount_factory: factory,
                    },
                ),
            ),
            ..self.with_op(
                NativeOp::MakeFactory { parent: factory, factory: FactoryId::Component(id) },
            )
        }
    }

    /// Whether the mounted component `id` has to render when it is given
    /// `element`: the model is not equal to the one on record.
    pub open spec fn needs_render(self, id: RendererId, element: VComponentElement<N, M>) -> bool {
        self.live(id) && compare_models::<N, M>(
            element.component_model,
            self.components[id as int].unwrap().element.component_model,
        ) != NodeComparisonResult::Equal
    }

    /// The runtime with the new `element` on record for the mounted
    /// component `id`. An equal model of the same type changes nothing.
    /// Another model of the same type replaces the one on record; the hooks
    /// and the content stay. Another type clears the component: its content
    /// is torn down, its scope ends and is cleared.
    pub open spec fn component_recorded(self, id: RendererId, element: VComponentElement<N, M>)
        -> World<N, M> {
        if !self.live(id) {
            self
        } else {
            let component = self.components[id as int].unwrap();
            match compare_models::<N, M>(
                element.component_model,
                component.element.component_model,
            ) {
                NodeComparisonResult::Equal => self,
                NodeComparisonResult::SameType => World {
                    components: self.components.update(
                        id as int,
                        Some(ComponentView { element, ..component }),
                    ),
                    ..self
                },
                NodeComparisonResult::DifferentType => {
                    let taken = World {
                        components: self.components.update(id as int, None),
                        ..self
                    };
                    let below = match component.content {
                        Some(content) => taken.unmounted(
                            content,
                            (id + 1) as nat,
                            taken.components.len(),
                        ),
                        None => taken,
                    };
                    let ended = below.scope_ended(component.scope);
                    World {
                        components: ended.components.update(
                            id as int,
                            Some(
                                ComponentView {
                                    scope: ScopeView {
                                        component_scope: component.scope.component_scope.cleared(),
                                        ..component.scope
                                    },
                                    element,
                                    content: None,
                                    native_mount_factory: component.native_mount_factory,
                                },
                            ),
                        ),
                        ..ended
                    }
                },
            }
        }
    }

    /// The runtime after the mounted component `id` was given the new
    /// `element` while a tree is reconciled: the element is put on record,
    /// and a component that has to render is marked dirty and queued, for
    /// the flush to render.
    /// An equal model of the same type changes nothing at all:
    /// the element on record, the hooks and the content stay, and nothing is
    /// queued. Another model of the same type is put on record and the
    /// component is marked dirty; its hooks stay. Another type clears the
    /// component: its content is torn down, its scope ends and is cleared,
    /// and it is marked dirty with the new element on record.
    pub open spec fn component_updated(self, id: RendererId, element: VComponentElement<N, M>)
        -> World<N, M> {
        if !self.live(id) {
            self
        } else {
            let component = self.components[id as int].unwrap();
            match compare_models::<N, M>(
                element.component_model,
                component.element.component_model,
            ) {
                NodeComparisonResult::Equal => self,
                NodeComparisonResult::SameType => World {
                    components: self.components.update(
                        id as int,
                        Some(ComponentView { element, ..component }),
                    ),
                    ..self
                }.marked(id),
                NodeComparisonResult::DifferentType => {
                    let taken = World {
                        components: self.components.update(id as int, None),
                        ..self
                    };
                    let below = match component.content {
                        Some(content) => taken.unmounted(
                            content,
                            (id + 1) as nat,
                            taken.components.len(),
                        ),
                        None => taken,
                    };
                    let ended = below.scope_ended(component.scope);
                    World {
                        components: ended.components.update(
                            id as int,
                            Some(
                                ComponentView {
                                    scope: ScopeView {
                                        component_scope: component.scope.component_scope.cleared(),
                                        ..component.scope
                                    },
                                    element,
                                    content: None,
                                    native_mount_factory: component.native_mount_factory,
                                },
                            ),
                        ),
                        ..ended
                    }.marked(id)
                },
            }
        }
    }

    /// Reconciling `mount` with the newly rendered `vnode` in the sibling
    /// list `parent_factory`: the runtime afterwards and the mount that
    /// stands in its place. A pair of the same kind is updated in place; any
    /// other pair is torn down and mounted anew under the same context link.
    pub open spec fn updated(self, mount: MountView, vnode: VNode<N, M>, parent_factory: FactoryId)
        -> (World<N, M>, MountView)
        decreases vnode,
    {
        match (mount, vnode) {
            (MountView::Native(id), VNode::Native(node)) => (
                self.with_op(
                    NativeOp::UpdateNative { factory: parent_factory, mount: id, node },
                ).with_op(NativeOp::SequenceNative { factory: parent_factory, mount: id }),
                mount,
            ),
            (MountView::Component(id), VNode::Component(element)) => (
                self.with_op(
                    NativeOp::SequenceFactory {
                        parent: parent_factory,
                        factory: FactoryId::Component(id),
                    },
                ).component_updated(id, element),
                mount,
            ),
            (MountView::Fragment { content, context_link, factory }, VNode::Fragment(children)) =>
                self.fragment_updated(content, context_link, factory, children@),
            (MountView::Context { node, child, factory }, VNode::Context(context)) =>
                self.context_updated(node, *child, factory, context, parent_factory),
            _ => self.torn_down(mount).mounted(vnode, self.context_link_of(mount), parent_factory),
        }
    }

    /// Reconciling a fragment with its newly rendered `children`, by key
    /// and whatever the position: a child whose key was there before keeps
    /// its mount, which is updated; a child with a new key is mounted
    /// afresh; what is left of the old children is torn down. The content
    /// stands in the new order.
    pub open spec fn fragment_updated(
        self,
        content: Seq<(String, MountView)>,
        context_link: ContextLink,
        factory: FactoryId,
        children: Seq<(String, VNode<N, M>)>,
    ) -> (World<N, M>, MountView)
        decreases children, children.len() + 1,
    {
        let (world, slots, fresh) = self.reconciled(
            filled_slots(content),
            children,
            children.len(),
            context_link,
            factory,
        );
        (
            world.swept(slots, slots.len()),
            MountView::Fragment { content: fresh, context_link, factory },
        )
    }

    /// Reconciling the provider `node` with a newly rendered context. The
    /// type of the value decides whether the provider stays. An equal value
    /// changes nothing at the node. Another value of the same type is stored
    /// in place and every subscriber is marked dirty, in the order of the
    /// subscriptions. In both cases what is below is reconciled with the new
    /// children under the same node. A value of another type tears the
    /// provider down with everything below it and mounts the context anew,
    /// below the same parent and without subscribers.
    pub open spec fn context_updated(
        self,
        node: ContextId,
        child: MountView,
        factory: FactoryId,
        context: VContext<N, M>,
        parent_factory: FactoryId,
    ) -> (World<N, M>, MountView)
        decreases context,
    {
        let mount = MountView::Context { node, child: Box::new(child), factory };
        let placed = self.with_op(NativeOp::SequenceFactory { parent: parent_factory, factory });
        if node < self.contexts.len() && compare_context(context.value, self.contexts[node as int])
            != NodeComparisonResult::DifferentType {
            let scanned = placed.with_op(NativeOp::ResetScanner { factory });
            let pushed = if compare_context(context.value, self.contexts[node as int])
                == NodeComparisonResult::Equal {
                scanned
            } else {
                World {
                    contexts: scanned.contexts.update(
                        node as int,
                        ContextNodeView { value: context.value, ..scanned.contexts[node as int] },
                    ),
                    ..scanned
                }.marked_all(
                    self.contexts[node as int].renderers,
                    self.contexts[node as int].renderers.len(),
                )
            };
            let (world, below) = pushed.updated(child, *context.children, factory);
            (world, MountView::Context { node, child: Box::new(below), factory })
        } else {
            placed.torn_down(mount).mounted(
                VNode::Context(context),
                placed.context_link_of(mount),
                parent_factory,
            )
        }
    }

    /// The runtime after the component `id`, which was taken out of its
    /// slot to render, is put back with what its render produced: the
    /// content of the last render is reconciled with `node`, or `node` is
    /// mounted afresh if there was none, in the component's own sibling
    /// list.
    pub open spec fn committed(self, id: RendererId, component: ComponentView<N, M>, node: VNode<N, M>)
        -> World<N, M> {
        let own = FactoryId::Component(id);
        let (world, content) = match component.content {
            Some(mount) => self.updated(mount, node, own),
            None => self.mounted(node, component.scope.component_scope.context_link, own),
        };
        World {
            components: world.components.update(
                id as int,
                Some(ComponentView { content: Some(content), ..component }),
            ),
            ..world
        }
    }

    /// The runtime at the moment when the render function of the mounted
    /// component `id` has returned: the component is out of its slot, its
    /// sibling list was told to scan from the start, and the providers are
    /// what the render function left of them.
    pub open spec fn rendering(self, id: RendererId, contexts: Seq<ContextNodeView>) -> World<N, M> {
        World {
            components: self.components.update(id as int, None),
            contexts,
            ..self.with_op(NativeOp::ResetScanner { factory: FactoryId::Component(id) })
        }
    }

    /// Whether the component `renderer` is mounted and asks for a re-render.
    pub open spec fn wants_render(self, renderer: RendererId) -> bool {
        self.live(renderer) && self.components[renderer as int].unwrap().scope.update_flag
    }

    /// The runtime after a re-render of the mounted component `id` in which
    /// the render function left behind what `step` says: what the component
    /// mounted is reconciled with the node that came back.
    pub open spec fn rerendered_with(self, id: RendererId, step: RenderStep<N, M>) -> World<N, M> {
        self.rendering(id, step.contexts).committed(
            id,
            ComponentView { scope: step.scope, ..self.components[id as int].unwrap() },
            step.node,
        )
    }

    /// Whether `step` is what a render function can leave behind: the
    /// scope has rendered and no longer asks for a re-render.
    pub open spec fn rendered_step(step: RenderStep<N, M>) -> bool {
        !step.scope.update_flag && step.scope.component_scope.has_init
    }

    /// Whether `step` is a render of the mounted component `id` as it
    /// stands: the render function of its element was called, on its hooks
    /// and on the providers of this runtime.
    pub open spec fn renders(self, id: RendererId, step: RenderStep<N, M>) -> bool {
        &&& self.live(id)
        &&& step.element == self.components[id as int].unwrap().element
        &&& step.hooks == self.components[id as int].unwrap().scope.component_scope
        &&& step.providers == self.contexts
        &&& Self::rendered_step(step)
    }

    /// Working through the first `n` renderers of a batch, in order: a
    /// renderer that is mounted and still asks for it is re-rendered, and
    /// what its render function left behind is the next step of `trace`,
    /// counted from `from`; any other renderer is passed over. The result is
    /// the runtime, the number of steps of the trace that are used up, the
    /// renderers that rendered, and whether every step that was used is a
    /// render of its renderer as the renderer stood.
    pub open spec fn batch_rendered(
        self,
        batch: Seq<RendererId>,
        n: nat,
        trace: Seq<RenderStep<N, M>>,
        from: nat,
    ) -> (World<N, M>, nat, Seq<RendererId>, bool)
        decreases n,
    {
        if n == 0 || n > batch.len() {
            (self, from, Seq::empty(), true)
        } else {
            let (before, used, touched, fine) = self.batch_rendered(
                batch,
                (n - 1) as nat,
                trace,
                from,
            );
            let renderer = batch[n - 1];
            if before.wants_render(renderer) {
                (
                    before.rerendered_with(renderer, trace[used as int]),
                    used + 1,
                    touched.push(renderer),
                    fine && before.renders(renderer, trace[used as int]),
                )
            } else {
                (before, used, touched, fine)
            }
        }
    }

    /// The render pass of a flush, `rounds` rounds long: while renderers are
    /// queued, the queue is emptied into a batch that holds every queued
    /// renderer once, in the order of its first mark, and the batch is
    /// worked through; what the renders of a round mark dirty is the batch of
    /// the next round. The result is the runtime, the number of steps of
    /// `trace` that are used up, the renderers that rendered, in order, and
    /// whether every step that was used is a render of its renderer as the
    /// renderer stood.
    pub open spec fn pass_rendered(self, rounds: nat, trace: Seq<RenderStep<N, M>>) -> (
        World<N, M>,
        nat,
        Seq<RendererId>,
        bool,
    )
        decreases rounds,
    {
        if rounds == 0 {
            (self, 0, Seq::empty(), true)
        } else {
            let (before, used, touched, fine) = self.pass_rendered((rounds - 1) as nat, trace);
            if before.dirty.len() == 0 {
                (before, used, touched, fine)
            } else {
                let batch = crate::scope::updater::distinct(before.dirty);
                let (after, next, rendered, right) = World {
                    dirty: Seq::empty(),
                    ..before
                }.batch_rendered(batch, batch.len(), trace, used);
                (after, next, touched + rendered, fine && right)
            }
        }
    }

    /// Whether `after` and `touched` are what the render pass makes of the
    /// runtime when `trace` holds the renders of the pass, in order: every
    /// step is a render of its renderer as the renderer stood when its
    /// turn came.
    pub open spec fn passes(
        self,
        trace: Seq<RenderStep<N, M>>,
        after: World<N, M>,
        touched: Seq<RendererId>,
    ) -> bool {
        self.pass_rendered(self.round_limit as nat, trace) == (after, trace.len(), touched, true)
    }

    /// Whether `after` is what a flush makes of the runtime when `trace`
    /// holds the renders of the flush, in order.
    pub open spec fn flushes(self, trace: Seq<RenderStep<N, M>>, after: World<N, M>) -> bool {
        &&& self.pass_rendered(self.round_limit as nat, trace).1 == trace.len()
        &&& self.pass_rendered(self.round_limit as nat, trace).3
        &&& self.flushed(self.round_limit as nat, trace) == after
    }

    /// Whether the render pass of a flush settles: one of the rounds that it
    /// is allowed ends with no renderer queued.
    pub open spec fn settles(self, trace: Seq<RenderStep<N, M>>) -> bool {
        exists|rounds: nat|
            rounds <= self.round_limit && (#[trigger] self.pass_rendered(
                rounds,
                trace,
            )).0.dirty.len() == 0
    }

    /// Whether `after` is what a trigger on `renderer` makes of the runtime
    /// when the trigger leaves `scope` behind and the render functions of
    /// the flush, if the trigger is the outermost, leave behind what `trace`
    /// says. A trigger that finds renderers queued only queues: it runs no
    /// render and hands no effect to the host.
    pub open spec fn updates(
        self,
        renderer: RendererId,
        scope: ScopeView,
        trace: Seq<RenderStep<N, M>>,
        after: World<N, M>,
    ) -> bool {
        if self.dirty.len() == 0 {
            self.triggered(renderer, scope).flushes(trace, after)
        } else {
            trace.len() == 0 && after == self.triggered(renderer, scope)
        }
    }

    /// Whether the queue is empty after a trigger on `renderer` that leaves
    /// `scope` behind: the trigger is the outermost, and the render pass of
    /// its flush settles.
    pub open spec fn trigger_settles(
        self,
        renderer: RendererId,
        scope: ScopeView,
        trace: Seq<RenderStep<N, M>>,
    ) -> bool {
        self.dirty.len() == 0 && self.triggered(renderer, scope).settles(trace)
    }

    /// One flush: the render pass, and after it the pending effects of
    /// every renderer that rendered are handed to the host, in the order of
    /// the renders.
    pub open spec fn flushed(self, rounds: nat, trace: Seq<RenderStep<N, M>>) -> World<N, M> {
        let (rendered, used, touched, fine) = self.pass_rendered(rounds, trace);
        rendered.effects_run_all(touched, touched.len())
    }

    /// The runtime after a trigger on `renderer` made its change: the
    /// renderer is queued, and its scope, if it is mounted, is what the
    /// trigger left of it.
    pub open spec fn triggered(self, renderer: RendererId, scope: ScopeView) -> World<N, M> {
        World {
            components: if self.live(renderer) {
                self.components.update(
                    renderer as int,
                    Some(ComponentView { scope, ..self.components[renderer as int].unwrap() }),
                )
            } else {
                self.components
            },
            dirty: self.dirty.push(renderer),
            ..self
        }
    }

    /// The runtime after the pending effects of `renderer` were handed to
    /// the host, in hook order: none of them is pending any more, and the
    /// cleanups that were due have left the record.
    pub open spec fn effects_run(self, renderer: RendererId) -> World<N, M> {
        if !self.live(renderer) {
            self
        } else {
            let component = self.components[renderer as int].unwrap();
            let hooks = component.scope.component_scope.effect_hooks.hooks;
            World {
                components: self.components.update(
                    renderer as int,
                    Some(
                        ComponentView {
                            scope: ScopeView {
                                component_scope: ComponentScopeView {
                                    effect_hooks: HookListView {
                                        hooks: executed(hooks),
                                        ..component.scope.component_scope.effect_hooks
                                    },
                                    ..component.scope.component_scope
                                },
                                ..component.scope
                            },
                            ..component
                        },
                    ),
                ),
                commands: self.commands + run_commands(hooks, renderer, hooks.len()),
                ..self
            }
        }
    }

    /// The runtime after the host reported that the body of effect `index`
    /// of `renderer` handed back `cleanup`. A report on an effect that is
    /// not there changes nothing.
    pub open spec fn cleanup_kept(self, renderer: RendererId, index: usize, cleanup: Option<EffectToken>)
        -> World<N, M> {
        if self.live(renderer) && index
            < self.components[renderer as int].unwrap().scope.component_scope.effect_hooks.hooks.len() {
            let component = self.components[renderer as int].unwrap();
            let hooks = component.scope.component_scope.effect_hooks.hooks;
            World {
                components: self.components.update(
                    renderer as int,
                    Some(
                        ComponentView {
                            scope: ScopeView {
                                component_scope: ComponentScopeView {
                                    effect_hooks: HookListView {
                                        hooks: hooks.update(
                                            index as int,
                                            EffectStore { cleanup, ..hooks[index as int] },
                                        ),
                                        ..component.scope.component_scope.effect_hooks
                                    },
                                    ..component.scope.component_scope
                                },
                                ..component.scope
                            },
                            ..component
                        },
                    ),
                ),
                ..self
            }
        } else {
            self
        }
    }

    /// The runtime after the pending effects of the first `n` of
    /// `renderers` were handed to the host, in order.
    pub open spec fn effects_run_all(self, renderers: Seq<RendererId>, n: nat) -> World<N, M>
        decreases n,
    {
        if n == 0 || n > renderers.len() {
            self
        } else {
            self.effects_run_all(renderers, (n - 1) as nat).effects_run(renderers[n - 1])
        }
    }

    /// Matching the first `n` of a fragment's new `children` against the old
    /// ones by key, in order: a child whose key is in a slot takes the mount
    /// out of it and updates it; any other is mounted afresh. The result is
    /// the runtime, the slots that were not matched, and the new content in
    /// the new order.
    pub open spec fn reconciled(
        self,
        slots: Slots,
        children: Seq<(String, VNode<N, M>)>,
        n: nat,
        context_link: ContextLink,
        factory: FactoryId,
    ) -> (World<N, M>, Slots, Seq<(String, MountView)>)
        decreases children, n,
    {
        if n == 0 || n > children.len() {
            (self, slots, Seq::empty())
        } else {
            let (before, open, content) = self.reconciled(
                slots,
                children,
                (n - 1) as nat,
                context_link,
                factory,
            );
            let key = children[n - 1].0;
            let at = slot_of(open, key@);
            if at < open.len() {
                let (world, mount) = before.updated(open[at].1.unwrap(), children[n - 1].1, factory);
                (world, open.update(at, (open[at].0, None)), content.push((key, mount)))
            } else {
                let (world, mount) = before.mounted(children[n - 1].1, context_link, factory);
                (world, open, content.push((key, mount)))
            }
        }
    }

    /// Tearing down what is left in the first `n` of `slots`, in order.
    pub open spec fn swept(self, slots: Slots, n: nat) -> World<N, M>
        decreases n,
    {
        if n == 0 || n > slots.len() {
            self
        } else {
            let before = self.swept(slots, (n - 1) as nat);
            match slots[n - 1].1 {
                Some(mount) => before.torn_down(mount),
                None => before,
            }
        }
    }
}

/// Whether `longer` begins with `trace`.
pub open spec fn extends<N, M>(longer: Seq<RenderStep<N, M>>, trace: Seq<RenderStep<N, M>>) -> bool {
    trace.len() <= longer.len() && forall|i: int|
        0 <= i < trace.len() ==> #[trigger] longer[i] == trace[i]
}

/// A batch uses the steps of the trace in order, and is the same for every
/// trace that begins with the steps it uses.
pub proof fn lemma_batch_ignores_later_steps<N, M: ComponentModel<N>>(
    world: World<N, M>,
    batch: Seq<RendererId>,
    n: nat,
    trace: Seq<RenderStep<N, M>>,
    longer: Seq<RenderStep<N, M>>,
    from: nat,
)
    requires
        extends(longer, trace),
        world.batch_rendered(batch, n, trace, from).1 <= trace.len(),
    ensures
        world.batch_rendered(batch, n, longer, from) == world.batch_rendered(batch, n, trace, from),
        world.batch_rendered(batch, n, trace, from).1 >= from,
    decreases n,
{
    if n == 0 || n > batch.len() {
    } else {
        lemma_batch_uses_steps_in_order(world, batch, (n - 1) as nat, trace, from);
        lemma_batch_ignores_later_steps(world, batch, (n - 1) as nat, trace, longer, from);
    }
}

/// A batch never goes back in the trace.
pub proof fn lemma_batch_uses_steps_in_order<N, M: ComponentModel<N>>(
    world: World<N, M>,
    batch: Seq<RendererId>,
    n: nat,
    trace: Seq<RenderStep<N, M>>,
    from: nat,
)
    ensures
        world.batch_rendered(batch, n, trace, from).1 >= from,
        n > 0 && n <= batch.len() ==> world.batch_rendered(batch, n, trace, from).1
            >= world.batch_rendered(batch, (n - 1) as nat, trace, from).1,
    decreases n,
{
    if n == 0 || n > batch.len() {
    } else {
        lemma_batch_uses_steps_in_order(world, batch, (n - 1) as nat, trace, from);
    }
}

/// A render pass never goes back in the trace.
pub proof fn lemma_pass_uses_steps_in_order<N, M: ComponentModel<N>>(
    world: World<N, M>,
    rounds: nat,
    trace: Seq<RenderStep<N, M>>,
)
    ensures
        rounds > 0 ==> world.pass_rendered(rounds, trace).1 >= world.pass_rendered(
            (rounds - 1) as nat,
            trace,
        ).1,
    decreases rounds,
{
    if rounds > 0 {
        let (before, used, touched, fine) = world.pass_rendered((rounds - 1) as nat, trace);
        if before.dirty.len() > 0 {
            let batch = crate::scope::updater::distinct(before.dirty);
            lemma_batch_uses_steps_in_order(
                World { dirty: Seq::empty(), ..before },
                batch,
                batch.len(),
                trace,
                used,
            );
        }
    }
}

/// A render pass is the same for every trace that begins with the steps it
/// uses.
pub proof fn lemma_pass_ignores_later_steps<N, M: ComponentModel<N>>(
    world: World<N, M>,
    rounds: nat,
    trace: Seq<RenderStep<N, M>>,
    longer: Seq<RenderStep<N, M>>,
)
    requires
        extends(longer, trace),
        world.pass_rendered(rounds, trace).1 <= trace.len(),
    ensures
        world.pass_rendered(rounds, longer) == world.pass_rendered(rounds, trace),
    decreases rounds,
{
    if rounds > 0 {
        lemma_pass_uses_steps_in_order(world, rounds, trace);
        lemma_pass_ignores_later_steps(world, (rounds - 1) as nat, trace, longer);
        let (before, used, touched, fine) = world.pass_rendered((rounds - 1) as nat, trace);
        if before.dirty.len() > 0 {
            let batch = crate::scope::updater::distinct(before.dirty);
            lemma_batch_ignores_later_steps(
                World { dirty: Seq::empty(), ..before },
                batch,
                batch.len(),
                trace,
                longer,
                used,
            );
        }
    }
}

/// Once the queue is empty further rounds change nothing.
pub proof fn lemma_pass_is_over_when_settled<N, M: ComponentModel<N>>(
    world: World<N, M>,
    done: nat,
    rounds: nat,
    trace: Seq<RenderStep<N, M>>,
)
    requires
        done <= rounds,
        world.pass_rendered(done, trace).0.dirty.len() == 0,
    ensures
        world.pass_rendered(rounds, trace) == world.pass_rendered(done, trace),
    decreases rounds,
{
    if rounds > done {
        lemma_pass_is_over_when_settled(world, done, (rounds - 1) as nat, trace);
    }
}

} // verus!
