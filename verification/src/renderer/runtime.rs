//! The runtime: components and providers in arenas, the updater, and the
//! instructions issued to the backend and to the host.

use vstd::prelude::*;
use crate::renderer::component::ComponentMount;
use crate::renderer::native::{NativeId, NativeOp};
use crate::renderer::order::lemma_effects_keep_order;
use crate::renderer::world::{
    cleanup_commands, executed, executed_one, lemma_batch_ignores_later_steps,
    lemma_pass_ignores_later_steps, lemma_pass_is_over_when_settled, run_commands, ComponentView,
    EffectCommand, RenderStep, World,
};
use crate::scope::context::{ContextArena, ContextId, ContextLink};
use crate::scope::effect::EffectToken;
use crate::scope::renderer::RendererId;
use crate::scope::scope::{
    ComponentScope, ComponentScopeView, HookListView, Scope, ScopeView,
};
use crate::scope::updater::Updater;
use crate::v_node::component::ComponentModel;

verus! {

/// Everything that is mounted, by identifier. A component or provider keeps
/// its identifier for life, and no identifier is given out twice.
pub struct Runtime<N, M> {
    pub components: Vec<Option<ComponentMount<N, M>>>,
    pub contexts: ContextArena,
    pub natives: Vec<Option<ContextLink>>,
    pub updater: Updater,
    pub ops: Vec<NativeOp<N>>,
    pub commands: Vec<EffectCommand>,
    /// How many batches one flush may work through before it hands control
    /// back with renderers still queued.
    pub round_limit: usize,
}

/// The models of the component slots.
pub open spec fn component_models<N, M>(slots: Seq<Option<ComponentMount<N, M>>>) -> Seq<
    Option<ComponentView<N, M>>,
> {
    Seq::new(
        slots.len(),
        |i: int|
            match slots[i] {
                Some(component) => Some(component@),
                None => None,
            },
    )
}

impl<N, M> View for Runtime<N, M> {
    type V = World<N, M>;

    open spec fn view(&self) -> World<N, M> {
        World {
            components: component_models(self.components@),
            contexts: self.contexts@,
            natives: self.natives@,
            dirty: self.updater@,
            ops: self.ops@,
            commands: self.commands@,
            round_limit: self.round_limit,
        }
    }
}

/// Handing effects to the host neither queues a renderer nor gives or takes
/// a component slot.
pub proof fn lemma_effects_keep_queue<N, M: ComponentModel<N>>(
    world: World<N, M>,
    renderers: Seq<RendererId>,
    n: nat,
)
    ensures
        world.effects_run_all(renderers, n).dirty == world.dirty,
        world.effects_run_all(renderers, n).components.len() == world.components.len(),
        world.effects_run_all(renderers, n).ops == world.ops,
        world.effects_run_all(renderers, n).contexts == world.contexts,
        world.effects_run_all(renderers, n).natives == world.natives,
    decreases n,
{
    if n == 0 || n > renderers.len() {
    } else {
        lemma_effects_keep_queue(world, renderers, (n - 1) as nat);
    }
}

/// A render pass settles exactly if it ends with no renderer queued: a
/// pass that ends with renderers queued has used up its rounds, and every
/// one of them ended with renderers queued.
pub proof fn lemma_settles<N, M: ComponentModel<N>>(world: World<N, M>, trace: Seq<RenderStep<N, M>>)
    ensures
        world.settles(trace) == (world.pass_rendered(
            world.round_limit as nat,
            trace,
        ).0.dirty.len() == 0),
{
    let limit = world.round_limit as nat;
    if world.settles(trace) {
        let rounds = choose|rounds: nat|
            rounds <= world.round_limit && (#[trigger] world.pass_rendered(
                rounds,
                trace,
            )).0.dirty.len() == 0;
        lemma_pass_is_over_when_settled(world, rounds, limit, trace);
    }
}

impl<N, M: ComponentModel<N>> Runtime<N, M> {
    /// A runtime with nothing mounted, whose flushes work through as many
    /// batches as it takes.
    pub fn new() -> (r: Runtime<N, M>)
        ensures
            r@ == World::<N, M>::empty(usize::MAX),
    {
        Runtime::with_round_limit(usize::MAX)
    }

    /// A runtime with nothing mounted, whose flushes stop after
    /// `round_limit` batches.
    pub fn with_round_limit(round_limit: usize) -> (r: Runtime<N, M>)
        ensures
            r@ == World::<N, M>::empty(round_limit),
    {
        let r = Runtime {
            round_limit,
            components: Vec::new(),
            contexts: ContextArena::new(),
            natives: Vec::new(),
            updater: Updater::new(),
            ops: Vec::new(),
            commands: Vec::new(),
        };
        assert(r@.components =~= Seq::empty());
        r
    }

    /// Issues `op` to the backend.
    pub fn emit(&mut self, op: NativeOp<N>)
        ensures
            final(self)@ == old(self)@.with_op(op),
    {
        self.ops.push(op);
    }

    /// Hands the instructions that were issued to the backend since the
    /// last collection to the caller, in order.
    pub fn take_ops(&mut self) -> (ops: Vec<NativeOp<N>>)
        ensures
            ops@ == old(self)@.ops,
            final(self)@ == (World { ops: Seq::empty(), ..old(self)@ }),
    {
        let mut ops: Vec<NativeOp<N>> = Vec::new();
        core::mem::swap(&mut self.ops, &mut ops);
        ops
    }

    /// Hands the commands that were issued to the host since the last
    /// collection to the caller, in order.
    pub fn take_commands(&mut self) -> (commands: Vec<EffectCommand>)
        ensures
            commands@ == old(self)@.commands,
            final(self)@ == (World { commands: Seq::empty(), ..old(self)@ }),
    {
        let mut commands: Vec<EffectCommand> = Vec::new();
        core::mem::swap(&mut self.commands, &mut commands);
        commands
    }

    /// The context link under which the native element `id` was mounted, if
    /// it is mounted.
    pub fn native_context_link(&self, id: NativeId) -> (r: Option<ContextLink>)
        ensures
            r == (if id < self@.natives.len() {
                self@.natives[id as int]
            } else {
                None
            }),
    {
        if id < self.natives.len() {
            self.natives[id]
        } else {
            None
        }
    }

    /// Whether `id` names a mounted component.
    pub fn is_live(&self, id: RendererId) -> (r: bool)
        ensures
            r == self@.live(id),
    {
        id < self.components.len() && self.components[id].is_some()
    }

    /// Takes the component `id` out of its slot, which stays reserved.
    pub fn take_component(&mut self, id: RendererId) -> (r: Option<ComponentMount<N, M>>)
        ensures
            r.is_some() == old(self)@.live(id),
            r matches Some(component) ==> old(self)@.components[id as int] == Some(component@),
            final(self)@ == (World {
                components: if id < old(self)@.components.len() {
                    old(self)@.components.update(id as int, None)
                } else {
                    old(self)@.components
                },
                ..old(self)@
            }),
    {
        if id >= self.components.len() {
            return None;
        }
        let taken = self.components[id].take();
        assert(self@.components =~= old(self)@.components.update(id as int, None));
        taken
    }

    /// Puts `component` into the slot `id`.
    pub fn put_component(&mut self, id: RendererId, component: ComponentMount<N, M>)
        requires
            id < old(self)@.components.len(),
        ensures
            final(self)@ == (World {
                components: old(self)@.components.update(id as int, Some(component@)),
                ..old(self)@
            }),
    {
        self.components[id] = Some(component);
        assert(self@.components =~= old(self)@.components.update(id as int, Some(component@)));
    }

    /// Gives `component` a slot of its own and says which.
    pub fn add_component(&mut self, component: ComponentMount<N, M>) -> (id: RendererId)
        ensures
            id == old(self)@.components.len(),
            final(self)@ == (World {
                components: old(self)@.components.push(Some(component@)),
                ..old(self)@
            }),
    {
        let id = self.components.len();
        self.components.push(Some(component));
        assert(self@.components =~= old(self)@.components.push(Some(component@)));
        id
    }

    /// Gives a native element that stands under `context_link` an
    /// identifier.
    pub fn add_native(&mut self, context_link: ContextLink) -> (id: NativeId)
        ensures
            id == old(self)@.natives.len(),
            final(self)@ == (World {
                natives: old(self)@.natives.push(Some(context_link)),
                ..old(self)@
            }),
    {
        let id = self.natives.len();
        self.natives.push(Some(context_link));
        id
    }

    /// Forgets the native element `id`.
    pub fn drop_native(&mut self, id: NativeId)
        ensures
            final(self)@ == (World {
                natives: if id < old(self)@.natives.len() {
                    old(self)@.natives.update(id as int, None)
                } else {
                    old(self)@.natives
                },
                ..old(self)@
            }),
    {
        if id < self.natives.len() {
            self.natives[id] = None;
        }
    }

    /// Marks `renderer` dirty through the updater: it is queued, and its
    /// scope, if it is mounted, asks for a re-render.
    pub fn mark_dirty(&mut self, renderer: RendererId)
        ensures
            final(self)@ == old(self)@.marked(renderer),
            final(self)@.components.len() == old(self)@.components.len(),
    {
        match self.take_component(renderer) {
            Some(mut component) => {
                component.scope.mark_update();
                self.put_component(renderer, component);
            },
            None => {},
        }
        let _ = self.updater.mark_update(renderer);
        assert(self@.components =~= old(self)@.marked(renderer).components);
    }

    /// Marks every subscriber of the provider `node` dirty, in the order of
    /// the subscriptions.
    pub fn trigger_update(&mut self, node: ContextId)
        requires
            node < old(self)@.contexts.len(),
        ensures
            final(self)@ == old(self)@.marked_all(
                old(self)@.contexts[node as int].renderers,
                old(self)@.contexts[node as int].renderers.len(),
            ),
            final(self)@.components.len() == old(self)@.components.len(),
    {
        let mut i: usize = 0;
        while i < self.contexts.nodes[node].renderers.len()
            invariant
                node < self@.contexts.len(),
                self@.contexts == old(self)@.contexts,
                i <= self@.contexts[node as int].renderers.len(),
                self@ == old(self)@.marked_all(old(self)@.contexts[node as int].renderers, i as nat),
                self@.components.len() == old(self)@.components.len(),
            decreases self@.contexts[node as int].renderers.len() - i,
        {
            let renderer = self.contexts.nodes[node].renderers[i];
            self.mark_dirty(renderer);
            i += 1;
        }
    }

    /// Issues the cleanups `due` to the host, in order.
    pub fn issue_cleanups(&mut self, due: Vec<EffectToken>)
        ensures
            final(self)@ == (World {
                commands: old(self)@.commands + cleanup_commands(due@),
                ..old(self)@
            }),
    {
        let mut i: usize = 0;
        while i < due.len()
            invariant
                i <= due@.len(),
                self@ == (World {
                    commands: old(self)@.commands + cleanup_commands(due@.take(i as int)),
                    ..old(self)@
                }),
            decreases due@.len() - i,
        {
            self.commands.push(EffectCommand::Cleanup { cleanup: due[i] });
            assert(self@.commands =~= old(self)@.commands + cleanup_commands(due@.take(i + 1)));
            i += 1;
        }
        assert(due@.take(i as int) =~= due@);
    }

    /// Hands the pending effects of `renderer` to the host, in hook order.
    pub fn run_effects(&mut self, renderer: RendererId)
        ensures
            final(self)@ == old(self)@.effects_run(renderer),
    {
        match self.take_component(renderer) {
            None => {
                assert(self@.components =~= old(self)@.components);
            },
            Some(mut component) => {
                let ghost before = component@;
                let ghost hooks = before.scope.component_scope.effect_hooks.hooks;
                let n = component.scope.component_scope.effect_hooks.hooks.len();
                let mut i: usize = 0;
                while i < n
                    invariant
                        i <= n,
                        n == hooks.len(),
                        renderer < old(self)@.components.len(),
                        component.scope.component_scope.effect_hooks.hooks@.len() == n,
                        forall|j: int|
                            0 <= j < i
                                ==> component.scope.component_scope.effect_hooks.hooks@[j]
                                == executed_one(hooks[j]),
                        forall|j: int|
                            i <= j < n ==> component.scope.component_scope.effect_hooks.hooks@[j]
                                == hooks[j],
                        component@ == (ComponentView {
                            scope: ScopeView {
                                component_scope: ComponentScopeView {
                                    effect_hooks: HookListView {
                                        hooks: component.scope.component_scope.effect_hooks.hooks@,
                                        ..before.scope.component_scope.effect_hooks
                                    },
                                    ..before.scope.component_scope
                                },
                                ..before.scope
                            },
                            ..before
                        }),
                        self@ == (World {
                            components: old(self)@.components.update(renderer as int, None),
                            commands: old(self)@.commands + run_commands(hooks, renderer, i as nat),
                            ..old(self)@
                        }),
                    decreases n - i,
                {
                    if component.scope.component_scope.effect_hooks.hooks[i].is_pending() {
                        let run = component.scope.component_scope.effect_hooks.hooks[i].execute();
                        match run.cleanup {
                            Some(cleanup) => {
                                self.commands.push(EffectCommand::Cleanup { cleanup });
                            },
                            None => {},
                        }
                        self.commands.push(
                            EffectCommand::Run { renderer, index: i, effect: run.effect },
                        );
                    }
                    assert(self@.commands =~= old(self)@.commands + run_commands(
                        hooks,
                        renderer,
                        (i + 1) as nat,
                    ));
                    i += 1;
                }
                assert(component.scope.component_scope.effect_hooks.hooks@ =~= executed(hooks));
                self.put_component(renderer, component);
                assert(self@.components =~= old(self)@.effects_run(renderer).components);
            },
        }
    }

    /// Records the cleanup that the body of effect `index` of `renderer`
    /// handed back to the host.
    pub fn keep_cleanup(&mut self, renderer: RendererId, index: usize, cleanup: Option<EffectToken>)
        ensures
            final(self)@ == old(self)@.cleanup_kept(renderer, index, cleanup),
    {
        match self.take_component(renderer) {
            None => {
                assert(self@.components =~= old(self)@.components);
            },
            Some(mut component) => {
                if index < component.scope.component_scope.effect_hooks.hooks.len() {
                    component.scope.component_scope.effect_hooks.hooks[index].keep_cleanup(cleanup);
                }
                self.put_component(renderer, component);
                assert(self@.components =~= old(self)@.cleanup_kept(
                    renderer,
                    index,
                    cleanup,
                ).components);
            },
        }
    }

    /// Whether no renderer is queued.
    pub fn is_settled(&self) -> (r: bool)
        ensures
            r == (self@.dirty.len() == 0),
    {
        self.updater.dirty_renderer.len() == 0
    }

    /// The render pass of a flush: while renderers are queued, and for
    /// `round_limit` rounds at most, the queue is emptied into a batch and
    /// every renderer of the batch that is mounted and still asks for it is
    /// re-rendered; what a render marks dirty goes into the next batch.
    /// Every render is a call of the render function of the component whose
    /// turn it is, on its element, its hooks and the providers as they stand
    /// then; with what the render functions left behind, step by step, the
    /// pass is what the model says. The result names the renderers that
    /// rendered, in the order of the renders.
    pub fn render_pass(&mut self) -> (touched: Vec<RendererId>)
        ensures
            exists|trace: Seq<RenderStep<N, M>>|
                {
                    &&& #[trigger] old(self)@.passes(trace, final(self)@, touched@)
                    &&& forall|k: int|
                        #![trigger trace[k]]
                        0 <= k < trace.len() ==> exists|hooks: &mut ComponentScope, arena: &mut ContextArena|
                            {
                                &&& (*hooks)@ == trace[k].hooks.rewound()
                                &&& (*arena)@ == trace[k].providers
                                &&& #[trigger] call_ensures(
                                    M::render,
                                    (
                                        &trace[k].element.component_model,
                                        hooks,
                                        arena,
                                        &trace[k].element.ref_object,
                                    ),
                                    trace[k].node,
                                )
                                &&& trace[k].contexts == (*final(arena))@
                                &&& trace[k].scope.component_scope == (ComponentScopeView {
                                    has_init: true,
                                    ..(*final(hooks))@
                                })
                            }
                },
            final(self)@.components.len() >= old(self)@.components.len(),
            old(self)@.dirty.len() == 0 ==> final(self)@ == old(self)@ && touched@.len() == 0,
            old(self)@.ordered() ==> final(self)@.ordered(),
    {
        let limit = self.round_limit;
        let mut touched: Vec<RendererId> = Vec::new();
        let mut rounds: usize = 0;
        let ghost mut trace: Seq<RenderStep<N, M>> = Seq::empty();
        while rounds < limit && !self.is_settled()
            invariant
                rounds <= limit,
                self@.components.len() >= old(self)@.components.len(),
                old(self)@.dirty.len() == 0 ==> self@ == old(self)@ && touched@.len() == 0,
                old(self)@.ordered() ==> self@.ordered(),
                forall|k: int|
                    #![trigger trace[k]]
                    0 <= k < trace.len() ==> exists|hooks: &mut ComponentScope, arena: &mut ContextArena|
                        {
                            &&& (*hooks)@ == trace[k].hooks.rewound()
                            &&& (*arena)@ == trace[k].providers
                            &&& #[trigger] call_ensures(
                                M::render,
                                (
                                    &trace[k].element.component_model,
                                    hooks,
                                    arena,
                                    &trace[k].element.ref_object,
                                ),
                                trace[k].node,
                            )
                            &&& trace[k].contexts == (*final(arena))@
                            &&& trace[k].scope.component_scope == (ComponentScopeView {
                                has_init: true,
                                ..(*final(hooks))@
                            })
                        },
                old(self)@.pass_rendered(rounds as nat, trace) == (
                    self@,
                    trace.len(),
                    touched@,
                    true,
                ),
            decreases limit - rounds,
        {
            let ghost before = self@;
            let ghost used = trace.len();
            let ghost earlier = touched@;
            let batch = self.updater.get_updatable();
            let ghost start = self@;
            let mut i: usize = 0;
            proof {
                assert(touched@.subrange(earlier.len() as int, touched@.len() as int)
                    =~= Seq::<RendererId>::empty());
            }
            while i < batch.len()
                invariant
                    i <= batch@.len(),
                    old(self)@.dirty.len() > 0,
                    self@.components.len() >= old(self)@.components.len(),
                    old(self)@.ordered() ==> self@.ordered(),
                    forall|k: int|
                        #![trigger trace[k]]
                        0 <= k < trace.len() ==> exists|hooks: &mut ComponentScope, arena: &mut ContextArena|
                            {
                                &&& (*hooks)@ == trace[k].hooks.rewound()
                                &&& (*arena)@ == trace[k].providers
                                &&& #[trigger] call_ensures(
                                    M::render,
                                    (
                                        &trace[k].element.component_model,
                                        hooks,
                                        arena,
                                        &trace[k].element.ref_object,
                                    ),
                                    trace[k].node,
                                )
                                &&& trace[k].contexts == (*final(arena))@
                                &&& trace[k].scope.component_scope == (ComponentScopeView {
                                    has_init: true,
                                    ..(*final(hooks))@
                                })
                            },
                    old(self)@.pass_rendered(rounds as nat, trace) == (before, used, earlier, true),
                    used <= trace.len(),
                    earlier.len() <= touched@.len(),
                    touched@.subrange(0, earlier.len() as int) == earlier,
                    start.batch_rendered(batch@, i as nat, trace, used) == (
                        self@,
                        trace.len(),
                        touched@.subrange(earlier.len() as int, touched@.len() as int),
                        true,
                    ),
                decreases batch@.len() - i,
            {
                let renderer = batch[i];
                let ghost current = self@;
                let ghost inner = touched@.subrange(earlier.len() as int, touched@.len() as int);
                let (rendered, Ghost(step)) = ComponentMount::consume_traced(renderer, self);
                if rendered {
                    touched.push(renderer);
                    proof {
                        let longer = trace.push(step);
                        assert forall|k: int|
                            #![trigger longer[k]]
                            0 <= k < longer.len() implies exists|
                            hooks: &mut ComponentScope,
                            arena: &mut ContextArena,
                        |
                            {
                                &&& (*hooks)@ == longer[k].hooks.rewound()
                                &&& (*arena)@ == longer[k].providers
                                &&& #[trigger] call_ensures(
                                    M::render,
                                    (
                                        &longer[k].element.component_model,
                                        hooks,
                                        arena,
                                        &longer[k].element.ref_object,
                                    ),
                                    longer[k].node,
                                )
                                &&& longer[k].contexts == (*final(arena))@
                                &&& longer[k].scope.component_scope == (ComponentScopeView {
                                    has_init: true,
                                    ..(*final(hooks))@
                                })
                            } by {
                            if k < trace.len() {
                                assert(longer[k] == trace[k]);
                            } else {
                                assert(longer[k] == step);
                            }
                        }
                        lemma_pass_ignores_later_steps(old(self)@, rounds as nat, trace, longer);
                        lemma_batch_ignores_later_steps(
                            start,
                            batch@,
                            i as nat,
                            trace,
                            longer,
                            used,
                        );
                        trace = longer;
                        assert(touched@.subrange(earlier.len() as int, touched@.len() as int)
                            =~= inner.push(renderer));
                        assert(touched@.subrange(0, earlier.len() as int) =~= earlier);
                    }
                }
                i += 1;
            }
            proof {
                assert(touched@ =~= earlier + touched@.subrange(
                    earlier.len() as int,
                    touched@.len() as int,
                ));
                assert(start == (World { dirty: Seq::empty(), ..before }));
            }
            rounds += 1;
        }
        proof {
            if rounds < limit {
                lemma_pass_is_over_when_settled(old(self)@, rounds as nat, limit as nat, trace);
            }
            assert(old(self)@.passes(trace, self@, touched@));
        }
        touched
    }

    /// Hands the pending effects of the renderers `touched` to the host, in
    /// order.
    pub fn run_effects_of(&mut self, touched: &Vec<RendererId>)
        ensures
            final(self)@ == old(self)@.effects_run_all(touched@, touched@.len()),
    {
        let mut k: usize = 0;
        while k < touched.len()
            invariant
                k <= touched@.len(),
                self@ == old(self)@.effects_run_all(touched@, k as nat),
            decreases touched@.len() - k,
        {
            self.run_effects(touched[k]);
            k += 1;
        }
    }

    /// One flush: the render pass, and only when it is over the pending
    /// effects of every renderer that rendered are handed to the host, in
    /// the order of the renders. Every render of the pass is a call of the
    /// render function of the component whose turn it is, on its element,
    /// its hooks and the providers as they stand then; with what the render
    /// functions left behind, step by step, the flush is what the model
    /// says. The queue is empty afterwards exactly if one of the rounds that
    /// the pass is allowed ends with no renderer queued. A flush of an empty
    /// queue changes nothing.
    pub fn flush(&mut self) -> (settled: bool)
        ensures
            exists|trace: Seq<RenderStep<N, M>>|
                {
                    &&& #[trigger] old(self)@.flushes(trace, final(self)@)
                    &&& settled == old(self)@.settles(trace)
                    &&& forall|k: int|
                        #![trigger trace[k]]
                        0 <= k < trace.len() ==> exists|hooks: &mut ComponentScope, arena: &mut ContextArena|
                            {
                                &&& (*hooks)@ == trace[k].hooks.rewound()
                                &&& (*arena)@ == trace[k].providers
                                &&& #[trigger] call_ensures(
                                    M::render,
                                    (
                                        &trace[k].element.component_model,
                                        hooks,
                                        arena,
                                        &trace[k].element.ref_object,
                                    ),
                                    trace[k].node,
                                )
                                &&& trace[k].contexts == (*final(arena))@
                                &&& trace[k].scope.component_scope == (ComponentScopeView {
                                    has_init: true,
                                    ..(*final(hooks))@
                                })
                            }
                },
            settled == (final(self)@.dirty.len() == 0),
            final(self)@.components.len() >= old(self)@.components.len(),
            old(self)@.dirty.len() == 0 ==> final(self)@ == old(self)@,
            old(self)@.ordered() ==> final(self)@.ordered(),
    {
        let touched = self.render_pass();
        let ghost rendered = self@;
        let ghost trace = choose|trace: Seq<RenderStep<N, M>>|
            {
                &&& #[trigger] old(self)@.passes(trace, rendered, touched@)
                &&& forall|k: int|
                    #![trigger trace[k]]
                    0 <= k < trace.len() ==> exists|hooks: &mut ComponentScope, arena: &mut ContextArena|
                        {
                            &&& (*hooks)@ == trace[k].hooks.rewound()
                            &&& (*arena)@ == trace[k].providers
                            &&& #[trigger] call_ensures(
                                M::render,
                                (
                                    &trace[k].element.component_model,
                                    hooks,
                                    arena,
                                    &trace[k].element.ref_object,
                                ),
                                trace[k].node,
                            )
                            &&& trace[k].contexts == (*final(arena))@
                            &&& trace[k].scope.component_scope == (ComponentScopeView {
                                has_init: true,
                                ..(*final(hooks))@
                            })
                        }
            };
        self.run_effects_of(&touched);
        proof {
            lemma_effects_keep_queue(rendered, touched@, touched@.len());
            if rendered.ordered() {
                lemma_effects_keep_order(rendered, touched@, touched@.len());
            }
            assert(old(self)@.flushes(trace, self@));
            lemma_settles(old(self)@, trace);
        }
        self.is_settled()
    }

    /// Ends the life of the scope of an unmounted component: the cleanups
    /// that are due are issued and its context subscriptions are ended.
    pub fn end_scope(&mut self, scope: &mut Scope)
        ensures
            final(self)@ == old(self)@.scope_ended(old(scope)@),
            final(scope)@ == (ScopeView {
                component_scope: ComponentScopeView {
                    effect_hooks: HookListView {
                        hooks: Seq::empty(),
                        ..old(scope)@.component_scope.effect_hooks
                    },
                    ..old(scope)@.component_scope
                },
                ..old(scope)@
            }),
    {
        let due = scope.cleanup(&mut self.contexts);
        self.issue_cleanups(due);
    }
}

} // verus!
