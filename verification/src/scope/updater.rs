//! The update scheduler: the queue of renderers that asked for a re-render
//! since the last flush.

use vstd::prelude::*;
use crate::renderer::order::{keeps_contents, lemma_ordered_kept};
use crate::renderer::runtime::Runtime;
use crate::renderer::world::{RenderStep, World};
use crate::scope::renderer::RendererId;
use crate::scope::context::ContextArena;
use crate::scope::scope::{ComponentScope, ComponentScopeView, Scope, ScopeView};
use crate::v_node::component::ComponentModel;

verus! {

/// The renderers marked dirty since the last flush, in the order of the
/// marks. The queue is empty between batches.
pub struct Updater {
    pub dirty_renderer: Vec<RendererId>,
}

impl View for Updater {
    type V = Seq<RendererId>;

    open spec fn view(&self) -> Seq<RendererId> {
        self.dirty_renderer@
    }
}

/// The renderers of `s`, each once, in the order of their first mark.
pub open spec fn distinct(s: Seq<RendererId>) -> Seq<RendererId>
    decreases s.len(),
{
    if s.len() == 0 {
        Seq::empty()
    } else {
        let before = distinct(s.drop_last());
        if before.contains(s.last()) {
            before
        } else {
            before.push(s.last())
        }
    }
}

impl Updater {
    /// An updater with nothing queued.
    pub fn new() -> (r: Updater)
        ensures
            r@ == Seq::<RendererId>::empty(),
    {
        Updater { dirty_renderer: Vec::new() }
    }

    /// Queues `renderer` and tells the trigger its place in the batch: the
    /// token is 1 for the outermost trigger, the one that found the queue
    /// empty and has to flush, and larger for every trigger after it.
    pub fn mark_update(&mut self, renderer: RendererId) -> (token: usize)
        ensures
            final(self)@ == old(self)@.push(renderer),
            token == old(self)@.len() + 1,
    {
        self.dirty_renderer.push(renderer);
        self.dirty_renderer.len()
    }

    /// Empties the queue and hands out the batch: every queued renderer
    /// once, in the order of its first mark.
    pub fn get_updatable(&mut self) -> (batch: Vec<RendererId>)
        ensures
            batch@ == distinct(old(self)@),
            final(self)@ == Seq::<RendererId>::empty(),
    {
        let mut batch: Vec<RendererId> = Vec::new();
        let mut i: usize = 0;
        while i < self.dirty_renderer.len()
            invariant
                *self == *old(self),
                i <= self.dirty_renderer@.len(),
                batch@ == distinct(self.dirty_renderer@.take(i as int)),
            decreases self.dirty_renderer@.len() - i,
        {
            let renderer = self.dirty_renderer[i];
            let mut seen = false;
            let mut k: usize = 0;
            while k < batch.len()
                invariant
                    k <= batch@.len(),
                    seen == batch@.take(k as int).contains(renderer),
                decreases batch@.len() - k,
            {
                if batch[k] == renderer {
                    seen = true;
                }
                proof {
                    let head = batch@.take(k as int);
                    let next = batch@.take(k + 1);
                    assert(next =~= head.push(batch@[k as int]));
                    if head.contains(renderer) {
                        let j = choose|j: int| 0 <= j < head.len() && head[j] == renderer;
                        assert(next[j] == renderer);
                    }
                    if next.contains(renderer) && !head.contains(renderer) {
                        let j = choose|j: int| 0 <= j < next.len() && next[j] == renderer;
                        assert(j == k);
                    }
                    if batch@[k as int] == renderer {
                        assert(next[k as int] == renderer);
                    }
                }
                k += 1;
            }
            proof {
                assert(batch@.take(k as int) =~= batch@);
                let queue = self.dirty_renderer@;
                assert(queue.take(i + 1).drop_last() =~= queue.take(i as int));
                assert(queue.take(i + 1).last() == renderer);
            }
            if !seen {
                batch.push(renderer);
            }
            i += 1;
        }
        proof {
            assert(self.dirty_renderer@.take(i as int) =~= self.dirty_renderer@);
        }
        self.dirty_renderer.clear();
        batch
    }
}

/// The first half of a trigger: queues `renderer` and lets `update_func`
/// make its change to the scope of the renderer, at once and nothing else.
/// Nothing is rendered and no effect is handed to the host, whatever is
/// queued: a host that applies a cascade of triggers this way and flushes
/// when the cascade is over gets one batch for all of them. The token is 1
/// for the trigger that found the queue empty. A renderer that is no longer
/// mounted is queued, and `update_func` is not called.
pub fn queue_update<N, M: ComponentModel<N>, F: FnOnce(&mut Scope)>(
    rt: &mut Runtime<N, M>,
    renderer: RendererId,
    update_func: F,
) -> (token: usize)
    requires
        old(rt)@.live(renderer) ==> forall|given: &mut Scope|
            (*given)@ == old(rt)@.components[renderer as int].unwrap().scope
                ==> #[trigger] call_requires(update_func, (given,)),
    ensures
        token == old(rt)@.dirty.len() + 1,
        old(rt)@.live(renderer) ==> exists|given: &mut Scope|
            {
                &&& (*given)@ == old(rt)@.components[renderer as int].unwrap().scope
                &&& #[trigger] call_ensures(update_func, (given,), ())
                &&& final(rt)@ == old(rt)@.triggered(renderer, (*final(given))@)
            },
        !old(rt)@.live(renderer) ==> final(rt)@ == (World {
            dirty: old(rt)@.dirty.push(renderer),
            ..old(rt)@
        }),
        final(rt)@.components.len() == old(rt)@.components.len(),
        old(rt)@.ordered() ==> final(rt)@.ordered(),
{
    let token = rt.updater.mark_update(renderer);
    match rt.take_component(renderer) {
        Some(mut component) => {
            update_func(&mut component.scope);
            rt.put_component(renderer, component);
            proof {
                assert(rt@.components =~= old(rt)@.triggered(renderer, component.scope@).components);
                if old(rt)@.ordered() {
                    assert(keeps_contents(old(rt)@, rt@));
                    lemma_ordered_kept(old(rt)@, rt@);
                }
            }
        },
        None => {
            assert(rt@.components =~= old(rt)@.components);
        },
    }
    token
}

/// The way into a scope from outside a render: queues `renderer`, lets
/// `update_func` make its change to the scope of the renderer at once, and,
/// if this is the outermost trigger, the one that found the queue empty,
/// flushes. A trigger that finds renderers queued adds to their batch and
/// leaves the flush to the trigger that started it. A renderer that is no
/// longer mounted is queued, and `update_func` is not called. Every render
/// of the flush is a call of the render function of the component whose
/// turn it is, on its element, its hooks and the providers as they stand
/// then, and the runtime is what the model makes of what the render
/// functions left behind. The queue is empty afterwards exactly if the
/// trigger is the outermost and one of the rounds that the flush is allowed
/// ends with no renderer queued.
pub fn update<N, M: ComponentModel<N>, F: FnOnce(&mut Scope)>(
    rt: &mut Runtime<N, M>,
    renderer: RendererId,
    update_func: F,
) -> (settled: bool)
    requires
        old(rt)@.live(renderer) ==> forall|given: &mut Scope|
            (*given)@ == old(rt)@.components[renderer as int].unwrap().scope
                ==> #[trigger] call_requires(update_func, (given,)),
    ensures
        old(rt)@.live(renderer) ==> exists|given: &mut Scope, trace: Seq<RenderStep<N, M>>|
            {
                &&& (*given)@ == old(rt)@.components[renderer as int].unwrap().scope
                &&& #[trigger] call_ensures(update_func, (given,), ())
                &&& #[trigger] old(rt)@.updates(renderer, (*final(given))@, trace, final(rt)@)
                &&& settled == old(rt)@.trigger_settles(renderer, (*final(given))@, trace)
                &&& forall|k: int|
                    #![trigger trace[k]]
                    0 <= k < trace.len() ==> exists|hooks: &mut ComponentScope, arena: &mut ContextArena|
                        {
                            &&& (*hooks)@ == trace[k].hooks.rewound()
                            &&& (*arena)@ == trace[k].providers
                            &&& #[trigger] call_ensures(
                                M::render,
                                (
                                    &trace[k].element.component_model,
                                    hooks,
                                    arena,
                                    &trace[k].element.ref_object,
                                ),
                                trace[k].node,
                            )
                            &&& trace[k].contexts == (*final(arena))@
                            &&& trace[k].scope.component_scope == (ComponentScopeView {
                                has_init: true,
                                ..(*final(hooks))@
                            })
                        }
            },
        !old(rt)@.live(renderer) ==> exists|scope: ScopeView, trace: Seq<RenderStep<N, M>>|
            {
                &&& #[trigger] old(rt)@.updates(renderer, scope, trace, final(rt)@)
                &&& settled == old(rt)@.trigger_settles(renderer, scope, trace)
                &&& forall|k: int|
                    #![trigger trace[k]]
                    0 <= k < trace.len() ==> exists|hooks: &mut ComponentScope, arena: &mut ContextArena|
                        {
                            &&& (*hooks)@ == trace[k].hooks.rewound()
                            &&& (*arena)@ == trace[k].providers
                            &&& #[trigger] call_ensures(
                                M::render,
                                (
                                    &trace[k].element.component_model,
                                    hooks,
                                    arena,
                                    &trace[k].element.ref_object,
                                ),
                                trace[k].node,
                            )
                            &&& trace[k].contexts == (*final(arena))@
                            &&& trace[k].scope.component_scope == (ComponentScopeView {
                                has_init: true,
                                ..(*final(hooks))@
                            })
                        }
            },
        settled == (final(rt)@.dirty.len() == 0),
        final(rt)@.components.len() >= old(rt)@.components.len(),
        old(rt)@.ordered() ==> final(rt)@.ordered(),
{
    let token = queue_update(rt, renderer, update_func);
    let ghost triggered = rt@;
    if token == 1 {
        let settled = rt.flush();
        proof {
            let trace = choose|trace: Seq<RenderStep<N, M>>|
                {
                    &&& #[trigger] triggered.flushes(trace, rt@)
                    &&& settled == triggered.settles(trace)
                    &&& forall|k: int|
                        #![trigger trace[k]]
                        0 <= k < trace.len() ==> exists|hooks: &mut ComponentScope, arena: &mut ContextArena|
                            {
                                &&& (*hooks)@ == trace[k].hooks.rewound()
                                &&& (*arena)@ == trace[k].providers
                                &&& #[trigger] call_ensures(
                                    M::render,
                                    (
                                        &trace[k].element.component_model,
                                        hooks,
                                        arena,
                                        &trace[k].element.ref_object,
                                    ),
                                    trace[k].node,
                                )
                                &&& trace[k].contexts == (*final(arena))@
                                &&& trace[k].scope.component_scope == (ComponentScopeView {
                                    has_init: true,
                                    ..(*final(hooks))@
                                })
                            }
                };
            if old(rt)@.live(renderer) {
                let given = choose|given: &mut Scope|
                    {
                        &&& (*given)@ == old(rt)@.components[renderer as int].unwrap().scope
                        &&& #[trigger] call_ensures(update_func, (given,), ())
                        &&& triggered == old(rt)@.triggered(renderer, (*final(given))@)
                    };
                assert(old(rt)@.updates(renderer, (*final(given))@, trace, rt@));
            } else {
                let scope = ScopeView::fresh(0, None);
                assert(triggered == old(rt)@.triggered(renderer, scope));
                assert(old(rt)@.updates(renderer, scope, trace, rt@));
            }
        }
        settled
    } else {
        proof {
            let trace = Seq::<RenderStep<N, M>>::empty();
            if old(rt)@.live(renderer) {
                let given = choose|given: &mut Scope|
                    {
                        &&& (*given)@ == old(rt)@.components[renderer as int].unwrap().scope
                        &&& #[trigger] call_ensures(update_func, (given,), ())
                        &&& triggered == old(rt)@.triggered(renderer, (*final(given))@)
                    };
                assert(old(rt)@.updates(renderer, (*final(given))@, trace, rt@));
            } else {
                let scope = ScopeView::fresh(0, None);
                assert(triggered == old(rt)@.triggered(renderer, scope));
                assert(old(rt)@.updates(renderer, scope, trace, rt@));
            }
        }
        false
    }
}

/// A batch holds exactly the renderers that were queued, and none of them
/// twice: a renderer is re-rendered at most once per batch, however often
/// it was marked.
pub proof fn law_batch_holds_each_renderer_once(s: Seq<RendererId>)
    ensures
        distinct(s).no_duplicates(),
        forall|r: RendererId| distinct(s).contains(r) <==> s.contains(r),
    decreases s.len(),
{
    if s.len() == 0 {
    } else {
        let head = s.drop_last();
        law_batch_holds_each_renderer_once(head);
        let before = distinct(head);
        assert forall|r: RendererId| distinct(s).contains(r) <==> s.contains(r) by {
            if s.contains(r) {
                let j = choose|j: int| 0 <= j < s.len() && s[j] == r;
                if j < s.len() - 1 {
                    assert(head[j] == r);
                    assert(head.contains(r));
                    assert(before.contains(r));
                    if !before.contains(s.last()) {
                        let k = choose|k: int| 0 <= k < before.len() && before[k] == r;
                        assert(before.push(s.last())[k] == r);
                    }
                } else {
                    if !before.contains(s.last()) {
                        assert(before.push(s.last())[before.len() as int] == r);
                    }
                }
            }
            if distinct(s).contains(r) {
                if before.contains(r) {
                    assert(head.contains(r));
                    let j = choose|j: int| 0 <= j < head.len() && head[j] == r;
                    assert(s[j] == r);
                } else {
                    let k = choose|k: int| 0 <= k < distinct(s).len() && distinct(s)[k] == r;
                    assert(r == s.last());
                    assert(s[s.len() - 1] == r);
                }
            }
        }
    }
}

} // verus!
