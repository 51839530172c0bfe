//! Callback handles: a callback body bound to the renderer it re-enters.

use vstd::prelude::*;
use crate::renderer::runtime::Runtime;
use crate::renderer::world::RenderStep;
use crate::scope::renderer::RendererId;
use crate::scope::context::ContextArena;
use crate::scope::scope::{ComponentScope, ComponentScopeView, Scope, ScopeView};
use crate::scope::updater::update;
use crate::v_node::component::ComponentModel;

verus! {

/// Names a callback body that the component author holds.
pub type CallbackToken = u64;

/// A callback of a component. Invoking it goes through the updater of the
/// component's renderer, never directly into the body. A callback that was
/// made with a bound input names the memo of its scope that holds the
/// input.
#[derive(Clone, Copy, PartialEq, Eq, Structural, Debug)]
pub struct CallbackHandle {
    pub func: CallbackToken,
    pub renderer: RendererId,
    pub bound: Option<usize>,
}

impl CallbackHandle {
    /// Invokes the callback: `body`, which is the callback's body applied
    /// to its argument, runs on the scope of the callback's renderer as one
    /// trigger of the updater. The result says whether the queue is empty
    /// afterwards.
    pub fn trigger<N, M: ComponentModel<N>, F: FnOnce(&mut Scope)>(
        &self,
        rt: &mut Runtime<N, M>,
        body: F,
    ) -> (settled: bool)
        requires
            old(rt)@.live(self.renderer) ==> forall|given: &mut Scope|
                (*given)@ == old(rt)@.components[self.renderer as int].unwrap().scope
                    ==> #[trigger] call_requires(body, (given,)),
        ensures
            old(rt)@.live(self.renderer) ==> exists|
                given: &mut Scope,
                trace: Seq<RenderStep<N, M>>,
            |
                {
                    &&& (*given)@ == old(rt)@.components[self.renderer as int].unwrap().scope
                    &&& #[trigger] call_ensures(body, (given,), ())
                    &&& #[trigger] old(rt)@.updates(
                        self.renderer,
                        (*final(given))@,
                        trace,
                        final(rt)@,
                    )
                    &&& settled == old(rt)@.trigger_settles(
                        self.renderer,
                        (*final(given))@,
                        trace,
                    )
                    &&& forall|k: int|
                        #![trigger trace[k]]
                        0 <= k < trace.len() ==> exists|hooks: &mut ComponentScope, arena: &mut ContextArena|
                            {
                                &&& (*hooks)@ == trace[k].hooks.rewound()
                                &&& (*arena)@ == trace[k].providers
                                &&& #[trigger] call_ensures(
                                    M::render,
                                    (
                                        &trace[k].element.component_model,
                                        hooks,
                                        arena,
                                        &trace[k].element.ref_object,
                                    ),
                                    trace[k].node,
                                )
                                &&& trace[k].contexts == (*final(arena))@
                                &&& trace[k].scope.component_scope == (ComponentScopeView {
                                    has_init: true,
                                    ..(*final(hooks))@
                                })
                            }
                },
            !old(rt)@.live(self.renderer) ==> exists|
                scope: ScopeView,
                trace: Seq<RenderStep<N, M>>,
            |
                {
                    &&& #[trigger] old(rt)@.updates(self.renderer, scope, trace, final(rt)@)
                    &&& settled == old(rt)@.trigger_settles(self.renderer, scope, trace)
                    &&& forall|k: int|
                        #![trigger trace[k]]
                        0 <= k < trace.len() ==> exists|hooks: &mut ComponentScope, arena: &mut ContextArena|
                            {
                                &&& (*hooks)@ == trace[k].hooks.rewound()
                                &&& (*arena)@ == trace[k].providers
                                &&& #[trigger] call_ensures(
                                    M::render,
                                    (
                                        &trace[k].element.component_model,
                                        hooks,
                                        arena,
                                        &trace[k].element.ref_object,
                                    ),
                                    trace[k].node,
                                )
                                &&& trace[k].contexts == (*final(arena))@
                                &&& trace[k].scope.component_scope == (ComponentScopeView {
                                    has_init: true,
                                    ..(*final(hooks))@
                                })
                            }
                },
            settled == (final(rt)@.dirty.len() == 0),
            final(rt)@.components.len() >= old(rt)@.components.len(),
            old(rt)@.ordered() ==> final(rt)@.ordered(),
    {
        update(rt, self.renderer, body)
    }
}

} // verus!
