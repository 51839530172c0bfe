//! The scope of one component instance: its hooks in per-kind lists,
//! addressed by the order in which a render asks for them.

use vstd::prelude::*;
use crate::scope::callback::{CallbackHandle, CallbackToken};
use crate::scope::context::{
    lemma_resolve_in_range, resolve_spec, unsubscribed, ContextArena, ContextConsumerHandle,
    ContextLink, ContextNodeView,
};
use crate::scope::effect::{EffectStore, EffectToken};
use crate::scope::memo::MemoStore;
use crate::scope::ref_object::{RefObject, RefSlot};
use crate::scope::renderer::RendererId;
use crate::scope::state::{StateHandle, StateStore};
use crate::value::{TypeToken, Value};

verus! {

/// Hooks of one kind, in the order of their first request, and the position
/// of the next request in the render under way.
pub struct HookList<Hook> {
    pub hooks: Vec<Hook>,
    pub current_index: usize,
}

/// The model of a hook list.
pub struct HookListView<Hook> {
    pub hooks: Seq<Hook>,
    pub current_index: usize,
}

impl<Hook> View for HookList<Hook> {
    type V = HookListView<Hook>;

    open spec fn view(&self) -> HookListView<Hook> {
        HookListView { hooks: self.hooks@, current_index: self.current_index }
    }
}

impl<Hook> HookListView<Hook> {
    /// The empty list.
    pub open spec fn empty() -> HookListView<Hook> {
        HookListView { hooks: Seq::empty(), current_index: 0 }
    }

    /// Whether a hook is stored at the position of the next request.
    pub open spec fn has_next(self) -> bool {
        self.current_index < self.hooks.len()
    }

    /// The hook at the position of the next request.
    pub open spec fn next(self) -> Hook {
        self.hooks[self.current_index as int]
    }

    /// The list after the request was served from storage.
    pub open spec fn advanced(self) -> HookListView<Hook> {
        HookListView { current_index: (self.current_index + 1) as usize, ..self }
    }

    /// The list after the request was served and the hook replaced.
    pub open spec fn advanced_with(self, hook: Hook) -> HookListView<Hook> {
        HookListView {
            hooks: self.hooks.update(self.current_index as int, hook),
            current_index: (self.current_index + 1) as usize,
        }
    }

    /// The list after a first request stored `hook`.
    pub open spec fn appended(self, hook: Hook) -> HookListView<Hook> {
        HookListView { hooks: self.hooks.push(hook), ..self }
    }

    /// The list with the position set back for the next render.
    pub open spec fn rewound(self) -> HookListView<Hook> {
        HookListView { current_index: 0, ..self }
    }
}

impl<Hook> HookList<Hook> {
    /// An empty list.
    pub fn new() -> (r: HookList<Hook>)
        ensures
            r@ == HookListView::<Hook>::empty(),
    {
        HookList { hooks: Vec::new(), current_index: 0 }
    }

    /// Drops every hook and puts the position at the start.
    pub fn clear(&mut self)
        ensures
            final(self)@ == HookListView::<Hook>::empty(),
    {
        self.hooks.clear();
        self.current_index = 0;
    }

    /// The hook at the position of the next request; the position moves on.
    /// What the caller writes through the reference is stored in its place.
    pub fn get(&mut self) -> (hook: &mut Hook)
        requires
            old(self)@.has_next(),
        ensures
            *hook == old(self)@.next(),
            final(self)@ == old(self)@.advanced_with(*final(hook)),
    {
        let index = self.current_index;
        assert(index < self.hooks.len());
        self.current_index = index + 1;
        &mut self.hooks[index]
    }

    /// Whether storage holds a hook for the next request.
    pub fn has_next(&self) -> (r: bool)
        ensures
            r == self@.has_next(),
    {
        self.current_index < self.hooks.len()
    }
}

/// What a render function sees of its scope: the hooks, without the dirty
/// flag.
pub struct ComponentScope {
    pub renderer: RendererId,
    pub context_link: ContextLink,
    pub state_hooks: HookList<StateStore>,
    pub ref_hooks: HookList<RefSlot>,
    pub context_hooks: HookList<ContextConsumerHandle>,
    pub effect_hooks: HookList<EffectStore>,
    pub memo_hooks: HookList<MemoStore>,
    pub has_init: bool,
}

/// The model of a component scope.
pub struct ComponentScopeView {
    pub renderer: RendererId,
    pub context_link: ContextLink,
    pub state_hooks: HookListView<StateStore>,
    pub ref_hooks: HookListView<RefSlot>,
    pub context_hooks: HookListView<ContextConsumerHandle>,
    pub effect_hooks: HookListView<EffectStore>,
    pub memo_hooks: HookListView<MemoStore>,
    pub has_init: bool,
}

impl View for ComponentScope {
    type V = ComponentScopeView;

    open spec fn view(&self) -> ComponentScopeView {
        ComponentScopeView {
            renderer: self.renderer,
            context_link: self.context_link,
            state_hooks: self.state_hooks@,
            ref_hooks: self.ref_hooks@,
            context_hooks: self.context_hooks@,
            effect_hooks: self.effect_hooks@,
            memo_hooks: self.memo_hooks@,
            has_init: self.has_init,
        }
    }
}

/// The storage of one component instance: its hooks and whether it asked
/// for a re-render.
pub struct Scope {
    pub update_flag: bool,
    pub component_scope: ComponentScope,
}

/// The model of a scope.
pub struct ScopeView {
    pub update_flag: bool,
    pub component_scope: ComponentScopeView,
}

impl View for Scope {
    type V = ScopeView;

    open spec fn view(&self) -> ScopeView {
        ScopeView { update_flag: self.update_flag, component_scope: self.component_scope@ }
    }
}

impl ComponentScopeView {
    /// The scope of a component that has not rendered yet.
    pub open spec fn fresh(renderer: RendererId, context_link: ContextLink) -> ComponentScopeView {
        ComponentScopeView {
            renderer,
            context_link,
            state_hooks: HookListView::empty(),
            ref_hooks: HookListView::empty(),
            context_hooks: HookListView::empty(),
            effect_hooks: HookListView::empty(),
            memo_hooks: HookListView::empty(),
            has_init: false,
        }
    }

    /// The scope with all hooks cleared, as before its first render.
    pub open spec fn cleared(self) -> ComponentScopeView {
        ComponentScopeView::fresh(self.renderer, self.context_link)
    }

    /// The scope at the start of a render: every list is read from its
    /// first hook again.
    pub open spec fn rewound(self) -> ComponentScopeView {
        ComponentScopeView {
            state_hooks: self.state_hooks.rewound(),
            ref_hooks: self.ref_hooks.rewound(),
            context_hooks: self.context_hooks.rewound(),
            effect_hooks: self.effect_hooks.rewound(),
            memo_hooks: self.memo_hooks.rewound(),
            ..self
        }
    }

    /// Whether a later render may ask for a state cell of type `token` now.
    pub open spec fn state_ready(self, token: TypeToken) -> bool {
        self.has_init ==> self.state_hooks.has_next() && self.state_hooks.next().value.type_token
            == token
    }

    /// Whether a later render may ask for a ref cell of type `token` now.
    pub open spec fn ref_ready(self, token: TypeToken) -> bool {
        self.has_init ==> self.ref_hooks.has_next() && self.ref_hooks.next().type_token == token
    }

    /// Whether a later render may ask for the context of type `token` now.
    pub open spec fn context_ready(self, contexts: Seq<ContextNodeView>, token: TypeToken) -> bool {
        self.has_init ==> self.context_hooks.has_next() && self.context_hooks.next().type_token
            == token && self.context_hooks.next().context_node < contexts.len()
    }

    /// Whether a later render may ask for an effect with a basis of type
    /// `token` now.
    pub open spec fn effect_ready(self, token: TypeToken) -> bool {
        self.has_init ==> self.effect_hooks.has_next() && self.effect_hooks.next().basis.is_some()
            && self.effect_hooks.next().basis.unwrap().type_token == token
    }

    /// Whether a later render may ask for an effect that runs after every
    /// render now.
    pub open spec fn always_effect_ready(self) -> bool {
        self.has_init ==> self.effect_hooks.has_next() && self.effect_hooks.next().basis.is_none()
    }

    /// The scope after a render asked for the effect at this position with
    /// body `effect` and basis `basis`. The first render stores the effect,
    /// pending. A later render with a basis equal to the stored one leaves
    /// the effect as it is, pending or not; with another basis it stores the
    /// new body and basis and makes the effect pending, and the cleanup of
    /// the last run stays due.
    pub open spec fn effect_requested(self, effect: EffectToken, basis: Value)
        -> ComponentScopeView {
        ComponentScopeView {
            effect_hooks: if !self.has_init {
                self.effect_hooks.appended(
                    EffectStore {
                        effect,
                        cleanup: None,
                        basis: Some(basis),
                        pending_execution: true,
                    },
                )
            } else if basis@ == self.effect_hooks.next().basis.unwrap()@ {
                self.effect_hooks.advanced()
            } else {
                self.effect_hooks.advanced_with(
                    EffectStore {
                        effect,
                        cleanup: self.effect_hooks.next().cleanup,
                        basis: Some(basis),
                        pending_execution: true,
                    },
                )
            },
            ..self
        }
    }

    /// Whether a later render may ask for a memo with an input of type
    /// `token` now.
    pub open spec fn memo_ready(self, token: TypeToken) -> bool {
        self.has_init ==> self.memo_hooks.has_next()
            && self.memo_hooks.next().cached_input.type_token == token
    }
}

/// One request of a render for a hook: the kind of the hook and the type
/// of what it holds. An effect without a type runs after every render.
#[derive(Clone, Copy, PartialEq, Eq, Structural, Debug)]
pub enum HookRequest {
    State(TypeToken),
    Ref(TypeToken),
    Context(TypeToken),
    Effect(Option<TypeToken>),
    Memo(TypeToken),
}

/// What decides whether a request can be served: the types of the stored
/// hooks of every kind, in order, the position of the next request in every
/// list, and whether the component has rendered before.
pub struct HookShape {
    pub states: Seq<TypeToken>,
    pub state_index: nat,
    pub refs: Seq<TypeToken>,
    pub ref_index: nat,
    pub contexts: Seq<TypeToken>,
    pub context_index: nat,
    pub effects: Seq<Option<TypeToken>>,
    pub effect_index: nat,
    pub memos: Seq<TypeToken>,
    pub memo_index: nat,
    pub has_init: bool,
}

/// The type of the basis of an effect, if it has a basis.
pub open spec fn basis_type(effect: EffectStore) -> Option<TypeToken> {
    match effect.basis {
        Some(basis) => Some(basis.type_token),
        None => None,
    }
}

impl HookShape {
    /// The shape of a scope without hooks.
    pub open spec fn empty() -> HookShape {
        HookShape {
            states: Seq::empty(),
            state_index: 0,
            refs: Seq::empty(),
            ref_index: 0,
            contexts: Seq::empty(),
            context_index: 0,
            effects: Seq::empty(),
            effect_index: 0,
            memos: Seq::empty(),
            memo_index: 0,
            has_init: false,
        }
    }

    /// Whether `request` can be served: on a first render always; on a
    /// later render only if storage holds a hook of the requested type at
    /// the position of the request.
    pub open spec fn ready(self, request: HookRequest) -> bool {
        !self.has_init || match request {
            HookRequest::State(token) => self.state_index < self.states.len()
                && self.states[self.state_index as int] == token,
            HookRequest::Ref(token) => self.ref_index < self.refs.len()
                && self.refs[self.ref_index as int] == token,
            HookRequest::Context(token) => self.context_index < self.contexts.len()
                && self.contexts[self.context_index as int] == token,
            HookRequest::Effect(token) => self.effect_index < self.effects.len()
                && self.effects[self.effect_index as int] == token,
            HookRequest::Memo(token) => self.memo_index < self.memos.len()
                && self.memos[self.memo_index as int] == token,
        }
    }

    /// The shape after `request` was served: a first render stores a hook
    /// of the requested type; a later render moves on by one hook and
    /// changes no type.
    pub open spec fn served(self, request: HookRequest) -> HookShape {
        if !self.has_init {
            match request {
                HookRequest::State(token) => HookShape {
                    states: self.states.push(token),
                    ..self
                },
                HookRequest::Ref(token) => HookShape { refs: self.refs.push(token), ..self },
                HookRequest::Context(token) => HookShape {
                    contexts: self.contexts.push(token),
                    ..self
                },
                HookRequest::Effect(token) => HookShape {
                    effects: self.effects.push(token),
                    ..self
                },
                HookRequest::Memo(token) => HookShape { memos: self.memos.push(token), ..self },
            }
        } else {
            match request {
                HookRequest::State(_) => HookShape { state_index: self.state_index + 1, ..self },
                HookRequest::Ref(_) => HookShape { ref_index: self.ref_index + 1, ..self },
                HookRequest::Context(_) => HookShape {
                    context_index: self.context_index + 1,
                    ..self
                },
                HookRequest::Effect(_) => HookShape {
                    effect_index: self.effect_index + 1,
                    ..self
                },
                HookRequest::Memo(_) => HookShape { memo_index: self.memo_index + 1, ..self },
            }
        }
    }

    /// The shape after the first `n` of `requests` were served, in order.
    pub open spec fn served_all(self, requests: Seq<HookRequest>, n: nat) -> HookShape
        decreases n,
    {
        if n == 0 || n > requests.len() {
            self
        } else {
            self.served_all(requests, (n - 1) as nat).served(requests[n - 1])
        }
    }

    /// The shape at the start of the next render: every list is read from
    /// its first hook, and the component has rendered.
    pub open spec fn rendered(self) -> HookShape {
        HookShape {
            state_index: 0,
            ref_index: 0,
            context_index: 0,
            effect_index: 0,
            memo_index: 0,
            has_init: true,
            ..self
        }
    }
}

impl ComponentScopeView {
    /// The shape of the scope.
    pub open spec fn shape(self) -> HookShape {
        HookShape {
            states: Seq::new(
                self.state_hooks.hooks.len(),
                |i: int| self.state_hooks.hooks[i].value.type_token,
            ),
            state_index: self.state_hooks.current_index as nat,
            refs: Seq::new(self.ref_hooks.hooks.len(), |i: int| self.ref_hooks.hooks[i].type_token),
            ref_index: self.ref_hooks.current_index as nat,
            contexts: Seq::new(
                self.context_hooks.hooks.len(),
                |i: int| self.context_hooks.hooks[i].type_token,
            ),
            context_index: self.context_hooks.current_index as nat,
            effects: Seq::new(
                self.effect_hooks.hooks.len(),
                |i: int| basis_type(self.effect_hooks.hooks[i]),
            ),
            effect_index: self.effect_hooks.current_index as nat,
            memos: Seq::new(
                self.memo_hooks.hooks.len(),
                |i: int| self.memo_hooks.hooks[i].cached_input.type_token,
            ),
            memo_index: self.memo_hooks.current_index as nat,
            has_init: self.has_init,
        }
    }
}

/// Shapes with the same types, positions and flag are the same shape.
pub proof fn lemma_same_shape(a: HookShape, b: HookShape)
    requires
        a.states =~= b.states,
        a.refs =~= b.refs,
        a.contexts =~= b.contexts,
        a.effects =~= b.effects,
        a.memos =~= b.memos,
        a.state_index == b.state_index,
        a.ref_index == b.ref_index,
        a.context_index == b.context_index,
        a.effect_index == b.effect_index,
        a.memo_index == b.memo_index,
        a.has_init == b.has_init,
    ensures
        a == b,
{
}

/// A hook was asked for that cannot be served.
#[derive(Clone, Copy, PartialEq, Eq, Structural, Debug)]
pub enum HookError {
    /// No provider of the requested type stands above the component.
    MissingProvider,
}

impl ComponentScope {
    /// Whether `use_state` with a value of type `token` may be called now.
    pub fn state_ready(&self, token: TypeToken) -> (r: bool)
        ensures
            r == self@.state_ready(token),
    {
        !self.has_init || (self.state_hooks.has_next()
            && self.state_hooks.hooks[self.state_hooks.current_index].value.type_token == token)
    }

    /// Whether `use_ref` for content of type `token` may be called now.
    pub fn ref_ready(&self, token: TypeToken) -> (r: bool)
        ensures
            r == self@.ref_ready(token),
    {
        !self.has_init || (self.ref_hooks.has_next()
            && self.ref_hooks.hooks[self.ref_hooks.current_index].type_token == token)
    }

    /// Whether `use_context` for type `token` may be called now.
    pub fn context_ready(&self, contexts: &ContextArena, token: TypeToken) -> (r: bool)
        ensures
            r == self@.context_ready(contexts@, token),
    {
        !self.has_init || (self.context_hooks.has_next()
            && self.context_hooks.hooks[self.context_hooks.current_index].type_token == token
            && self.context_hooks.hooks[self.context_hooks.current_index].context_node
            < contexts.len())
    }

    /// Whether `use_effect` with a basis of type `token` may be called now.
    pub fn effect_ready(&self, token: TypeToken) -> (r: bool)
        ensures
            r == self@.effect_ready(token),
    {
        if !self.has_init {
            return true;
        }
        if !self.effect_hooks.has_next() {
            return false;
        }
        match &self.effect_hooks.hooks[self.effect_hooks.current_index].basis {
            Some(basis) => basis.type_token == token,
            None => false,
        }
    }

    /// Whether `use_effect_always` may be called now.
    pub fn always_effect_ready(&self) -> (r: bool)
        ensures
            r == self@.always_effect_ready(),
    {
        !self.has_init || (self.effect_hooks.has_next()
            && self.effect_hooks.hooks[self.effect_hooks.current_index].basis.is_none())
    }

    /// Whether `use_memo` with an input of type `token` may be called now.
    pub fn memo_ready(&self, token: TypeToken) -> (r: bool)
        ensures
            r == self@.memo_ready(token),
    {
        !self.has_init || (self.memo_hooks.has_next()
            && self.memo_hooks.hooks[self.memo_hooks.current_index].cached_input.type_token
            == token)
    }

    /// A handle for the callback body `callback` of this component.
    pub fn use_callback(&self, callback: CallbackToken) -> (r: CallbackHandle)
        ensures
            r == (CallbackHandle { func: callback, renderer: self@.renderer, bound: None }),
    {
        CallbackHandle { func: callback, renderer: self.renderer, bound: None }
    }

    /// A handle for the callback body `callback` with `input` bound to it.
    /// The input is kept in the memo at this position, which is renewed only
    /// when `input` differs from the input of the last call.
    pub fn use_callback_memo(&mut self, callback: CallbackToken, input: Value) -> (r:
        CallbackHandle)
        requires
            old(self)@.memo_ready(input.type_token),
        ensures
            final(self)@.shape() == old(self)@.shape().served(HookRequest::Memo(input.type_token)),
            r == (CallbackHandle {
                func: callback,
                renderer: old(self)@.renderer,
                bound: Some(
                    if old(self)@.has_init {
                        old(self)@.memo_hooks.current_index
                    } else {
                        old(self)@.memo_hooks.hooks.len() as usize
                    },
                ),
            }),
            old(self)@.has_init && input@ == old(self)@.memo_hooks.next().cached_input@
                ==> final(self)@ == (ComponentScopeView {
                memo_hooks: old(self)@.memo_hooks.advanced(),
                ..old(self)@
            }),
            old(self)@.has_init && input@ != old(self)@.memo_hooks.next().cached_input@ ==> {
                let kept = final(self)@.memo_hooks.hooks[r.bound.unwrap() as int].cached_output;
                &&& kept@ == input@
                &&& final(self)@ == (ComponentScopeView {
                    memo_hooks: old(self)@.memo_hooks.advanced_with(
                        MemoStore { cached_output: kept, cached_input: input },
                    ),
                    ..old(self)@
                })
            },
            !old(self)@.has_init ==> {
                let kept = final(self)@.memo_hooks.hooks[r.bound.unwrap() as int].cached_output;
                &&& kept@ == input@
                &&& final(self)@ == (ComponentScopeView {
                    memo_hooks: old(self)@.memo_hooks.appended(
                        MemoStore { cached_output: kept, cached_input: input },
                    ),
                    ..old(self)@
                })
            },
    {
        let renderer = self.renderer;
        let slot = if self.has_init {
            self.memo_hooks.current_index
        } else {
            self.memo_hooks.hooks.len()
        };
        let keep = |bound: &Value| -> (kept: Value)
            ensures
                kept@ == bound@,
            { bound.duplicate() };
        let kept = self.use_memo(keep, input);
        CallbackHandle { func: callback, renderer, bound: Some(slot) }
    }

    /// The state cell at this position: on the first render a new cell that
    /// holds `default_value`; on later renders the stored value. The handle
    /// is the same on every render.
    pub fn use_state(&mut self, default_value: Value) -> (r: (Value, StateHandle))
        requires
            old(self)@.state_ready(default_value.type_token),
        ensures
            final(self)@.shape() == old(self)@.shape().served(
                HookRequest::State(default_value.type_token),
            ),
            old(self)@.has_init ==> {
                &&& r.0@ == old(self)@.state_hooks.next().value@
                &&& r.1 == old(self)@.state_hooks.next().handle
                &&& final(self)@ == (ComponentScopeView {
                    state_hooks: old(self)@.state_hooks.advanced(),
                    ..old(self)@
                })
            },
            !old(self)@.has_init ==> {
                &&& r.0@ == default_value@
                &&& r.1 == (StateHandle {
                    index: old(self)@.state_hooks.hooks.len() as usize,
                    type_token: default_value.type_token,
                })
                &&& final(self)@ == (ComponentScopeView {
                    state_hooks: old(self)@.state_hooks.appended(
                        StateStore { value: default_value, handle: r.1 },
                    ),
                    ..old(self)@
                })
            },
    {
        if self.has_init {
            let store = self.state_hooks.get();
            let value = store.value.duplicate();
            let handle = store.handle;
            proof {
                let list = old(self)@.state_hooks;
                assert(list.hooks.update(list.current_index as int, list.next()) =~= list.hooks);
                assert(list.hooks.len() == old(self).state_hooks.hooks.len());
                lemma_same_shape(
                    self@.shape(),
                    old(self)@.shape().served(HookRequest::State(default_value.type_token)),
                );
            }
            (value, handle)
        } else {
            let returned = default_value.duplicate();
            let store = StateStore::new(default_value, self.state_hooks.hooks.len());
            let handle = store.handle;
            self.state_hooks.hooks.push(store);
            proof {
                lemma_same_shape(
                    self@.shape(),
                    old(self)@.shape().served(HookRequest::State(default_value.type_token)),
                );
            }
            (returned, handle)
        }
    }

    /// The ref cell at this position: on the first render a new, empty
    /// cell; on later renders the same cell.
    pub fn use_ref(&mut self, type_token: TypeToken) -> (r: RefObject)
        requires
            old(self)@.ref_ready(type_token),
        ensures
            final(self)@.shape() == old(self)@.shape().served(HookRequest::Ref(type_token)),
            old(self)@.has_init ==> {
                &&& r == (RefObject {
                    renderer: old(self)@.renderer,
                    index: old(self)@.ref_hooks.current_index,
                    type_token,
                })
                &&& final(self)@ == (ComponentScopeView {
                    ref_hooks: old(self)@.ref_hooks.advanced(),
                    ..old(self)@
                })
            },
            !old(self)@.has_init ==> {
                &&& r == (RefObject {
                    renderer: old(self)@.renderer,
                    index: old(self)@.ref_hooks.hooks.len() as usize,
                    type_token,
                })
                &&& final(self)@ == (ComponentScopeView {
                    ref_hooks: old(self)@.ref_hooks.appended(RefSlot { value: None, type_token }),
                    ..old(self)@
                })
            },
    {
        if self.has_init {
            let index = self.ref_hooks.current_index;
            let _ = self.ref_hooks.get();
            proof {
                let list = old(self)@.ref_hooks;
                assert(list.hooks.update(list.current_index as int, list.next()) =~= list.hooks);
                assert(list.hooks.len() == old(self).ref_hooks.hooks.len());
                lemma_same_shape(
                    self@.shape(),
                    old(self)@.shape().served(HookRequest::Ref(type_token)),
                );
            }
            RefObject::new(self.renderer, index, type_token)
        } else {
            let handle = RefObject::new(self.renderer, self.ref_hooks.hooks.len(), type_token);
            self.ref_hooks.hooks.push(RefSlot { value: None, type_token });
            proof {
                lemma_same_shape(
                    self@.shape(),
                    old(self)@.shape().served(HookRequest::Ref(type_token)),
                );
            }
            handle
        }
    }

    /// The value of the nearest provider of type `type_token`. The first
    /// render finds the provider by walking the chain upward and subscribes
    /// this component's renderer to it; later renders read the same node
    /// again without walking.
    pub fn use_context(&mut self, contexts: &mut ContextArena, type_token: TypeToken) -> (r: Result<
        Value,
        HookError,
    >)
        requires
            old(self)@.context_ready(old(contexts)@, type_token),
        ensures
            r.is_ok() ==> final(self)@.shape() == old(self)@.shape().served(
                HookRequest::Context(type_token),
            ),
            old(self)@.has_init ==> {
                &&& r.is_ok()
                &&& r.unwrap()@ == old(contexts)@[old(self)@.context_hooks.next().context_node as int].value@
                &&& final(contexts)@ == old(contexts)@
                &&& final(self)@ == (ComponentScopeView {
                    context_hooks: old(self)@.context_hooks.advanced(),
                    ..old(self)@
                })
            },
            !old(self)@.has_init ==> match resolve_spec(
                old(contexts)@,
                old(self)@.context_link,
                type_token,
            ) {
                None => {
                    &&& r == Err::<Value, HookError>(HookError::MissingProvider)
                    &&& final(contexts)@ == old(contexts)@
                    &&& final(self)@ == old(self)@
                },
                Some(node) => {
                    &&& r.is_ok()
                    &&& r.unwrap()@ == old(contexts)@[node as int].value@
                    &&& final(contexts)@ == old(contexts)@.update(
                        node as int,
                        ContextNodeView {
                            renderers: old(contexts)@[node as int].renderers.push(
                                old(self)@.renderer,
                            ),
                            ..old(contexts)@[node as int]
                        },
                    )
                    &&& final(self)@ == (ComponentScopeView {
                        context_hooks: old(self)@.context_hooks.appended(
                            ContextConsumerHandle { context_node: node, type_token },
                        ),
                        ..old(self)@
                    })
                },
            },
    {
        if self.has_init {
            let handle = self.context_hooks.get();
            let value = contexts.value(handle.context_node).duplicate();
            proof {
                let list = old(self)@.context_hooks;
                assert(list.hooks.update(list.current_index as int, list.next()) =~= list.hooks);
                assert(list.hooks.len() == old(self).context_hooks.hooks.len());
                lemma_same_shape(
                    self@.shape(),
                    old(self)@.shape().served(HookRequest::Context(type_token)),
                );
            }
            Ok(value)
        } else {
            match contexts.resolve(self.context_link, type_token) {
                None => Err(HookError::MissingProvider),
                Some(node) => {
                    proof {
                        lemma_resolve_in_range(contexts@, self.context_link, type_token);
                    }
                    let value = contexts.value(node).duplicate();
                    contexts.subscribe(node, self.renderer);
                    self.context_hooks.hooks.push(
                        ContextConsumerHandle { context_node: node, type_token },
                    );
                    proof {
                        lemma_same_shape(
                            self@.shape(),
                            old(self)@.shape().served(HookRequest::Context(type_token)),
                        );
                    }
                    Ok(value)
                },
            }
        }
    }

    /// The effect at this position. The first render schedules it. A later
    /// render schedules it again, with the new body, only if `basis` differs
    /// from the basis of the last call; the cleanup of the last run stays on
    /// record until then.
    pub fn use_effect(&mut self, effect: EffectToken, basis: Value)
        requires
            old(self)@.effect_ready(basis.type_token),
        ensures
            final(self)@.shape() == old(self)@.shape().served(
                HookRequest::Effect(Some(basis.type_token)),
            ),
            final(self)@ == old(self)@.effect_requested(effect, basis),
    {
        if self.has_init {
            let hook = self.effect_hooks.get();
            let unchanged = match &hook.basis {
                Some(stored) => basis.same(stored),
                None => false,
            };
            if !unchanged {
                *hook = hook.update(effect, Some(basis));
            }
            proof {
                let list = old(self)@.effect_hooks;
                assert(list.hooks.update(list.current_index as int, list.next()) =~= list.hooks);
                assert(list.hooks.len() == old(self).effect_hooks.hooks.len());
                lemma_same_shape(
                    self@.shape(),
                    old(self)@.shape().served(HookRequest::Effect(Some(basis.type_token))),
                );
            }
        } else {
            self.effect_hooks.hooks.push(
                EffectStore { effect, cleanup: None, basis: Some(basis), pending_execution: true },
            );
            proof {
                lemma_same_shape(
                    self@.shape(),
                    old(self)@.shape().served(HookRequest::Effect(Some(basis.type_token))),
                );
            }
        }
    }

    /// The effect at this position, scheduled on every render.
    pub fn use_effect_always(&mut self, effect: EffectToken)
        requires
            old(self)@.always_effect_ready(),
        ensures
            final(self)@.shape() == old(self)@.shape().served(HookRequest::Effect(None)),
            old(self)@.has_init ==> final(self)@ == (ComponentScopeView {
                effect_hooks: old(self)@.effect_hooks.advanced_with(
                    EffectStore {
                        effect,
                        cleanup: old(self)@.effect_hooks.next().cleanup,
                        basis: None,
                        pending_execution: true,
                    },
                ),
                ..old(self)@
            }),
            !old(self)@.has_init ==> final(self)@ == (ComponentScopeView {
                effect_hooks: old(self)@.effect_hooks.appended(
                    EffectStore { effect, cleanup: None, basis: None, pending_execution: true },
                ),
                ..old(self)@
            }),
    {
        if self.has_init {
            let hook = self.effect_hooks.get();
            *hook = hook.update(effect, None);
        } else {
            self.effect_hooks.hooks.push(
                EffectStore { effect, cleanup: None, basis: None, pending_execution: true },
            );
        }
        proof {
            assert(old(self)@.effect_hooks.hooks.len() == old(self).effect_hooks.hooks.len());
            lemma_same_shape(
                self@.shape(),
                old(self)@.shape().served(HookRequest::Effect(None)),
            );
        }
    }

    /// The memo at this position: `factory` is called on the first render
    /// and whenever `input` differs from the input of the last call; the
    /// result is what was computed last.
    pub fn use_memo<F: FnOnce(&Value) -> Value>(&mut self, factory: F, input: Value) -> (r: &Value)
        requires
            old(self)@.memo_ready(input.type_token),
            call_requires(factory, (&input,)),
        ensures
            final(self)@.shape() == old(self)@.shape().served(HookRequest::Memo(input.type_token)),
            old(self)@.has_init && input@ == old(self)@.memo_hooks.next().cached_input@ ==> {
                &&& *r == old(self)@.memo_hooks.next().cached_output
                &&& final(self)@ == (ComponentScopeView {
                    memo_hooks: old(self)@.memo_hooks.advanced(),
                    ..old(self)@
                })
            },
            old(self)@.has_init && input@ != old(self)@.memo_hooks.next().cached_input@ ==> {
                &&& call_ensures(factory, (&input,), *r)
                &&& final(self)@ == (ComponentScopeView {
                    memo_hooks: old(self)@.memo_hooks.advanced_with(
                        MemoStore { cached_output: *r, cached_input: input },
                    ),
                    ..old(self)@
                })
            },
            !old(self)@.has_init ==> {
                &&& call_ensures(factory, (&input,), *r)
                &&& final(self)@ == (ComponentScopeView {
                    memo_hooks: old(self)@.memo_hooks.appended(
                        MemoStore { cached_output: *r, cached_input: input },
                    ),
                    ..old(self)@
                })
            },
    {
        if self.has_init {
            let index = self.memo_hooks.current_index;
            let hook = self.memo_hooks.get();
            if !input.same(&hook.cached_input) {
                hook.cached_output = factory(&input);
                hook.cached_input = input;
            }
            proof {
                let list = old(self)@.memo_hooks;
                assert(list.hooks.update(list.current_index as int, list.next()) =~= list.hooks);
                assert(list.hooks.len() == old(self).memo_hooks.hooks.len());
                lemma_same_shape(
                    self@.shape(),
                    old(self)@.shape().served(HookRequest::Memo(input.type_token)),
                );
            }
            &self.memo_hooks.hooks[index].cached_output
        } else {
            let cached_output = factory(&input);
            let index = self.memo_hooks.hooks.len();
            self.memo_hooks.hooks.push(MemoStore { cached_output, cached_input: input });
            proof {
                lemma_same_shape(
                    self@.shape(),
                    old(self)@.shape().served(HookRequest::Memo(input.type_token)),
                );
            }
            &self.memo_hooks.hooks[index].cached_output
        }
    }
}

impl ScopeView {
    /// The scope of a component that has not rendered yet.
    pub open spec fn fresh(renderer: RendererId, context_link: ContextLink) -> ScopeView {
        ScopeView {
            update_flag: false,
            component_scope: ComponentScopeView::fresh(renderer, context_link),
        }
    }

    /// Whether the cell at `index` exists and holds values of type `token`.
    pub open spec fn state_cell(self, index: usize, token: TypeToken) -> bool {
        index < self.component_scope.state_hooks.hooks.len()
            && self.component_scope.state_hooks.hooks[index as int].value.type_token == token
    }

    /// The scope after `value` was offered to the cell at `index`: equal to
    /// what is stored, nothing changes; otherwise the cell holds it and the
    /// scope asks for a re-render.
    pub open spec fn state_written(self, index: usize, value: Value) -> ScopeView {
        let cell = self.component_scope.state_hooks.hooks[index as int];
        if value@ == cell.value@ {
            self
        } else {
            ScopeView {
                update_flag: true,
                component_scope: ComponentScopeView {
                    state_hooks: HookListView {
                        hooks: self.component_scope.state_hooks.hooks.update(
                            index as int,
                            StateStore { value, ..cell },
                        ),
                        ..self.component_scope.state_hooks
                    },
                    ..self.component_scope
                },
            }
        }
    }
}

/// The cleanups that are due in `effects`, in the order of the effects.
pub open spec fn due_cleanups(effects: Seq<EffectStore>) -> Seq<EffectToken>
    decreases effects.len(),
{
    if effects.len() == 0 {
        Seq::empty()
    } else {
        let rest = due_cleanups(effects.drop_last());
        match effects.last().cleanup {
            Some(token) => rest.push(token),
            None => rest,
        }
    }
}

/// The providers after `renderer` ended the first `n` subscriptions of
/// `handles`.
pub open spec fn unsubscribed_all(
    nodes: Seq<ContextNodeView>,
    handles: Seq<ContextConsumerHandle>,
    renderer: RendererId,
    n: nat,
) -> Seq<ContextNodeView>
    decreases n,
{
    if n == 0 || n > handles.len() {
        nodes
    } else {
        unsubscribed(
            unsubscribed_all(nodes, handles, renderer, (n - 1) as nat),
            handles[n - 1].context_node,
            renderer,
        )
    }
}

impl Scope {
    /// The scope of a component that has not rendered yet: no hooks, not
    /// dirty.
    pub fn new(renderer: RendererId, context_link: ContextLink) -> (r: Scope)
        ensures
            r@ == ScopeView::fresh(renderer, context_link),
    {
        Scope {
            update_flag: false,
            component_scope: ComponentScope {
                renderer,
                context_link,
                state_hooks: HookList::new(),
                ref_hooks: HookList::new(),
                effect_hooks: HookList::new(),
                memo_hooks: HookList::new(),
                context_hooks: HookList::new(),
                has_init: false,
            },
        }
    }

    /// Clears every hook list; the next render is a first render again.
    pub fn reset(&mut self)
        ensures
            final(self)@ == (ScopeView {
                component_scope: old(self)@.component_scope.cleared(),
                ..old(self)@
            }),
    {
        self.component_scope.state_hooks.clear();
        self.component_scope.effect_hooks.clear();
        self.component_scope.memo_hooks.clear();
        self.component_scope.context_hooks.clear();
        self.component_scope.ref_hooks.clear();
        self.component_scope.has_init = false;
    }

    /// Asks for a re-render.
    pub fn mark_update(&mut self)
        ensures
            final(self)@ == (ScopeView { update_flag: true, ..old(self)@ }),
    {
        self.update_flag = true;
    }

    /// Withdraws the request for a re-render.
    pub fn clear_update(&mut self)
        ensures
            final(self)@ == (ScopeView { update_flag: false, ..old(self)@ }),
    {
        self.update_flag = false;
    }

    /// Whether the scope asks for a re-render.
    pub fn has_update(&self) -> (r: bool)
        ensures
            r == self@.update_flag,
    {
        self.update_flag
    }

    /// The effects of the scope, in hook order.
    pub fn effects_iter(&self) -> (r: &Vec<EffectStore>)
        ensures
            r@ == self@.component_scope.effect_hooks.hooks,
    {
        &self.component_scope.effect_hooks.hooks
    }

    /// The link under which the component stands.
    pub fn clone_context_link(&self) -> (r: ContextLink)
        ensures
            r == self@.component_scope.context_link,
    {
        self.component_scope.context_link
    }

    /// Begins a render: every hook list is read from its first hook.
    pub fn mark_start_render(&mut self)
        ensures
            final(self)@ == (ScopeView {
                component_scope: old(self)@.component_scope.rewound(),
                ..old(self)@
            }),
    {
        self.component_scope.state_hooks.current_index = 0;
        self.component_scope.effect_hooks.current_index = 0;
        self.component_scope.ref_hooks.current_index = 0;
        self.component_scope.context_hooks.current_index = 0;
        self.component_scope.memo_hooks.current_index = 0;
    }

    /// Ends a render: from now on hooks are served from storage.
    pub fn mark_end_render(&mut self)
        ensures
            final(self)@ == (ScopeView {
                component_scope: ComponentScopeView {
                    has_init: true,
                    ..old(self)@.component_scope
                },
                ..old(self)@
            }),
    {
        self.component_scope.has_init = true;
    }

    /// Whether the cell at `index` exists and holds values of type `token`.
    pub fn has_state_cell(&self, index: usize, token: TypeToken) -> (r: bool)
        ensures
            r == self@.state_cell(index, token),
    {
        index < self.component_scope.state_hooks.hooks.len()
            && self.component_scope.state_hooks.hooks[index].value.type_token == token
    }

    /// Offers the value that `mapper` makes of the stored one to the cell at
    /// `index`.
    pub fn update_state_map<F: FnOnce(&Value) -> Value>(&mut self, index: usize, mapper: F)
        requires
            index < old(self)@.component_scope.state_hooks.hooks.len(),
            call_requires(
                mapper,
                (&old(self)@.component_scope.state_hooks.hooks[index as int].value,),
            ),
            forall|v: Value|
                call_ensures(
                    mapper,
                    (&old(self)@.component_scope.state_hooks.hooks[index as int].value,),
                    v,
                ) ==> v.type_token
                    == old(self)@.component_scope.state_hooks.hooks[index as int].value.type_token,
        ensures
            exists|v: Value|
                call_ensures(
                    mapper,
                    (&old(self)@.component_scope.state_hooks.hooks[index as int].value,),
                    v,
                ) && final(self)@ == old(self)@.state_written(index, v),
    {
        let new_value = mapper(&self.component_scope.state_hooks.hooks[index].value);
        assert(call_ensures(
            mapper,
            (&old(self)@.component_scope.state_hooks.hooks[index as int].value,),
            new_value,
        ));
        self.update_state(index, new_value);
    }

    /// Offers `new_value` to the cell at `index`: a value equal to the
    /// stored one changes nothing; any other is stored and marks the scope
    /// for a re-render.
    pub fn update_state(&mut self, index: usize, new_value: Value)
        requires
            old(self)@.state_cell(index, new_value.type_token),
        ensures
            final(self)@ == old(self)@.state_written(index, new_value),
    {
        if !new_value.same(&self.component_scope.state_hooks.hooks[index].value) {
            self.mark_update();
            self.component_scope.state_hooks.hooks[index].value = new_value;
        }
    }

    /// Ends the life of the hooks: hands out the cleanups that are due, in
    /// hook order, drops the effects, and ends every context subscription.
    pub fn cleanup(&mut self, contexts: &mut ContextArena) -> (due: Vec<EffectToken>)
        ensures
            due@ == due_cleanups(old(self)@.component_scope.effect_hooks.hooks),
            final(self)@ == (ScopeView {
                component_scope: ComponentScopeView {
                    effect_hooks: HookListView {
                        hooks: Seq::empty(),
                        ..old(self)@.component_scope.effect_hooks
                    },
                    ..old(self)@.component_scope
                },
                ..old(self)@
            }),
            final(contexts)@ == unsubscribed_all(
                old(contexts)@,
                old(self)@.component_scope.context_hooks.hooks,
                old(self)@.component_scope.renderer,
                old(self)@.component_scope.context_hooks.hooks.len(),
            ),
    {
        let mut due: Vec<EffectToken> = Vec::new();
        let mut i: usize = 0;
        while i < self.component_scope.effect_hooks.hooks.len()
            invariant
                *self == *old(self),
                i <= self.component_scope.effect_hooks.hooks@.len(),
                due@ == due_cleanups(self.component_scope.effect_hooks.hooks@.take(i as int)),
            decreases self.component_scope.effect_hooks.hooks@.len() - i,
        {
            proof {
                let effects = self.component_scope.effect_hooks.hooks@;
                assert(effects.take(i + 1).drop_last() =~= effects.take(i as int));
            }
            match self.component_scope.effect_hooks.hooks[i].cleanup {
                Some(token) => {
                    due.push(token);
                },
                None => {},
            }
            i += 1;
        }
        proof {
            let effects = self.component_scope.effect_hooks.hooks@;
            assert(effects.take(i as int) =~= effects);
        }
        self.component_scope.effect_hooks.hooks.clear();
        let mut k: usize = 0;
        while k < self.component_scope.context_hooks.hooks.len()
            invariant
                self.component_scope.context_hooks == old(self).component_scope.context_hooks,
                self.component_scope.renderer == old(self).component_scope.renderer,
                k <= self.component_scope.context_hooks.hooks@.len(),
                contexts@ == unsubscribed_all(
                    old(contexts)@,
                    self.component_scope.context_hooks.hooks@,
                    self.component_scope.renderer,
                    k as nat,
                ),
            decreases self.component_scope.context_hooks.hooks@.len() - k,
        {
            let handle = self.component_scope.context_hooks.hooks[k];
            handle.cleanup(contexts, self.component_scope.renderer);
            k += 1;
        }
        due
    }
}

} // verus!
