//! Ref cells: storage that a component writes by hand and that never asks
//! for a re-render.

use vstd::prelude::*;
use crate::scope::renderer::RendererId;
use crate::scope::scope::{ComponentScopeView, HookListView, Scope, ScopeView};
use crate::value::{TypeToken, Value};

verus! {

/// A ref cell of a scope: empty until the component fills it.
pub struct RefSlot {
    pub value: Option<Value>,
    pub type_token: TypeToken,
}

/// The identity of a ref cell: the renderer that owns it and its position
/// in render order. Two handles are equal when they name the same cell.
#[derive(Clone, Copy, PartialEq, Eq, Structural, Debug)]
pub struct RefObject {
    pub renderer: RendererId,
    pub index: usize,
    pub type_token: TypeToken,
}

/// A ref that may be absent.
pub type NilRef = Option<RefObject>;

/// What is known of a ref cell whatever it holds: the type of its content.
pub trait RefObjectT {
    spec fn token(&self) -> TypeToken;

    fn type_token(&self) -> (t: TypeToken)
        ensures
            t == self.token(),
    ;
}

impl RefObjectT for RefObject {
    open spec fn token(&self) -> TypeToken {
        self.type_token
    }

    fn type_token(&self) -> (t: TypeToken) {
        self.type_token
    }
}

impl RefObjectT for RefSlot {
    open spec fn token(&self) -> TypeToken {
        self.type_token
    }

    fn type_token(&self) -> (t: TypeToken) {
        self.type_token
    }
}

impl ScopeView {
    /// Whether `handle` names a cell of this scope.
    pub open spec fn ref_cell(self, handle: RefObject) -> bool {
        handle.renderer == self.component_scope.renderer && handle.index
            < self.component_scope.ref_hooks.hooks.len()
            && self.component_scope.ref_hooks.hooks[handle.index as int].type_token
            == handle.type_token
    }

    /// The scope with `value` in the cell at `index`; nothing else changes,
    /// the dirty flag included.
    pub open spec fn ref_written(self, index: usize, value: Option<Value>) -> ScopeView {
        ScopeView {
            component_scope: ComponentScopeView {
                ref_hooks: HookListView {
                    hooks: self.component_scope.ref_hooks.hooks.update(
                        index as int,
                        RefSlot {
                            value,
                            ..self.component_scope.ref_hooks.hooks[index as int]
                        },
                    ),
                    ..self.component_scope.ref_hooks
                },
                ..self.component_scope
            },
            ..self
        }
    }
}

impl RefObject {
    /// The handle of the ref cell at `index` of the scope of `renderer`.
    pub fn new(renderer: RendererId, index: usize, type_token: TypeToken) -> (r: RefObject)
        ensures
            r == (RefObject { renderer, index, type_token }),
    {
        RefObject { renderer, index, type_token }
    }

    /// Whether the handle names a cell of `scope`.
    pub fn belongs_to(&self, scope: &Scope) -> (r: bool)
        ensures
            r == scope@.ref_cell(*self),
    {
        self.renderer == scope.component_scope.renderer && self.index
            < scope.component_scope.ref_hooks.hooks.len()
            && scope.component_scope.ref_hooks.hooks[self.index].type_token == self.type_token
    }

    /// Access to the content of the cell. What the caller writes through
    /// the reference is stored; the scope is not marked for a re-render.
    pub fn borrow_mut<'a>(&self, scope: &'a mut Scope) -> (content: &'a mut Option<Value>)
        requires
            old(scope)@.ref_cell(*self),
        ensures
            *content == old(scope)@.component_scope.ref_hooks.hooks[self.index as int].value,
            final(scope)@ == old(scope)@.ref_written(self.index, *final(content)),
    {
        &mut scope.component_scope.ref_hooks.hooks[self.index].value
    }

    /// Stores `value` in the cell. The scope is not marked for a re-render.
    pub fn replace(&self, scope: &mut Scope, value: Option<Value>)
        requires
            old(scope)@.ref_cell(*self),
        ensures
            final(scope)@ == old(scope)@.ref_written(self.index, value),
    {
        scope.component_scope.ref_hooks.hooks[self.index].value = value;
    }
}

} // verus!
