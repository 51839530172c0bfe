//! State cells and the handles that address them.

use vstd::prelude::*;
use crate::scope::scope::Scope;
use crate::value::{TypeToken, Value};

verus! {

/// Addresses one state cell of a scope by its position in render order.
/// The handle stays the same over all renders of the component.
#[derive(Clone, Copy, PartialEq, Eq, Structural, Debug)]
pub struct StateHandle {
    pub index: usize,
    pub type_token: TypeToken,
}

impl StateHandle {
    /// Offers the value that `mapper` makes of the stored one to the cell.
    pub fn update_map<F: FnOnce(&Value) -> Value>(&self, scope: &mut Scope, mapper: F)
        requires
            self.index < old(scope)@.component_scope.state_hooks.hooks.len(),
            call_requires(
                mapper,
                (&old(scope)@.component_scope.state_hooks.hooks[self.index as int].value,),
            ),
            forall|v: Value|
                call_ensures(
                    mapper,
                    (&old(scope)@.component_scope.state_hooks.hooks[self.index as int].value,),
                    v,
                ) ==> v.type_token
                    == old(scope)@.component_scope.state_hooks.hooks[self.index as int].value.type_token,
        ensures
            exists|v: Value|
                call_ensures(
                    mapper,
                    (&old(scope)@.component_scope.state_hooks.hooks[self.index as int].value,),
                    v,
                ) && final(scope)@ == old(scope)@.state_written(self.index, v),
    {
        scope.update_state_map(self.index, mapper)
    }

    /// Offers `new_value` to the cell: a value equal to the stored one
    /// changes nothing; any other is stored and marks the scope for a
    /// re-render.
    pub fn update(&self, scope: &mut Scope, new_value: Value)
        requires
            old(scope)@.state_cell(self.index, new_value.type_token),
        ensures
            final(scope)@ == old(scope)@.state_written(self.index, new_value),
    {
        scope.update_state(self.index, new_value)
    }
}

/// A state cell: the current value and the handle that was given out for it.
pub struct StateStore {
    pub value: Value,
    pub handle: StateHandle,
}

impl StateStore {
    /// The cell at `index` with `value` in it, and its handle.
    pub fn new(value: Value, index: usize) -> (r: StateStore)
        ensures
            r.value == value,
            r.handle == (StateHandle { index, type_token: value.type_token }),
    {
        let type_token = value.type_token;
        StateStore { value, handle: StateHandle { index, type_token } }
    }
}

} // verus!
