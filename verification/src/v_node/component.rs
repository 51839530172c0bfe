//! Component descriptors: a model and the way to render it.

use vstd::prelude::*;
use crate::scope::context::ContextArena;
use crate::scope::ref_object::NilRef;
use crate::scope::scope::{ComponentScope, ComponentScopeView, Scope};
use crate::v_node::node_comparison::NodeComparisonResult;
use crate::v_node::v_node::VNode;
use crate::value::TypeToken;

verus! {

/// What a component author provides: the type of the component, equality
/// of models, and the render function. A render function asks its scope for
/// hooks, in the same order on every render.
pub trait ComponentModel<N>: Sized {
    /// The type of the component. Reconciliation goes by it, not by the
    /// instance.
    open spec fn type_token_spec(&self) -> TypeToken {
        arbitrary()
    }

    /// Whether two models of the same type are equal.
    open spec fn same_spec(&self, other: &Self) -> bool {
        arbitrary()
    }

    fn type_token(&self) -> (t: TypeToken)
        ensures
            t == self.type_token_spec(),
    ;

    fn same(&self, other: &Self) -> (r: bool)
        ensures
            r == self.same_spec(other),
    ;

    fn render(&self, scope: &mut ComponentScope, contexts: &mut ContextArena, self_ref: &NilRef)
        -> VNode<N, Self>;

    /// The name of the component, for those who read logs. A model that
    /// gives itself no name is called a component.
    fn name(&self) -> (r: &'static str)
        default_ensures
            r@ == "component"@,
    {
        "component"
    }
}

/// A component as it stands in a node: its model and the ref that its
/// parent handed down.
pub struct VComponentElement<N, M> {
    pub component_model: M,
    pub ref_object: NilRef,
    pub phantom: std::marker::PhantomData<N>,
}

/// How component `new` relates to the mounted `old`: another type, the same
/// type with an equal model, or the same type with another model.
pub open spec fn compare_models<N, M: ComponentModel<N>>(new: M, old: M) -> NodeComparisonResult {
    if new.type_token_spec() != old.type_token_spec() {
        NodeComparisonResult::DifferentType
    } else if old.same_spec(&new) {
        NodeComparisonResult::Equal
    } else {
        NodeComparisonResult::SameType
    }
}

impl<N, M: ComponentModel<N>> VComponentElement<N, M> {
    /// The element for `model` with the ref that the parent hands down.
    pub fn new(model: M, ref_object: NilRef) -> (r: VComponentElement<N, M>)
        ensures
            r.component_model == model,
            r.ref_object == ref_object,
    {
        VComponentElement { component_model: model, ref_object, phantom: std::marker::PhantomData }
    }

    /// Runs the render function of the model between the marks of a
    /// render: every hook list is read from its start, and the scope has
    /// rendered afterwards. The node, the hooks and the providers are what
    /// the render function made of them. The dirty flag is out of the
    /// render function's reach.
    pub fn render(&self, scope: &mut Scope, contexts: &mut ContextArena) -> (node: VNode<N, M>)
        ensures
            final(scope)@.update_flag == old(scope)@.update_flag,
            exists|given: &mut ComponentScope, arena: &mut ContextArena|
                {
                    &&& (*given)@ == old(scope)@.component_scope.rewound()
                    &&& (*arena)@ == old(contexts)@
                    &&& #[trigger] call_ensures(
                        M::render,
                        (&self.component_model, given, arena, &self.ref_object),
                        node,
                    )
                    &&& final(contexts)@ == (*final(arena))@
                    &&& final(scope)@.component_scope == (ComponentScopeView {
                        has_init: true,
                        ..(*final(given))@
                    })
                },
    {
        scope.mark_start_render();
        let result = self.component_model.render(
            &mut scope.component_scope,
            contexts,
            &self.ref_object,
        );
        scope.mark_end_render();
        result
    }

    /// Holds this element against the mounted `other`.
    pub fn compare(&self, other: &VComponentElement<N, M>) -> (r: NodeComparisonResult)
        ensures
            r == compare_models::<N, M>(self.component_model, other.component_model),
    {
        if self.component_model.type_token() != other.component_model.type_token() {
            NodeComparisonResult::DifferentType
        } else if other.component_model.same(&self.component_model) {
            NodeComparisonResult::Equal
        } else {
            NodeComparisonResult::SameType
        }
    }

    /// The name that the model gives itself.
    pub fn name(&self) -> (r: &'static str)
        ensures
            call_ensures(M::name, (&self.component_model,), r),
    {
        self.component_model.name()
    }
}

} // verus!
