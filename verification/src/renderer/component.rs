//! Mounted components.

use vstd::prelude::*;
use crate::renderer::mount::{Mount, MountView};
use crate::renderer::native::{FactoryId, NativeOp};
use crate::renderer::order::law_rerender_keeps_order;
use crate::renderer::runtime::Runtime;
use crate::renderer::world::{ComponentView, RenderStep, World};
use crate::scope::context::{ContextArena, ContextLink};
use crate::scope::renderer::RendererId;
use crate::scope::scope::{ComponentScope, ComponentScopeView, Scope, ScopeView};
use crate::v_node::component::{ComponentModel, VComponentElement};
use crate::v_node::node_comparison::NodeComparisonResult;
use crate::v_node::v_node::VNode;

verus! {

/// A mounted component: its scope, the element it was last given, what its
/// last render mounted, and the sibling list in which its own list stands.
pub struct ComponentMount<N, M> {
    pub scope: Scope,
    pub element: VComponentElement<N, M>,
    pub content: Option<Mount>,
    pub native_mount_factory: FactoryId,
}

impl<N, M> View for ComponentMount<N, M> {
    type V = ComponentView<N, M>;

    open spec fn view(&self) -> ComponentView<N, M> {
        ComponentView {
            scope: self.scope@,
            element: self.element,
            content: match self.content {
                Some(mount) => Some(mount@),
                None => None,
            },
            native_mount_factory: self.native_mount_factory,
        }
    }
}

impl<N, M: ComponentModel<N>> ComponentMount<N, M> {
    /// Mounts a component for `element` and renders it at once: the
    /// component gets a slot with an empty scope, its sibling list is
    /// opened, its render function is called, what came back is mounted, and
    /// the effects of the render are handed to the host. The components
    /// that the render mounts are set up and queued: the next flush renders
    /// them.
    pub fn new(
        element: VComponentElement<N, M>,
        context_link: ContextLink,
        native_mount_factory: FactoryId,
        rt: &mut Runtime<N, M>,
    ) -> (id: RendererId)
        ensures
            id == old(rt)@.components.len(),
            exists|step: RenderStep<N, M>, given: &mut ComponentScope, arena: &mut ContextArena|
                {
                    &&& old(rt)@.component_created(
                        element,
                        context_link,
                        native_mount_factory,
                    ).renders(id, step)
                    &&& (*given)@ == step.hooks.rewound()
                    &&& (*arena)@ == step.providers
                    &&& #[trigger] call_ensures(
                        M::render,
                        (&step.element.component_model, given, arena, &step.element.ref_object),
                        step.node,
                    )
                    &&& step.contexts == (*final(arena))@
                    &&& step.scope.component_scope == (ComponentScopeView {
                        has_init: true,
                        ..(*final(given))@
                    })
                    &&& final(rt)@ == old(rt)@.component_created(
                        element,
                        context_link,
                        native_mount_factory,
                    ).rerendered_with(id, step).effects_run(id)
                },
            final(rt)@.components.len() > old(rt)@.components.len(),
            final(rt)@.live(id),
            final(rt)@.components[id as int].unwrap().element == element,
            !final(rt)@.components[id as int].unwrap().scope.update_flag,
            final(rt)@.components[id as int].unwrap().scope.component_scope.has_init,
            final(rt)@.components[id as int].unwrap().content.is_some(),
    {
        let id = rt.components.len();
        let scope = Scope::new(id, context_link);
        let added = rt.add_component(
            ComponentMount { scope, element, content: None, native_mount_factory },
        );
        rt.emit(
            NativeOp::MakeFactory {
                parent: native_mount_factory,
                factory: FactoryId::Component(id),
            },
        );
        assert(rt@ == old(rt)@.component_created(element, context_link, native_mount_factory));
        let _ = Self::rerender(id, rt);
        rt.run_effects(id);
        id
    }

    /// Sets up a component for `element` while a tree is mounted: it gets a
    /// slot with an empty scope, its sibling list is opened, and it is
    /// marked dirty and queued: the flush makes its first render.
    pub fn mount_in_batch(
        element: VComponentElement<N, M>,
        context_link: ContextLink,
        native_mount_factory: FactoryId,
        rt: &mut Runtime<N, M>,
    ) -> (id: RendererId)
        ensures
            (final(rt)@, MountView::Component(id)) == old(rt)@.mounted(
                VNode::Component(element),
                context_link,
                native_mount_factory,
            ),
            final(rt)@.components.len() >= old(rt)@.components.len(),
    {
        let id = rt.components.len();
        let mut scope = Scope::new(id, context_link);
        scope.mark_update();
        let added = rt.add_component(
            ComponentMount { scope, element, content: None, native_mount_factory },
        );
        let _ = rt.updater.mark_update(id);
        rt.emit(
            NativeOp::MakeFactory {
                parent: native_mount_factory,
                factory: FactoryId::Component(id),
            },
        );
        id
    }

    /// Gives the mounted component `id` the new `element` and renders it at
    /// once. A model equal to the one on record changes nothing, and nothing
    /// is rendered. Another model of the same type is put on record, and the
    /// render function is called on the hooks as they stand. Another type
    /// tears down what the component mounted, ends and clears its scope, and
    /// the render function of the new type is called on the empty scope.
    /// What came back is reconciled with the content, and the effects of
    /// the render are handed to the host. The components that the render
    /// mounts or gives another model are queued: the next flush renders
    /// them.
    pub fn update(id: RendererId, element: VComponentElement<N, M>, rt: &mut Runtime<N, M>)
        ensures
            !old(rt)@.needs_render(id, element) ==> final(rt)@ == old(rt)@,
            old(rt)@.needs_render(id, element) ==> exists|
                step: RenderStep<N, M>,
                given: &mut ComponentScope,
                arena: &mut ContextArena,
            |
                {
                    &&& old(rt)@.component_recorded(id, element).renders(id, step)
                    &&& (*given)@ == step.hooks.rewound()
                    &&& (*arena)@ == step.providers
                    &&& #[trigger] call_ensures(
                        M::render,
                        (&step.element.component_model, given, arena, &step.element.ref_object),
                        step.node,
                    )
                    &&& step.contexts == (*final(arena))@
                    &&& step.scope.component_scope == (ComponentScopeView {
                        has_init: true,
                        ..(*final(given))@
                    })
                    &&& final(rt)@ == old(rt)@.component_recorded(id, element).rerendered_with(
                        id,
                        step,
                    ).effects_run(id)
                },
            old(rt)@.needs_render(id, element) ==> {
                &&& final(rt)@.live(id)
                &&& final(rt)@.components[id as int].unwrap().element == element
                &&& !final(rt)@.components[id as int].unwrap().scope.update_flag
                &&& final(rt)@.components[id as int].unwrap().scope.component_scope.has_init
                &&& final(rt)@.components[id as int].unwrap().content.is_some()
            },
            final(rt)@.components.len() >= old(rt)@.components.len(),
    {
        if Self::record(id, element, rt) {
            let _ = Self::rerender(id, rt);
            rt.run_effects(id);
        }
    }

    /// Gives the mounted component `id` the newly rendered `element` while
    /// a tree is reconciled: the element is put on record, and a component
    /// that has to render is marked dirty and queued.
    pub fn update_in_batch(id: RendererId, element: VComponentElement<N, M>, rt: &mut Runtime<N, M>)
        ensures
            final(rt)@ == old(rt)@.component_updated(id, element),
            final(rt)@.components.len() >= old(rt)@.components.len(),
    {
        if Self::record(id, element, rt) {
            rt.mark_dirty(id);
        }
    }

    /// Puts the new `element` on record for the mounted component `id`, and
    /// says whether the component has to render: it has unless the model is
    /// equal to the one on record.
    pub fn record(id: RendererId, element: VComponentElement<N, M>, rt: &mut Runtime<N, M>) -> (changed:
        bool)
        ensures
            final(rt)@ == old(rt)@.component_recorded(id, element),
            changed == old(rt)@.needs_render(id, element),
            changed ==> final(rt)@.live(id) && final(rt)@.components[id as int].unwrap().element
                == element,
            final(rt)@.components.len() >= old(rt)@.components.len(),
    {
        match rt.take_component(id) {
            None => {
                assert(rt@.components =~= old(rt)@.components);
                false
            },
            Some(mut component) => {
                match element.compare(&component.element) {
                    NodeComparisonResult::Equal => {
                        rt.put_component(id, component);
                        assert(rt@.components =~= old(rt)@.components);
                        false
                    },
                    NodeComparisonResult::SameType => {
                        component.element = element;
                        rt.put_component(id, component);
                        assert(rt@.components =~= old(rt)@.components.update(
                            id as int,
                            Some(component@),
                        ));
                        true
                    },
                    NodeComparisonResult::DifferentType => {
                        match component.content.take() {
                            Some(content) => {
                                let limit = rt.components.len();
                                assert(rt@.components.len() == rt.components@.len());
                                assert(id < limit);
                                content.unmount_within(rt, id + 1, limit);
                            },
                            None => {},
                        }
                        rt.end_scope(&mut component.scope);
                        component.scope.reset();
                        component.element = element;
                        rt.put_component(id, component);
                        true
                    },
                }
            },
        }
    }

    /// Puts the component `id`, which was taken out of its slot to render,
    /// back with what its render produced.
    pub fn commit(id: RendererId, component: ComponentMount<N, M>, node: VNode<N, M>, rt: &mut Runtime<N, M>)
        requires
            id < old(rt)@.components.len(),
        ensures
            final(rt)@ == old(rt)@.committed(id, component@, node),
            final(rt)@.components.len() >= old(rt)@.components.len(),
            final(rt)@.live(id),
            final(rt)@.components[id as int].unwrap().scope == component@.scope,
            final(rt)@.components[id as int].unwrap().element == component@.element,
            final(rt)@.components[id as int].unwrap().content.is_some(),
    {
        let mut component = component;
        let own = FactoryId::Component(id);
        let content = match component.content.take() {
            Some(mount) => mount.update(node, own, rt),
            None => Mount::new(node, component.scope.clone_context_link(), own, rt),
        };
        component.content = Some(content);
        rt.put_component(id, component);
    }

    /// Renders the component `id`, if it is mounted, and reconciles what it
    /// mounted with the result; the second part of the result is the render
    /// that was made. The render function of the element on record is
    /// called with the scope rewound and no longer dirty; the scope and the
    /// providers are what it left of them, and the runtime is what the
    /// commit makes of the node that came back.
    pub(crate) fn render_traced(id: RendererId, rt: &mut Runtime<N, M>) -> (r: (
        bool,
        Ghost<RenderStep<N, M>>,
    ))
        ensures
            r.0 == old(rt)@.live(id),
            !r.0 ==> final(rt)@ == old(rt)@,
            r.0 ==> exists|given: &mut ComponentScope, arena: &mut ContextArena|
                {
                    &&& old(rt)@.renders(id, r.1@)
                    &&& (*given)@ == r.1@.hooks.rewound()
                    &&& (*arena)@ == r.1@.providers
                    &&& #[trigger] call_ensures(
                        M::render,
                        (&r.1@.element.component_model, given, arena, &r.1@.element.ref_object),
                        r.1@.node,
                    )
                    &&& r.1@.contexts == (*final(arena))@
                    &&& r.1@.scope.component_scope == (ComponentScopeView {
                        has_init: true,
                        ..(*final(given))@
                    })
                    &&& final(rt)@ == old(rt)@.rerendered_with(id, r.1@)
                },
            r.0 ==> {
                &&& final(rt)@.live(id)
                &&& !final(rt)@.components[id as int].unwrap().scope.update_flag
                &&& final(rt)@.components[id as int].unwrap().scope.component_scope.has_init
                &&& final(rt)@.components[id as int].unwrap().element
                    == old(rt)@.components[id as int].unwrap().element
                &&& final(rt)@.components[id as int].unwrap().content.is_some()
            },
            final(rt)@.components.len() >= old(rt)@.components.len(),
            old(rt)@.ordered() ==> final(rt)@.ordered(),
    {
        match rt.take_component(id) {
            None => {
                assert(rt@.components =~= old(rt)@.components);
                (false, Ghost(arbitrary()))
            },
            Some(mut component) => {
                component.scope.clear_update();
                rt.emit(NativeOp::ResetScanner { factory: FactoryId::Component(id) });
                let ghost was = old(rt)@.components[id as int].unwrap();
                let node = component.element.render(&mut component.scope, &mut rt.contexts);
                let ghost scope = component.scope@;
                let ghost contexts = rt@.contexts;
                let ghost step = RenderStep {
                    element: was.element,
                    hooks: was.scope.component_scope,
                    providers: old(rt)@.contexts,
                    scope,
                    contexts,
                    node,
                };
                assert(rt@ == old(rt)@.rendering(id, contexts));
                assert(component@ == (ComponentView { scope, ..was }));
                assert(old(rt)@.renders(id, step));
                Self::commit(id, component, node, rt);
                assert(rt@ == old(rt)@.rerendered_with(id, step));
                proof {
                    assert(rt@.components.len() == rt.components.len());
                    if old(rt)@.ordered() {
                        law_rerender_keeps_order(old(rt)@, id, step);
                    }
                }
                (true, Ghost(step))
            },
        }
    }

    /// Renders the component `id`, if it is mounted, and reconciles what it
    /// mounted with the result. The render function of the element on
    /// record is called with the scope rewound and no longer dirty; the
    /// scope and the providers are what it left of them, and the runtime is
    /// what the commit makes of the node that came back.
    pub fn rerender(id: RendererId, rt: &mut Runtime<N, M>) -> (rendered: bool)
        ensures
            rendered == old(rt)@.live(id),
            !rendered ==> final(rt)@ == old(rt)@,
            rendered ==> exists|
                step: RenderStep<N, M>,
                given: &mut ComponentScope,
                arena: &mut ContextArena,
            |
                {
                    &&& old(rt)@.renders(id, step)
                    &&& (*given)@ == step.hooks.rewound()
                    &&& (*arena)@ == step.providers
                    &&& #[trigger] call_ensures(
                        M::render,
                        (&step.element.component_model, given, arena, &step.element.ref_object),
                        step.node,
                    )
                    &&& step.contexts == (*final(arena))@
                    &&& step.scope.component_scope == (ComponentScopeView {
                        has_init: true,
                        ..(*final(given))@
                    })
                    &&& final(rt)@ == old(rt)@.rerendered_with(id, step)
                },
            rendered ==> {
                &&& final(rt)@.live(id)
                &&& !final(rt)@.components[id as int].unwrap().scope.update_flag
                &&& final(rt)@.components[id as int].unwrap().scope.component_scope.has_init
                &&& final(rt)@.components[id as int].unwrap().element
                    == old(rt)@.components[id as int].unwrap().element
                &&& final(rt)@.components[id as int].unwrap().content.is_some()
            },
            final(rt)@.components.len() >= old(rt)@.components.len(),
            old(rt)@.ordered() ==> final(rt)@.ordered(),
    {
        let (rendered, _) = Self::render_traced(id, rt);
        rendered
    }

    /// Re-renders the component `id` if it is mounted and asks for it; the
    /// second part of the result is the render that was made.
    pub(crate) fn consume_traced(id: RendererId, rt: &mut Runtime<N, M>) -> (r: (
        bool,
        Ghost<RenderStep<N, M>>,
    ))
        ensures
            r.0 == old(rt)@.wants_render(id),
            !r.0 ==> final(rt)@ == old(rt)@,
            r.0 ==> exists|given: &mut ComponentScope, arena: &mut ContextArena|
                {
                    &&& old(rt)@.renders(id, r.1@)
                    &&& (*given)@ == r.1@.hooks.rewound()
                    &&& (*arena)@ == r.1@.providers
                    &&& #[trigger] call_ensures(
                        M::render,
                        (&r.1@.element.component_model, given, arena, &r.1@.element.ref_object),
                        r.1@.node,
                    )
                    &&& r.1@.contexts == (*final(arena))@
                    &&& r.1@.scope.component_scope == (ComponentScopeView {
                        has_init: true,
                        ..(*final(given))@
                    })
                    &&& final(rt)@ == old(rt)@.rerendered_with(id, r.1@)
                },
            r.0 ==> {
                &&& final(rt)@.live(id)
                &&& !final(rt)@.components[id as int].unwrap().scope.update_flag
                &&& final(rt)@.components[id as int].unwrap().scope.component_scope.has_init
                &&& final(rt)@.components[id as int].unwrap().element
                    == old(rt)@.components[id as int].unwrap().element
                &&& final(rt)@.components[id as int].unwrap().content.is_some()
            },
            final(rt)@.components.len() >= old(rt)@.components.len(),
            old(rt)@.ordered() ==> final(rt)@.ordered(),
    {
        let wanted = id < rt.components.len() && match &rt.components[id] {
            Some(component) => component.scope.has_update(),
            None => false,
        };
        if wanted {
            Self::render_traced(id, rt)
        } else {
            (false, Ghost(arbitrary()))
        }
    }

    /// Re-renders the component `id` if it is mounted and asks for it.
    pub fn consume_update(id: RendererId, rt: &mut Runtime<N, M>) -> (rendered: bool)
        ensures
            rendered == old(rt)@.wants_render(id),
            !rendered ==> final(rt)@ == old(rt)@,
            rendered ==> exists|
                step: RenderStep<N, M>,
                given: &mut ComponentScope,
                arena: &mut ContextArena,
            |
                {
                    &&& old(rt)@.renders(id, step)
                    &&& (*given)@ == step.hooks.rewound()
                    &&& (*arena)@ == step.providers
                    &&& #[trigger] call_ensures(
                        M::render,
                        (&step.element.component_model, given, arena, &step.element.ref_object),
                        step.node,
                    )
                    &&& step.contexts == (*final(arena))@
                    &&& step.scope.component_scope == (ComponentScopeView {
                        has_init: true,
                        ..(*final(given))@
                    })
                    &&& final(rt)@ == old(rt)@.rerendered_with(id, step)
                },
            rendered ==> {
                &&& final(rt)@.live(id)
                &&& !final(rt)@.components[id as int].unwrap().scope.update_flag
                &&& final(rt)@.components[id as int].unwrap().scope.component_scope.has_init
                &&& final(rt)@.components[id as int].unwrap().element
                    == old(rt)@.components[id as int].unwrap().element
                &&& final(rt)@.components[id as int].unwrap().content.is_some()
            },
            final(rt)@.components.len() >= old(rt)@.components.len(),
            old(rt)@.ordered() ==> final(rt)@.ordered(),
    {
        let (rendered, _) = Self::consume_traced(id, rt);
        rendered
    }

    /// Tears down the component `id`: what it mounted, then its sibling
    /// list, then its scope.
    pub fn unmount(id: RendererId, rt: &mut Runtime<N, M>)
        ensures
            final(rt)@ == old(rt)@.torn_down(MountView::Component(id)),
    {
        Mount::Component(id).unmount(rt)
    }
}

} // verus!
