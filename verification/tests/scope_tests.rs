use reactive_ui::scope::{
    CallbackHandle, ContextArena, EffectRun, HookError, RefObject, RefObjectT, Scope, StateHandle,
};
use reactive_ui::value::Value;

const NUMBER: u64 = 10;
const TEXT: u64 = 11;

fn number(n: u8) -> Value {
    Value::new(NUMBER, vec![n])
}

fn text(s: &str) -> Value {
    Value::new(TEXT, s.as_bytes().to_vec())
}

fn rendered_once(scope: &mut Scope) {
    scope.mark_end_render();
    scope.mark_start_render();
}

#[test]
fn a_new_scope_is_empty_and_clean() {
    let scope = Scope::new(3, Some(4));
    assert!(!scope.has_update());
    assert_eq!(scope.clone_context_link(), Some(4));
    assert_eq!(scope.component_scope.renderer, 3);
    assert!(!scope.component_scope.has_init);
    assert!(scope.component_scope.state_hooks.hooks.is_empty());
    assert!(scope.component_scope.ref_hooks.hooks.is_empty());
    assert!(scope.component_scope.context_hooks.hooks.is_empty());
    assert!(scope.component_scope.memo_hooks.hooks.is_empty());
    assert!(scope.effects_iter().is_empty());
}

#[test]
fn use_state_stores_the_default_on_the_first_render_only() {
    let mut scope = Scope::new(0, None);
    let (first, handle) = scope.component_scope.use_state(number(5));
    assert!(first.same(&number(5)));
    assert_eq!(handle, StateHandle { index: 0, type_token: NUMBER });
    let (second, second_handle) = scope.component_scope.use_state(text("a"));
    assert!(second.same(&text("a")));
    assert_eq!(second_handle, StateHandle { index: 1, type_token: TEXT });

    rendered_once(&mut scope);
    let (again, again_handle) = scope.component_scope.use_state(number(99));
    assert!(again.same(&number(5)));
    assert_eq!(again_handle, handle);
    let (again_text, again_text_handle) = scope.component_scope.use_state(text("zzz"));
    assert!(again_text.same(&text("a")));
    assert_eq!(again_text_handle, second_handle);
    assert_eq!(scope.component_scope.state_hooks.hooks.len(), 2);
}

#[test]
fn the_guard_tells_a_hook_of_another_type_or_one_too_many() {
    let mut scope = Scope::new(0, None);
    assert!(scope.component_scope.state_ready(NUMBER));
    let _ = scope.component_scope.use_state(number(5));
    rendered_once(&mut scope);
    assert!(scope.component_scope.state_ready(NUMBER));
    assert!(!scope.component_scope.state_ready(TEXT));
    let _ = scope.component_scope.use_state(number(5));
    assert!(!scope.component_scope.state_ready(NUMBER));
    assert!(!scope.component_scope.ref_ready(NUMBER));
    assert!(!scope.component_scope.effect_ready(NUMBER));
    assert!(!scope.component_scope.always_effect_ready());
    assert!(!scope.component_scope.memo_ready(NUMBER));
    assert!(!scope.component_scope.context_ready(&ContextArena::new(), NUMBER));
}

#[test]
fn a_setter_with_an_equal_value_changes_nothing() {
    let mut scope = Scope::new(0, None);
    let (_, handle) = scope.component_scope.use_state(number(5));
    rendered_once(&mut scope);
    assert!(scope.has_state_cell(handle.index, NUMBER));
    handle.update(&mut scope, number(5));
    assert!(!scope.has_update());
    assert!(scope.component_scope.state_hooks.hooks[0].value.same(&number(5)));
    handle.update_map(&mut scope, |old: &Value| old.duplicate());
    assert!(!scope.has_update());
}

#[test]
fn a_setter_with_another_value_stores_it_and_marks_the_scope() {
    let mut scope = Scope::new(0, None);
    let (_, handle) = scope.component_scope.use_state(number(5));
    rendered_once(&mut scope);
    handle.update(&mut scope, number(6));
    assert!(scope.has_update());
    assert!(scope.component_scope.state_hooks.hooks[0].value.same(&number(6)));
    scope.clear_update();
    assert!(!scope.has_update());
    handle.update_map(&mut scope, |old: &Value| number(old.bytes[0] + 10));
    assert!(scope.has_update());
    assert!(scope.component_scope.state_hooks.hooks[0].value.same(&number(16)));
    assert_eq!(scope.component_scope.state_hooks.hooks[0].handle, handle);
}

#[test]
fn a_state_cell_is_found_by_index_and_type() {
    let mut scope = Scope::new(0, None);
    let _ = scope.component_scope.use_state(number(5));
    assert!(scope.has_state_cell(0, NUMBER));
    assert!(!scope.has_state_cell(0, TEXT));
    assert!(!scope.has_state_cell(1, NUMBER));
}

#[test]
fn use_ref_hands_out_the_same_cell_on_every_render() {
    let mut scope = Scope::new(7, None);
    let first = scope.component_scope.use_ref(NUMBER);
    assert_eq!(first, RefObject::new(7, 0, NUMBER));
    assert_eq!(first.type_token(), NUMBER);
    let second = scope.component_scope.use_ref(TEXT);
    assert_eq!(second, RefObject::new(7, 1, TEXT));
    assert!(first != second);
    rendered_once(&mut scope);
    assert_eq!(scope.component_scope.use_ref(NUMBER), first);
    assert_eq!(scope.component_scope.use_ref(TEXT), second);
    assert_eq!(scope.component_scope.ref_hooks.hooks.len(), 2);
}

#[test]
fn writing_a_ref_never_marks_the_scope() {
    let mut scope = Scope::new(7, None);
    let cell = scope.component_scope.use_ref(NUMBER);
    assert!(cell.belongs_to(&scope));
    assert!(scope.component_scope.ref_hooks.hooks[0].value.is_none());
    assert_eq!(scope.component_scope.ref_hooks.hooks[0].type_token(), NUMBER);
    cell.replace(&mut scope, Some(number(3)));
    assert!(!scope.has_update());
    assert!(scope.component_scope.ref_hooks.hooks[0].value.as_ref().unwrap().same(&number(3)));
    *cell.borrow_mut(&mut scope) = Some(number(4));
    assert!(!scope.has_update());
    assert!(cell.borrow_mut(&mut scope).as_ref().unwrap().same(&number(4)));
    cell.replace(&mut scope, None);
    assert!(scope.component_scope.ref_hooks.hooks[0].value.is_none());
}

#[test]
fn a_ref_of_another_scope_or_type_does_not_belong() {
    let mut scope = Scope::new(7, None);
    let _ = scope.component_scope.use_ref(NUMBER);
    assert!(!RefObject::new(8, 0, NUMBER).belongs_to(&scope));
    assert!(!RefObject::new(7, 1, NUMBER).belongs_to(&scope));
    assert!(!RefObject::new(7, 0, TEXT).belongs_to(&scope));
}

#[test]
fn an_effect_is_pending_after_the_first_render() {
    let mut scope = Scope::new(0, None);
    scope.component_scope.use_effect(40, number(1));
    let effects = scope.effects_iter();
    assert_eq!(effects.len(), 1);
    assert_eq!(effects[0].effect, 40);
    assert!(effects[0].cleanup.is_none());
    assert!(effects[0].basis.as_ref().unwrap().same(&number(1)));
    assert!(effects[0].is_pending());
}

#[test]
fn an_effect_with_the_same_basis_never_runs_again() {
    let mut scope = Scope::new(0, None);
    scope.component_scope.use_effect(40, number(1));
    let run = scope.component_scope.effect_hooks.hooks[0].execute();
    assert_eq!(run, EffectRun { cleanup: None, effect: 40 });
    scope.component_scope.effect_hooks.hooks[0].keep_cleanup(Some(41));
    for _ in 0..5 {
        rendered_once(&mut scope);
        scope.component_scope.use_effect(50, number(1));
        let effect = &scope.effects_iter()[0];
        assert!(!effect.is_pending());
        assert_eq!(effect.effect, 40);
        assert_eq!(effect.cleanup, Some(41));
    }
}

#[test]
fn an_effect_with_another_basis_runs_again_after_its_cleanup() {
    let mut scope = Scope::new(0, None);
    scope.component_scope.use_effect(40, number(1));
    let _ = scope.component_scope.effect_hooks.hooks[0].execute();
    scope.component_scope.effect_hooks.hooks[0].keep_cleanup(Some(41));
    rendered_once(&mut scope);
    scope.component_scope.use_effect(50, number(2));
    {
        let effect = &scope.effects_iter()[0];
        assert!(effect.is_pending());
        assert_eq!(effect.effect, 50);
        assert_eq!(effect.cleanup, Some(41));
        assert!(effect.basis.as_ref().unwrap().same(&number(2)));
    }
    let run = scope.component_scope.effect_hooks.hooks[0].execute();
    assert_eq!(run, EffectRun { cleanup: Some(41), effect: 50 });
    let effect = &scope.effects_iter()[0];
    assert!(!effect.is_pending());
    assert!(effect.cleanup.is_none());
}

#[test]
fn an_always_effect_is_pending_after_every_render() {
    let mut scope = Scope::new(0, None);
    scope.component_scope.use_effect_always(60);
    assert!(scope.effects_iter()[0].basis.is_none());
    let _ = scope.component_scope.effect_hooks.hooks[0].execute();
    scope.component_scope.effect_hooks.hooks[0].keep_cleanup(Some(61));
    rendered_once(&mut scope);
    assert!(scope.component_scope.always_effect_ready());
    assert!(!scope.component_scope.effect_ready(NUMBER));
    scope.component_scope.use_effect_always(62);
    let effect = &scope.effects_iter()[0];
    assert!(effect.is_pending());
    assert_eq!(effect.effect, 62);
    assert_eq!(effect.cleanup, Some(61));
}

#[test]
fn the_cleanup_of_an_effect_is_handed_out_once() {
    let mut scope = Scope::new(0, None);
    scope.component_scope.use_effect(40, number(1));
    scope.component_scope.effect_hooks.hooks[0].keep_cleanup(Some(41));
    assert_eq!(scope.component_scope.effect_hooks.hooks[0].cleanup(), Some(41));
    assert_eq!(scope.component_scope.effect_hooks.hooks[0].cleanup(), None);
}

#[test]
fn use_memo_computes_only_when_the_input_changes() {
    let calls = std::cell::Cell::new(0u32);
    let double = |input: &Value| {
        calls.set(calls.get() + 1);
        number(input.bytes[0] * 2)
    };
    let mut scope = Scope::new(0, None);
    assert!(scope.component_scope.use_memo(double, number(4)).same(&number(8)));
    assert_eq!(calls.get(), 1);
    rendered_once(&mut scope);
    assert!(scope.component_scope.memo_ready(NUMBER));
    assert!(scope.component_scope.use_memo(double, number(4)).same(&number(8)));
    assert_eq!(calls.get(), 1);
    rendered_once(&mut scope);
    assert!(scope.component_scope.use_memo(double, number(5)).same(&number(10)));
    assert_eq!(calls.get(), 2);
    rendered_once(&mut scope);
    assert!(scope.component_scope.use_memo(double, number(5)).same(&number(10)));
    assert_eq!(calls.get(), 2);
    assert_eq!(scope.component_scope.memo_hooks.hooks.len(), 1);
    assert!(scope.component_scope.memo_hooks.hooks[0].cached_input.same(&number(5)));
}

#[test]
fn a_callback_handle_names_its_renderer() {
    let mut scope = Scope::new(9, None);
    let plain = scope.component_scope.use_callback(70);
    assert_eq!(plain, CallbackHandle { func: 70, renderer: 9, bound: None });
    let bound = scope.component_scope.use_callback_memo(71, number(3));
    assert_eq!(bound, CallbackHandle { func: 71, renderer: 9, bound: Some(0) });
    assert!(scope.component_scope.memo_hooks.hooks[0].cached_input.same(&number(3)));
    rendered_once(&mut scope);
    let again = scope.component_scope.use_callback_memo(71, number(3));
    assert_eq!(again, bound);
    rendered_once(&mut scope);
    let renewed = scope.component_scope.use_callback_memo(71, number(4));
    assert_eq!(renewed, bound);
    assert!(scope.component_scope.memo_hooks.hooks[0].cached_input.same(&number(4)));
    assert!(scope.component_scope.memo_hooks.hooks[0].cached_output.same(&number(4)));
}

#[test]
fn use_context_without_a_provider_of_the_type_is_an_error() {
    let mut contexts = ContextArena::new();
    let mut scope = Scope::new(0, None);
    assert_eq!(
        scope.component_scope.use_context(&mut contexts, NUMBER).err(),
        Some(HookError::MissingProvider)
    );
    let root = contexts.insert(text("root"), None);
    let mut below = Scope::new(1, Some(root));
    assert_eq!(
        below.component_scope.use_context(&mut contexts, NUMBER).err(),
        Some(HookError::MissingProvider)
    );
    assert!(below.component_scope.context_hooks.hooks.is_empty());
    assert!(contexts.subscribers(root).is_empty());
}

#[test]
fn use_context_finds_the_nearest_provider_of_the_type_and_subscribes() {
    let mut contexts = ContextArena::new();
    let outer = contexts.insert(number(1), None);
    let middle = contexts.insert(text("m"), Some(outer));
    let inner = contexts.insert(number(3), Some(middle));
    let leaf = contexts.insert(text("l"), Some(inner));

    let mut scope = Scope::new(5, Some(leaf));
    let found = scope.component_scope.use_context(&mut contexts, NUMBER).unwrap();
    assert!(found.same(&number(3)));
    assert_eq!(contexts.subscribers(inner), &vec![5]);
    assert!(contexts.subscribers(outer).is_empty());
    let hook = scope.component_scope.context_hooks.hooks[0];
    assert_eq!(hook.context_node, inner);
    assert_eq!(hook.type_token, NUMBER);

    let mut above = Scope::new(6, Some(middle));
    let found = above.component_scope.use_context(&mut contexts, NUMBER).unwrap();
    assert!(found.same(&number(1)));
    assert_eq!(contexts.subscribers(outer), &vec![6]);
}

#[test]
fn a_later_render_reads_the_current_value_of_the_same_provider() {
    let mut contexts = ContextArena::new();
    let outer = contexts.insert(number(1), None);
    let mut scope = Scope::new(5, Some(outer));
    let _ = scope.component_scope.use_context(&mut contexts, NUMBER).unwrap();
    contexts.replace_value(outer, number(2));
    let nearer = contexts.insert(number(9), Some(outer));
    scope.component_scope.context_link = Some(nearer);
    rendered_once(&mut scope);
    assert!(scope.component_scope.context_ready(&contexts, NUMBER));
    assert!(!scope.component_scope.context_ready(&contexts, TEXT));
    let found = scope.component_scope.use_context(&mut contexts, NUMBER).unwrap();
    assert!(found.same(&number(2)));
    assert_eq!(contexts.subscribers(outer), &vec![5]);
    assert!(contexts.subscribers(nearer).is_empty());
}

#[test]
fn cleanup_hands_out_due_cleanups_in_hook_order_and_unsubscribes() {
    let mut contexts = ContextArena::new();
    let provider = contexts.insert(number(1), None);
    contexts.subscribe(provider, 8);
    let mut scope = Scope::new(5, Some(provider));
    let _ = scope.component_scope.use_context(&mut contexts, NUMBER).unwrap();
    contexts.subscribe(provider, 5);
    scope.component_scope.use_effect(40, number(1));
    scope.component_scope.use_effect(42, number(1));
    scope.component_scope.use_effect(44, number(1));
    scope.component_scope.effect_hooks.hooks[0].keep_cleanup(Some(41));
    scope.component_scope.effect_hooks.hooks[2].keep_cleanup(Some(45));
    assert_eq!(contexts.subscribers(provider), &vec![8, 5, 5]);

    let due = scope.cleanup(&mut contexts);
    assert_eq!(due, vec![41, 45]);
    assert!(scope.effects_iter().is_empty());
    assert_eq!(contexts.subscribers(provider), &vec![8, 5]);
    assert_eq!(scope.component_scope.context_hooks.hooks.len(), 1);
}

#[test]
fn reset_makes_the_next_render_a_first_render() {
    let mut scope = Scope::new(5, Some(2));
    let _ = scope.component_scope.use_state(number(1));
    let _ = scope.component_scope.use_ref(NUMBER);
    scope.component_scope.use_effect(40, number(1));
    let _ = scope.component_scope.use_memo(|v: &Value| v.duplicate(), number(1));
    scope.mark_end_render();
    scope.mark_update();
    scope.reset();
    assert!(!scope.component_scope.has_init);
    assert!(scope.component_scope.state_hooks.hooks.is_empty());
    assert!(scope.component_scope.ref_hooks.hooks.is_empty());
    assert!(scope.component_scope.effect_hooks.hooks.is_empty());
    assert!(scope.component_scope.memo_hooks.hooks.is_empty());
    assert!(scope.has_update());
    assert_eq!(scope.component_scope.renderer, 5);
    assert_eq!(scope.clone_context_link(), Some(2));
    let (value, handle) = scope.component_scope.use_state(number(7));
    assert!(value.same(&number(7)));
    assert_eq!(handle.index, 0);
}

#[test]
fn the_marks_of_a_render_rewind_every_list() {
    let mut scope = Scope::new(5, None);
    let _ = scope.component_scope.use_state(number(1));
    scope.mark_end_render();
    assert!(scope.component_scope.has_init);
    scope.mark_start_render();
    let _ = scope.component_scope.use_state(number(1));
    assert_eq!(scope.component_scope.state_hooks.current_index, 1);
    assert!(!scope.component_scope.state_hooks.has_next());
    scope.mark_start_render();
    assert_eq!(scope.component_scope.state_hooks.current_index, 0);
    assert!(scope.component_scope.state_hooks.has_next());
}
