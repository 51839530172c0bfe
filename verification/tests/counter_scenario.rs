use reactive_ui::renderer::{ComponentMount, FactoryId, NativeOp, Runtime};
use reactive_ui::scope::{update, ComponentScope, ContextArena, NilRef, Scope, StateHandle};
use reactive_ui::v_node::{ComponentModel, VComponentElement, VNode};
use reactive_ui::value::Value;

const INT: u64 = 10;

fn number(n: u8) -> Value {
    Value::new(INT, vec![n])
}

fn as_number(value: &Value) -> u8 {
    assert_eq!(value.type_token, INT);
    value.bytes[0]
}

/// A counter that shows its state as text.
struct Counter;

impl ComponentModel<String> for Counter {
    fn type_token(&self) -> u64 {
        1
    }

    fn same(&self, _other: &Self) -> bool {
        true
    }

    fn render(
        &self,
        scope: &mut ComponentScope,
        _contexts: &mut ContextArena,
        _self_ref: &NilRef,
    ) -> VNode<String, Self> {
        assert!(scope.state_ready(INT));
        let (count, _) = scope.use_state(number(0));
        VNode::Native(format!("{}", as_number(&count)))
    }
}

fn texts(ops: &Vec<NativeOp<String>>) -> Vec<String> {
    let mut shown = Vec::new();
    for op in ops.iter() {
        match op {
            NativeOp::MakeNative { node, .. } => shown.push(format!("make {}", node)),
            NativeOp::UpdateNative { node, .. } => shown.push(format!("update {}", node)),
            _ => {}
        }
    }
    shown
}

fn click(rt: &mut Runtime<String, Counter>, id: usize, handle: StateHandle) {
    update(rt, id, move |scope: &mut Scope| {
        handle.update_map(scope, |old: &Value| number(as_number(old) + 1));
    });
}

#[test]
fn two_clicks_show_two_and_reuse_the_state_cell() {
    let mut rt: Runtime<String, Counter> = Runtime::new();
    let id = ComponentMount::new(
        VComponentElement::new(Counter, None),
        None,
        FactoryId::Host(0),
        &mut rt,
    );
    assert!(rt.flush());
    assert_eq!(texts(&rt.ops), vec!["make 0".to_string()]);

    let component = rt.components[id].as_ref().unwrap();
    let hooks = &component.scope.component_scope.state_hooks.hooks;
    assert_eq!(hooks.len(), 1);
    let handle = hooks[0].handle;
    assert_eq!(handle.index, 0);

    click(&mut rt, id, handle);
    click(&mut rt, id, handle);

    assert_eq!(
        texts(&rt.ops),
        vec!["make 0".to_string(), "update 1".to_string(), "update 2".to_string()]
    );
    let component = rt.components[id].as_ref().unwrap();
    let hooks = &component.scope.component_scope.state_hooks.hooks;
    assert_eq!(hooks.len(), 1);
    assert_eq!(hooks[0].handle, handle);
    assert_eq!(as_number(&hooks[0].value), 2);
    assert!(!component.scope.has_update());
    assert!(rt.is_settled());
}
