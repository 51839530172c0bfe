use reactive_ui::scope::{clone_context_link, ContextArena, ContextConsumerHandle};
use reactive_ui::v_node::{NodeComparisonResult, VContext, VNode};
use reactive_ui::value::Value;

fn number(n: u8) -> Value {
    Value::new(10, vec![n])
}

fn text(s: &str) -> Value {
    Value::new(11, s.as_bytes().to_vec())
}

#[test]
fn a_new_provider_has_no_subscribers() {
    let mut contexts = ContextArena::new();
    assert_eq!(contexts.len(), 0);
    let root = contexts.insert(number(1), None);
    let child = contexts.insert(text("x"), Some(root));
    assert_eq!((root, child), (0, 1));
    assert_eq!(contexts.len(), 2);
    assert_eq!(contexts.parent(root), None);
    assert_eq!(contexts.parent(child), Some(root));
    assert!(contexts.value(child).same(&text("x")));
    assert!(contexts.subscribers(child).is_empty());
}

#[test]
fn resolve_walks_upward_to_the_nearest_provider_of_the_type() {
    let mut contexts = ContextArena::new();
    let a = contexts.insert(number(1), None);
    let b = contexts.insert(text("b"), Some(a));
    let c = contexts.insert(number(3), Some(b));
    assert_eq!(contexts.resolve(Some(c), 10), Some(c));
    assert_eq!(contexts.resolve(Some(c), 11), Some(b));
    assert_eq!(contexts.resolve(Some(b), 10), Some(a));
    assert_eq!(contexts.resolve(Some(a), 11), None);
    assert_eq!(contexts.resolve(None, 10), None);
    assert_eq!(contexts.resolve(Some(c), 12), None);
    assert_eq!(contexts.resolve(Some(17), 10), None);
}

#[test]
fn resolve_ends_at_a_parent_link_that_does_not_lead_upward() {
    let mut contexts = ContextArena::new();
    let a = contexts.insert(number(1), None);
    let b = contexts.insert(text("b"), Some(a));
    contexts.nodes[a].parent = Some(b);
    assert_eq!(contexts.resolve(Some(b), 12), None);
    assert_eq!(contexts.resolve(Some(b), 10), Some(a));
}

#[test]
fn unsubscribe_takes_the_first_entry_only() {
    let mut contexts = ContextArena::new();
    let a = contexts.insert(number(1), None);
    for renderer in [4, 5, 4, 6] {
        contexts.subscribe(a, renderer);
    }
    contexts.unsubscribe(a, 4);
    assert_eq!(contexts.subscribers(a), &vec![5, 4, 6]);
    contexts.unsubscribe(a, 9);
    assert_eq!(contexts.subscribers(a), &vec![5, 4, 6]);
    contexts.unsubscribe(3, 5);
    assert_eq!(contexts.subscribers(a), &vec![5, 4, 6]);
    ContextConsumerHandle { context_node: a, type_token: 10 }.cleanup(&mut contexts, 6);
    assert_eq!(contexts.subscribers(a), &vec![5, 4]);
    contexts.discard_subscribers(a);
    assert!(contexts.subscribers(a).is_empty());
}

#[test]
fn replacing_the_value_keeps_parent_and_subscribers() {
    let mut contexts = ContextArena::new();
    let a = contexts.insert(number(1), None);
    let b = contexts.insert(number(2), Some(a));
    contexts.subscribe(b, 4);
    contexts.replace_value(b, number(9));
    assert!(contexts.value(b).same(&number(9)));
    assert_eq!(contexts.parent(b), Some(a));
    assert_eq!(contexts.subscribers(b), &vec![4]);
    assert!(contexts.value(a).same(&number(1)));
}

#[test]
fn a_context_compares_by_type_first_and_then_by_value() {
    let mut contexts = ContextArena::new();
    let a = contexts.insert(number(1), None);
    let same: VContext<u8, ()> = VContext { value: number(1), children: Box::new(VNode::Native(0)) };
    let changed: VContext<u8, ()> =
        VContext { value: number(2), children: Box::new(VNode::Native(0)) };
    let other: VContext<u8, ()> =
        VContext { value: text("1"), children: Box::new(VNode::Native(0)) };
    assert_eq!(same.compare(a, &contexts), NodeComparisonResult::Equal);
    assert_eq!(changed.compare(a, &contexts), NodeComparisonResult::SameType);
    assert_eq!(other.compare(a, &contexts), NodeComparisonResult::DifferentType);
}

#[test]
fn a_context_makes_its_node_and_hands_out_its_children() {
    let mut contexts = ContextArena::new();
    let root = contexts.insert(text("r"), None);
    let context: VContext<u8, ()> =
        VContext { value: number(1), children: Box::new(VNode::Native(7)) };
    let (node, children) = context.to_context_link(Some(root), &mut contexts);
    assert_eq!(node, 1);
    assert!(matches!(children, VNode::Native(7)));
    assert_eq!(contexts.parent(node), Some(root));
    assert!(contexts.value(node).same(&number(1)));
    assert!(contexts.subscribers(node).is_empty());

    contexts.subscribe(node, 3);
    let next: VContext<u8, ()> =
        VContext { value: number(2), children: Box::new(VNode::Native(8)) };
    let children = next.push_value(node, &mut contexts);
    assert!(matches!(children, VNode::Native(8)));
    assert!(contexts.value(node).same(&number(2)));
    assert_eq!(contexts.subscribers(node), &vec![3]);
    assert_eq!(contexts.len(), 2);
}

#[test]
fn a_context_link_is_copied() {
    assert_eq!(clone_context_link(&Some(3)), Some(3));
    assert_eq!(clone_context_link(&None), None);
}
