use reactive_ui::value::Value;

#[test]
fn values_with_the_same_token_and_bytes_are_the_same() {
    let a = Value::new(7, vec![1, 2, 3]);
    let b = Value::new(7, vec![1, 2, 3]);
    assert!(a.same(&b));
    assert!(b.same(&a));
}

#[test]
fn values_that_differ_in_token_or_bytes_are_not_the_same() {
    let a = Value::new(7, vec![1, 2, 3]);
    assert!(!a.same(&Value::new(8, vec![1, 2, 3])));
    assert!(!a.same(&Value::new(7, vec![1, 2])));
    assert!(!a.same(&Value::new(7, vec![1, 2, 4])));
}
