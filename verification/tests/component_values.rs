use reactive_ui::components::{StyleType, ViewType};
use reactive_ui::test_context::ContextType;
use reactive_ui::value::Value;

#[test]
fn a_style_survives_encoding() {
    for style in [StyleType::Dark, StyleType::Light] {
        assert_eq!(StyleType::from_value(&style.to_value()), Some(style));
    }
    assert_eq!(StyleType::Dark.to_value().type_token, 1);
    assert_eq!(StyleType::Dark.to_value().bytes, vec![0]);
    assert_eq!(StyleType::Light.to_value().bytes, vec![1]);
}

#[test]
fn a_view_survives_encoding() {
    for view in [ViewType::All, ViewType::Incomplete, ViewType::Completed] {
        assert_eq!(ViewType::from_value(&view.to_value()), Some(view));
    }
    assert_eq!(ViewType::Completed.to_value().type_token, 2);
    assert_eq!(ViewType::Completed.to_value().bytes, vec![2]);
}

#[test]
fn a_value_of_another_type_or_shape_decodes_to_nothing() {
    assert_eq!(StyleType::from_value(&ViewType::All.to_value()), None);
    assert_eq!(ViewType::from_value(&StyleType::Dark.to_value()), None);
    assert_eq!(StyleType::from_value(&Value::new(1, vec![2])), None);
    assert_eq!(StyleType::from_value(&Value::new(1, vec![])), None);
    assert_eq!(StyleType::from_value(&Value::new(1, vec![0, 0])), None);
    assert_eq!(ViewType::from_value(&Value::new(2, vec![3])), None);
}

#[test]
fn a_context_value_holds_a_name_and_a_count() {
    let value = ContextType { name: String::from("tasks"), count: 3 };
    assert_eq!(value.name, "tasks");
    assert_eq!(value.count, 3);
}

#[test]
fn a_duplicate_is_the_same_value() {
    let value = Value::new(5, vec![1, 2, 3]);
    let copy = value.duplicate();
    assert!(copy.same(&value));
    assert_eq!(copy.type_token, 5);
    assert_eq!(copy.bytes, vec![1, 2, 3]);
}
