use workflow_engine::json::{json_clone, json_eq, JsonValue};
use workflow_engine::modules::{add, compute_fibonacci, fibonacci, process_data, run};

#[test]
fn json_equality_is_structural() {
    let a = JsonValue::Obj(vec![
        ("result".to_string(), JsonValue::Str("success".to_string())),
        ("value".to_string(), JsonValue::Num("42".to_string())),
    ]);
    let b = json_clone(&a);
    assert!(json_eq(&a, &b));
    let c = JsonValue::Obj(vec![
        ("result".to_string(), JsonValue::Str("success".to_string())),
        ("value".to_string(), JsonValue::Num("43".to_string())),
    ]);
    assert!(!json_eq(&a, &c));
    assert!(json_eq(
        &JsonValue::Arr(vec![JsonValue::Bool(true), JsonValue::Null]),
        &JsonValue::Arr(vec![JsonValue::Bool(true), JsonValue::Null])
    ));
}

#[test]
fn sample_module_entry_points() {
    assert_eq!(run(), 0);
    assert_eq!(process_data(), 0);
    assert_eq!(fibonacci(10), 55);
    assert_eq!(compute_fibonacci(1), 1);
    assert_eq!(add(2, 40), 42);
}
