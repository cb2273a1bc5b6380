//! Tests of the debugger's request handling: breakpoints, stack traces,
//! setting and evaluating variables.

use webpipe::debugger::{
    array_index_of, assign_breakpoint_ids, child_pointer, jq_expression, stack_frames, update_cached_container,
    value_reply,
};
use webpipe::json::{JsonNumber, JsonValue};

fn num(i: i64) -> JsonValue {
    JsonValue::Number(JsonNumber::Int(i))
}

fn s(t: &str) -> JsonValue {
    JsonValue::Str(t.to_string())
}

#[test]
fn breakpoint_ids_are_handed_out_in_order() {
    let (ids, next) = assign_breakpoint_ids(&vec![3, 7, 3], 1);
    assert_eq!(ids, vec![(3, 3), (7, 2), (3, 3)]);
    assert_eq!(next, 4);
    let (ids, next) = assign_breakpoint_ids(&vec![], 9);
    assert!(ids.is_empty());
    assert_eq!(next, 9);
}

#[test]
fn stack_trace_puts_the_current_step_first() {
    let stack = vec!["route".to_string(), "pipeline: users".to_string(), "pg".to_string()];
    let frames = stack_frames(&stack, 2, 10, 5);
    assert_eq!(frames.len(), 3);
    assert_eq!(frames[0].id, 20000);
    assert_eq!(frames[0].name, "pg");
    assert_eq!((frames[0].line, frames[0].column), (10, 5));
    assert!(frames[0].has_source && !frames[0].label);
    assert_eq!(frames[2].id, 20002);
    assert_eq!(frames[2].name, "route");
    assert_eq!((frames[2].line, frames[2].column), (0, 0));
    assert!(!frames[2].has_source && frames[2].label);
}

#[test]
fn set_variable_targets_and_indexes() {
    assert_eq!(child_pointer("/users/0", "a/b~c"), "/users/0/a~1b~0c");
    assert_eq!(child_pointer("", "name"), "/name");
    assert_eq!(array_index_of("[3]"), Some(3));
    assert_eq!(array_index_of("12"), Some(12));
    assert_eq!(array_index_of("[x]"), None);
    assert_eq!(array_index_of("[]"), None);
}

#[test]
fn cached_containers_follow_a_set_variable() {
    let mut arr = JsonValue::Array(vec![num(1), num(2)]);
    update_cached_container(&mut arr, "[1]", s("two"));
    match &arr {
        JsonValue::Array(items) => {
            assert!(matches!(&items[1], JsonValue::Str(t) if t == "two"));
            assert!(matches!(&items[0], JsonValue::Number(JsonNumber::Int(1))));
        }
        _ => panic!("expected an array"),
    }
    update_cached_container(&mut arr, "[5]", s("far"));
    match &arr {
        JsonValue::Array(items) => assert_eq!(items.len(), 2),
        _ => panic!("expected an array"),
    }
    let mut obj = JsonValue::Object(vec![("a".to_string(), num(1))]);
    update_cached_container(&mut obj, "b", num(2));
    match &obj {
        JsonValue::Object(entries) => {
            assert_eq!(entries.len(), 2);
            assert!(entries.iter().any(|(k, v)| k == "b" && matches!(v, JsonValue::Number(JsonNumber::Int(2)))));
        }
        _ => panic!("expected an object"),
    }
}

#[test]
fn evaluated_expressions_and_replies() {
    assert_eq!(jq_expression("user"), ".user");
    assert_eq!(jq_expression(".data.rows"), ".data.rows");
    let mut counter = 4;
    let r = value_reply(&JsonValue::Array(vec![num(1), num(2)]), 3, &mut counter);
    assert_eq!(counter, 5);
    assert_eq!(r.variables_reference, 300005);
    assert_eq!(r.value, "[2 items]");
    assert_eq!(r.type_, "array");
    assert_eq!(r.indexed_variables, Some(2));
    let r = value_reply(&s("hi"), 3, &mut counter);
    assert_eq!(counter, 5);
    assert_eq!(r.variables_reference, 0);
    assert_eq!(r.value, "\"hi\"");
}
