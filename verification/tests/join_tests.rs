use webpipe::join::{async_sample_stack, join_state, task_error_value};
use webpipe::join::{parse_join_task_names, JoinMiddleware};
use webpipe::json::{JsonNumber, JsonValue};

fn to_jv(v: &serde_json::Value) -> JsonValue {
    match v {
        serde_json::Value::Null => JsonValue::Null,
        serde_json::Value::Bool(b) => JsonValue::Bool(*b),
        serde_json::Value::Number(n) => {
            if let Some(i) = n.as_i64() {
                JsonValue::Number(JsonNumber::Int(i))
            } else if let Some(u) = n.as_u64() {
                JsonValue::Number(JsonNumber::UInt(u))
            } else {
                JsonValue::Number(JsonNumber::Float(n.to_string()))
            }
        }
        serde_json::Value::String(s) => JsonValue::Str(s.clone()),
        serde_json::Value::Array(a) => JsonValue::Array(a.iter().map(to_jv).collect()),
        serde_json::Value::Object(o) => {
            JsonValue::Object(o.iter().map(|(k, v)| (k.clone(), to_jv(v))).collect())
        }
    }
}

fn json(text: &str) -> JsonValue {
    to_jv(&serde_json::from_str(text).unwrap())
}

fn parse_join_config(config: &str) -> Result<Vec<String>, webpipe::error::WebPipeError> {
    JoinMiddleware.parse_join_config(config)
}

#[test]
fn parse_comma_separated_names() {
    let names = parse_join_config("user,notifications").unwrap();
    assert_eq!(names, vec!["user", "notifications"]);
}

#[test]
fn parse_comma_separated_with_spaces() {
    let names = parse_join_config("user, notifications, stats").unwrap();
    assert_eq!(names, vec!["user", "notifications", "stats"]);
}

#[test]
fn parse_json_array() {
    let names = parse_join_config(r#"["user","notifications","stats"]"#).unwrap();
    assert_eq!(names, vec!["user", "notifications", "stats"]);
}

#[test]
fn parse_empty_fails() {
    assert!(parse_join_config("").is_err());
}

#[test]
fn parse_whitespace_only_fails() {
    assert!(parse_join_config("   ").is_err());
}

#[test]
fn invalid_array_and_empty_pieces() {
    assert_eq!(
        parse_join_task_names("[user").unwrap_err().to_string(),
        "Configuration error: Invalid JSON array for join config"
    );
    assert_eq!(parse_join_task_names(" a,, b ,").unwrap(), vec!["a", "b"]);
    assert_eq!(
        parse_join_task_names(" , ").unwrap_err().to_string(),
        "Configuration error: join config must specify at least one task name"
    );
}

#[test]
fn join_records_task_names_in_metadata() {
    let out = JoinMiddleware.apply("a, b", &json(r#"{"x": 1, "_metadata": {"k": true}}"#)).unwrap();
    let meta = out.get("_metadata").unwrap();
    let tasks = meta.get("join_tasks").unwrap().as_array().unwrap();
    assert_eq!(tasks.len(), 2);
    assert_eq!(tasks[1].as_str().unwrap(), "b");
    assert_eq!(meta.get("k").unwrap().as_bool(), Some(true));
    assert_eq!(out.get("x").unwrap().as_i64(), Some(1));

    let fresh = JoinMiddleware.apply("a", &json(r#"{}"#)).unwrap();
    assert!(fresh.get("_metadata").unwrap().get("join_tasks").is_some());

    let not_obj = JoinMiddleware.apply("a", &json("[1]")).unwrap();
    assert!(webpipe::json::json_eq(&not_obj, &json("[1]")));
}

#[test]
fn joined_tasks_land_under_async() {
    let num = |i: i64| webpipe::json::JsonValue::Number(webpipe::json::JsonNumber::Int(i));
    let input = webpipe::json::JsonValue::Object(vec![("a".to_string(), num(1))]);
    let results = vec![
        ("users".to_string(), num(2)),
        ("posts".to_string(), task_error_value("boom")),
        ("users".to_string(), num(3)),
    ];
    let out = join_state(&input, &results);
    let mut t: Vec<char> = Vec::new();
    webpipe::json::write_json(&out, &mut t);
    let t: String = t.into_iter().collect();
    assert_eq!(t, r#"{"a":1,"async":{"posts":{"error":"boom"},"users":3}}"#);
    let kept = join_state(&num(5), &results);
    assert!(matches!(kept, webpipe::json::JsonValue::Number(webpipe::json::JsonNumber::Int(5))));
}

#[test]
fn awaited_task_samples_nest_under_the_join() {
    assert_eq!(async_sample_stack(&vec![], "job", "pg"), "async:job;pg");
    assert_eq!(
        async_sample_stack(&vec!["GET /".to_string(), "pipeline: x".to_string()], "job", "pg"),
        "GET /;pipeline: x;async:job;pg"
    );
}
