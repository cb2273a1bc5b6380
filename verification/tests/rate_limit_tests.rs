use webpipe::json::{JsonNumber, JsonValue};
use webpipe::rate_limit::{interpolate_key, parse_bool, parse_config, parse_duration};

fn to_jv(v: &serde_json::Value) -> JsonValue {
    match v {
        serde_json::Value::Null => JsonValue::Null,
        serde_json::Value::Bool(b) => JsonValue::Bool(*b),
        serde_json::Value::Number(n) => {
            if let Some(i) = n.as_i64() {
                JsonValue::Number(JsonNumber::Int(i))
            } else if let Some(u) = n.as_u64() {
                JsonValue::Number(JsonNumber::UInt(u))
            } else {
                JsonValue::Number(JsonNumber::Float(n.to_string()))
            }
        }
        serde_json::Value::String(s) => JsonValue::Str(s.clone()),
        serde_json::Value::Array(a) => JsonValue::Array(a.iter().map(to_jv).collect()),
        serde_json::Value::Object(o) => {
            JsonValue::Object(o.iter().map(|(k, v)| (k.clone(), to_jv(v))).collect())
        }
    }
}

fn json(text: &str) -> JsonValue {
    to_jv(&serde_json::from_str(text).unwrap())
}

#[test]
fn parse_duration_works() {
    assert_eq!(parse_duration("60"), Some(60));
    assert_eq!(parse_duration("60s"), Some(60));
    assert_eq!(parse_duration("1m"), Some(60));
    assert_eq!(parse_duration("5m"), Some(300));
    assert_eq!(parse_duration("1h"), Some(3600));
    assert_eq!(parse_duration("1d"), Some(86400));
    assert_eq!(parse_duration("500ms"), Some(0));
    assert_eq!(parse_duration("2000ms"), Some(2));
    assert_eq!(parse_duration(""), None);
    assert_eq!(parse_duration("abc"), None);
}

#[test]
fn parse_config_extracts_all_fields() {
    let cfg = parse_config(
        "keyTemplate: ip-{ip}, limit: 100, window: 60s, burst: 10, scope: route, enabled: true",
    );
    assert_eq!(cfg.key_template, Some("ip-{ip}".to_string()));
    assert_eq!(cfg.limit, Some(100));
    assert_eq!(cfg.window_secs, Some(60));
    assert_eq!(cfg.burst, Some(10));
    assert_eq!(cfg.scope, Some("route".to_string()));
    assert_eq!(cfg.enabled, Some(true));
}

#[test]
fn parse_config_multiline() {
    let cfg = parse_config(
        r#"
            keyTemplate: user-{user.id}
            limit: 50
            window: 1m
            "#,
    );
    assert_eq!(cfg.key_template, Some("user-{user.id}".to_string()));
    assert_eq!(cfg.limit, Some(50));
    assert_eq!(cfg.window_secs, Some(60));
}

#[test]
fn interpolate_key_simple() {
    let input = json(r#"{"ip": "192.168.1.1", "method": "GET", "path": "/api/users"}"#);
    let result = interpolate_key("ip-{ip}-route-{method}-{path}", &input);
    assert_eq!(result, "ip-192.168.1.1-route-GET-/api/users");
}

#[test]
fn interpolate_key_nested() {
    let input = json(r#"{"user": {"id": 123, "name": "Alice"}, "params": {"id": "456"}}"#);
    let result = interpolate_key("user-{user.id}-resource-{params.id}", &input);
    assert_eq!(result, "user-123-resource-456");
}

#[test]
fn interpolate_key_missing_value() {
    let input = json(r#"{"ip": "1.2.3.4"}"#);
    let result = interpolate_key("user-{user.id}", &input);
    assert_eq!(result, "user-unknown");
}

#[test]
fn interpolate_key_array_index_and_unclosed_brace() {
    let input = json(r#"{"items": [{"id": "a"}, {"id": "b"}], "flag": true}"#);
    assert_eq!(interpolate_key("{items.1.id}-{flag}", &input), "b-true");
    assert_eq!(interpolate_key("x-{items", &input), "x-{items");
    assert_eq!(interpolate_key("{items.0}", &input), "{\"id\":\"a\"}");
}

#[test]
fn parse_bool_ignores_case_and_spaces() {
    assert_eq!(parse_bool(" TRUE "), Some(true));
    assert_eq!(parse_bool("False"), Some(false));
    assert_eq!(parse_bool("yes"), None);
    assert_eq!(parse_bool("1"), None);
}

#[test]
fn parse_config_ignores_unknown_and_invalid_items() {
    let cfg = parse_config("limit: many, colour: red, window: 2h");
    assert_eq!(cfg.limit, None);
    assert_eq!(cfg.window_secs, Some(7200));
    assert_eq!(cfg.key_template, None);
}
