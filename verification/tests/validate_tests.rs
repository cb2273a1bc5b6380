use webpipe::json::{JsonNumber, JsonValue};
use webpipe::validate::{parse_rules, ValidateMiddleware};

fn to_jv(v: &serde_json::Value) -> JsonValue {
    match v {
        serde_json::Value::Null => JsonValue::Null,
        serde_json::Value::Bool(b) => JsonValue::Bool(*b),
        serde_json::Value::Number(n) => {
            if let Some(i) = n.as_i64() {
                JsonValue::Number(JsonNumber::Int(i))
            } else if let Some(u) = n.as_u64() {
                JsonValue::Number(JsonNumber::UInt(u))
            } else {
                JsonValue::Number(JsonNumber::Float(n.to_string()))
            }
        }
        serde_json::Value::String(s) => JsonValue::Str(s.clone()),
        serde_json::Value::Array(a) => JsonValue::Array(a.iter().map(to_jv).collect()),
        serde_json::Value::Object(o) => {
            JsonValue::Object(o.iter().map(|(k, v)| (k.clone(), to_jv(v))).collect())
        }
    }
}

fn json(text: &str) -> JsonValue {
    to_jv(&serde_json::from_str(text).unwrap())
}

fn first_error(out: &Option<JsonValue>, key: &str) -> String {
    let e = &out.as_ref().unwrap().get("errors").unwrap().as_array().unwrap()[0];
    e.get(key).unwrap().as_str().unwrap().to_string()
}

#[test]
fn string_min_max_and_missing() {
    let mw = ValidateMiddleware;
    let cfg = "{ name: string(2..4) }";
    let out = mw.check(cfg, &json(r#"{"body": {}}"#));
    assert_eq!(first_error(&out, "type"), "validationError");
    let out = mw.check(cfg, &json(r#"{"body": {"name": "a"}}"#));
    assert_eq!(first_error(&out, "rule"), "minLength");
    let out = mw.check(cfg, &json(r#"{"body": {"name": "abcde"}}"#));
    assert_eq!(first_error(&out, "rule"), "maxLength");
    let out = mw.check(cfg, &json(r#"{"body": {"name": "abc"}}"#));
    assert!(out.is_none());
}

#[test]
fn email_rule_accepts_and_rejects() {
    let mw = ValidateMiddleware;
    let cfg = "{ email: email }";
    let out = mw.check(cfg, &json(r#"{"body": {}}"#));
    assert_eq!(first_error(&out, "type"), "validationError");
    let out = mw.check(cfg, &json(r#"{"body": {"email": "foo"}}"#));
    assert_eq!(first_error(&out, "rule"), "email");
    let out = mw.check(cfg, &json(r#"{"body": {"email": "a@b.com"}}"#));
    assert!(out.is_none());
}

#[test]
fn rules_are_read_line_by_line() {
    let rules = parse_rules("{\n  name: string(3),\n  mail: email,\n  junk\n  other: number\n}");
    assert_eq!(rules.len(), 2);
    assert_eq!(rules[0].field, "name");
    assert_eq!(rules[0].min, Some(3));
    assert_eq!(rules[0].max, Some(3));
    assert!(rules[1].email);
}

#[test]
fn numbers_and_booleans_are_checked_as_text() {
    let mw = ValidateMiddleware;
    let out = mw.check("{ code: string(4..) }", &json(r#"{"body": {"code": 123}}"#));
    assert_eq!(first_error(&out, "message"), "Field 'code' must be at least 4 characters");
    let out = mw.check("{ ok: string(..3) }", &json(r#"{"body": {"ok": false}}"#));
    assert_eq!(first_error(&out, "message"), "Field 'ok' must be at most 3 characters");
    assert!(mw.check("{ ok: string }", &json(r#"{"nobody": 1}"#)).is_none());
    assert!(mw.check("{ }", &json(r#"{"body": {}}"#)).is_none());
}
