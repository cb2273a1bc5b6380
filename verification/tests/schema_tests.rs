use webpipe::json::{JsonNumber, JsonValue};
use webpipe::schema::{validate_value, AssertMiddleware, AssertSchema, Parser};

fn to_jv(v: &serde_json::Value) -> JsonValue {
    match v {
        serde_json::Value::Null => JsonValue::Null,
        serde_json::Value::Bool(b) => JsonValue::Bool(*b),
        serde_json::Value::Number(n) => {
            if let Some(i) = n.as_i64() {
                JsonValue::Number(JsonNumber::Int(i))
            } else if let Some(u) = n.as_u64() {
                JsonValue::Number(JsonNumber::UInt(u))
            } else {
                JsonValue::Number(JsonNumber::Float(n.to_string()))
            }
        }
        serde_json::Value::String(s) => JsonValue::Str(s.clone()),
        serde_json::Value::Array(a) => JsonValue::Array(a.iter().map(to_jv).collect()),
        serde_json::Value::Object(o) => {
            JsonValue::Object(o.iter().map(|(k, v)| (k.clone(), to_jv(v))).collect())
        }
    }
}

fn json(text: &str) -> JsonValue {
    to_jv(&serde_json::from_str(text).unwrap())
}

fn schema(text: &str) -> AssertSchema {
    Parser::new(text).parse().unwrap()
}

fn issue(schema_text: &str, value: &str) -> Option<(String, String)> {
    let chars: Vec<char> = "$".chars().collect();
    match validate_value(&json(value), &schema(schema_text), &chars) {
        Ok(()) => None,
        Err(e) => Some((e.path, e.message)),
    }
}

#[test]
fn assert_refines_object_contract_without_changing_state() {
    let cfg = r#"{
            data: {
                rows: [{ id: string, name: string }],
                rowCount: number
            }
        }"#;
    let state = json(r#"{"data": {"rows": [{"id": "1", "name": "webpipe"}], "rowCount": 1}, "params": {"id": "1"}}"#);
    assert!(AssertMiddleware.check(cfg, &state).unwrap().is_none());
}

#[test]
fn assert_failure_emits_assertion_error_envelope() {
    let state = json(r#"{"data": {"rows": []}}"#);
    let out = AssertMiddleware
        .check("{ data: { rows: [{ id: string }], rowCount: number } }", &state)
        .unwrap()
        .unwrap();
    let e = &out.get("errors").unwrap().as_array().unwrap()[0];
    assert_eq!(e.get("type").unwrap().as_str().unwrap(), "assertionError");
    assert_eq!(e.get("field").unwrap().as_str().unwrap(), "data.rowCount");
    assert_eq!(e.get("rule").unwrap().as_str().unwrap(), "assert");
    assert_eq!(e.get("message").unwrap().as_str().unwrap(), "Missing required field $.data.rowCount");
}

#[test]
fn assert_supports_optional_nullable_arrays_and_literals() {
    let state = json(r#"{"type": "ready", "name": null, "roles": ["admin", "editor"]}"#);
    let cfg = r#"{ type: "ready", email?: string, name: string | null, roles: [string] }"#;
    assert!(AssertMiddleware.check(cfg, &state).unwrap().is_none());
}

#[test]
fn schema_parse_errors_fail_the_step() {
    let e = AssertMiddleware.check("{ a: strng }", &json("{}")).unwrap_err();
    assert_eq!(
        e.to_string(),
        "Middleware execution failed: assert schema parse error: unknown assert type 'strng'"
    );
    assert!(Parser::new("{ a: string").parse().is_err());
    assert!(Parser::new("string(1..2..3)").parse().is_err());
    assert!(Parser::new("string junk").parse().is_err());
}

#[test]
fn messages_of_each_kind() {
    assert_eq!(
        issue("number", r#""x""#),
        Some(("$".to_string(), "Expected number at $, got string".to_string()))
    );
    assert_eq!(
        issue("string(2..3)", r#""a""#),
        Some(("$".to_string(), "Expected string at $ to be at least 2 characters".to_string()))
    );
    assert_eq!(
        issue("string(..3)", r#""abcd""#),
        Some(("$".to_string(), "Expected string at $ to be at most 3 characters".to_string()))
    );
    assert_eq!(issue("string(2)", r#""ab""#), None);
    assert_eq!(
        issue("email", r#""@x.y""#),
        Some(("$".to_string(), "Expected valid email at $".to_string()))
    );
    assert_eq!(issue("email", r#""a@x.y""#), None);
    assert_eq!(
        issue(r#""ready""#, r#""done""#),
        Some(("$".to_string(), "Expected literal \"ready\" at $, got string".to_string()))
    );
    assert_eq!(
        issue("[number]", "[1, true]"),
        Some(("$[1]".to_string(), "Expected number at $[1], got boolean".to_string()))
    );
    assert_eq!(
        issue("number | null", r#""s""#),
        Some((
            "$".to_string(),
            "Value at $ did not match any union member: Expected number at $, got string; Expected null at $, got string"
                .to_string()
        ))
    );
    assert_eq!(issue("{ a: { b?: bool } }", r#"{"a": {}}"#), None);
    assert_eq!(issue("any", "[1]"), None);
    assert_eq!(issue("{ ..., a: 1.5 }", r#"{"a": 1.5}"#), None);
    assert_eq!(
        issue("1", "1"),
        Some(("$".to_string(), "Expected literal 1.0 at $, got number".to_string()))
    );
    assert_eq!(issue("-0.50", "-0.5"), None);
}

#[test]
fn schema_parse_error_messages() {
    let err = |t: &str| Parser::new(t).parse().err().unwrap();
    assert_eq!(err("{ a: string"), "expected object field name, got end of schema");
    assert_eq!(err("string junk"), "unexpected token 'j'");
    assert_eq!(err("[number"), "expected ']', got 'end of schema'");
    assert_eq!(err("{ a number }"), "expected ':', got 'n'");
    assert_eq!(err(""), "unexpected end of schema");
    assert_eq!(err("%"), "unexpected token '%'");
    assert_eq!(err("widget"), "unknown assert type 'widget'");
}

#[test]
fn schema_shapes_read_from_text() {
    match schema("string | null") {
        AssertSchema::Union(options) => {
            assert_eq!(options.len(), 2);
            assert!(matches!(options[0], AssertSchema::String { min: None, max: None }));
            assert!(matches!(options[1], AssertSchema::Null));
        }
        _ => panic!("expected a union"),
    }
    match schema("{ ..., id: number, tag?: \"x\", }") {
        AssertSchema::Object(fields) => {
            assert_eq!(fields.len(), 2);
            assert_eq!(fields[0].name, "id");
            assert!(!fields[0].optional);
            assert_eq!(fields[1].name, "tag");
            assert!(fields[1].optional);
        }
        _ => panic!("expected an object"),
    }
    assert!(matches!(schema("[]"), AssertSchema::Array(_)));
    assert!(matches!(schema("string(2..5)"), AssertSchema::String { min: Some(2), max: Some(5) }));
}

#[test]
fn number_literals_are_read_as_correctly_rounded_floats() {
    match schema("9007199254740993") {
        AssertSchema::Literal(JsonValue::Number(JsonNumber::Float(t))) => assert_eq!(t, "9007199254740992.0"),
        _ => panic!("expected a number literal"),
    }
    match schema("-1.5") {
        AssertSchema::Literal(JsonValue::Number(JsonNumber::Float(t))) => assert_eq!(t, "-1.5"),
        _ => panic!("expected a number literal"),
    }
}

#[test]
fn unions_accept_what_any_member_accepts_and_objects_allow_extra_keys() {
    for value in ["1", r#""s""#, "null", "true"] {
        let members = ["number", "string", "null"].iter().any(|m| issue(m, value).is_none());
        assert_eq!(issue("number | string | null", value).is_none(), members);
    }
    assert_eq!(issue("{ a: number, b?: string }", r#"{"a": 1, "extra": [true]}"#), None);
    assert!(issue("{ a: number, b?: string }", r#"{"a": 1, "b": 2}"#).is_some());
    assert!(issue("{ a: number }", "[1]").is_some());
    assert_eq!(issue("unknown", r#"{"anything": [1, 2]}"#), None);
}
