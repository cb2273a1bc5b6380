//! Tests of the data-fetching middleware's decisions: `fetch` requests and
//! results, `pg` statements and results.

use webpipe::fetch::{build_fetch_error_object, fetch_plan, fetch_result_state};
use webpipe::json::{write_json, JsonNumber, JsonValue};
use webpipe::pg::{build_sql_error_value, execute_state, pg_sql, query_kind, rows_state, sql_params_from_state, PgQuery};

fn to_jv(v: &serde_json::Value) -> JsonValue {
    match v {
        serde_json::Value::Null => JsonValue::Null,
        serde_json::Value::Bool(b) => JsonValue::Bool(*b),
        serde_json::Value::Number(n) => {
            if let Some(i) = n.as_i64() {
                JsonValue::Number(JsonNumber::Int(i))
            } else if let Some(u) = n.as_u64() {
                JsonValue::Number(JsonNumber::UInt(u))
            } else {
                JsonValue::Number(JsonNumber::Float(n.to_string()))
            }
        }
        serde_json::Value::String(s) => JsonValue::Str(s.clone()),
        serde_json::Value::Array(a) => JsonValue::Array(a.iter().map(to_jv).collect()),
        serde_json::Value::Object(o) => JsonValue::Object(o.iter().map(|(k, v)| (k.clone(), to_jv(v))).collect()),
    }
}

fn json(text: &str) -> JsonValue {
    to_jv(&serde_json::from_str(text).unwrap())
}

fn text(v: &JsonValue) -> String {
    let mut out: Vec<char> = Vec::new();
    write_json(v, &mut out);
    out.into_iter().collect()
}

#[test]
fn fetch_plans_come_from_the_state() {
    let state = json(
        r#"{"fetchUrl":" https://api.test/x ","fetchMethod":"POST","fetchTimeout":5,
            "fetchHeaders":{"X-A":"1","X-N":2},"fetchBody":{"q":1},"resultName":"api"}"#,
    );
    let p = fetch_plan(&state, "https://ignored").unwrap();
    assert_eq!(p.url, "https://api.test/x");
    assert_eq!(p.method, "POST");
    assert_eq!(p.timeout_secs, Some(5));
    assert_eq!(p.headers, vec![("X-A".to_string(), "1".to_string())]);
    assert_eq!(text(p.body.as_ref().unwrap()), r#"{"q":1}"#);
    assert_eq!(p.result_name.as_deref(), Some("api"));
    let p = fetch_plan(&json("{}"), " https://cfg.test ").unwrap();
    assert_eq!((p.url.as_str(), p.method.as_str()), ("https://cfg.test", "GET"));
    assert!(p.body.is_none() && p.result_name.is_none() && p.timeout_secs.is_none());
    let e = fetch_plan(&json("{}"), "  ").err().unwrap();
    assert_eq!(text(&e), r#"{"errors":[{"message":"Missing URL for fetch middleware","type":"networkError"}]}"#);
}

#[test]
fn fetch_errors_carry_their_details() {
    let e = build_fetch_error_object("httpError", json(r#"{"status":404,"message":"nope","url":"u"}"#));
    assert_eq!(text(&e), r#"{"errors":[{"message":"nope","status":404,"type":"httpError","url":"u"}]}"#);
    let e = build_fetch_error_object("networkError", JsonValue::Str("down".to_string()));
    assert_eq!(text(&e), r#"{"errors":[{"message":"\"down\"","type":"networkError"}]}"#);
}

#[test]
fn fetch_results_land_under_data() {
    let hs = vec![("content-type".to_string(), "a".to_string()), ("content-type".to_string(), "b".to_string())];
    let s = fetch_result_state(json(r#"{"x":1}"#), &None, 200, &hs, json(r#"{"ok":true}"#));
    assert_eq!(
        text(&s),
        r#"{"data":{"headers":{"content-type":"b"},"response":{"ok":true},"status":200},"x":1}"#
    );
    let s = fetch_result_state(json(r#"{"data":{"old":1}}"#), &Some("api".to_string()), 201, &vec![], json("3"));
    assert_eq!(text(&s), r#"{"data":{"api":{"headers":{},"response":3,"status":201},"old":1}}"#);
    let s = fetch_result_state(json("[1]"), &None, 200, &vec![], json("3"));
    assert_eq!(text(&s), "[1]");
}

#[test]
fn pg_statements_and_results() {
    assert_eq!(pg_sql("  SELECT 1 ").unwrap(), "SELECT 1");
    assert_eq!(pg_sql("   ").unwrap_err().to_string(), "Database error: Empty SQL config for pg middleware");
    match query_kind("  Select * from t") {
        PgQuery::Rows(w) => assert_eq!(
            w,
            "WITH t AS (  Select * from t) SELECT COALESCE(json_agg(row_to_json(t)), '[]'::json) AS rows FROM t"
        ),
        PgQuery::Execute => panic!("expected rows"),
    }
    assert!(matches!(query_kind("INSERT INTO t VALUES (1) RETURNING id"), PgQuery::Rows(_)));
    assert!(matches!(query_kind("DELETE FROM t"), PgQuery::Execute));
    let params = sql_params_from_state(&json(r#"{"sqlParams":[1,"a"]}"#));
    assert_eq!(params.len(), 2);
    assert!(sql_params_from_state(&json(r#"{"sqlParams":"x"}"#)).is_empty());
    assert_eq!(text(&rows_state(json(r#"[{"id":1},{"id":2}]"#), true)), r#"{"rowCount":2,"rows":[{"id":1},{"id":2}]}"#);
    assert_eq!(text(&rows_state(json("[]"), false)), r#"{"data":{"rowCount":0,"rows":[]}}"#);
    assert_eq!(text(&execute_state(3, false)), r#"{"data":{"rowCount":3,"rows":[]}}"#);
    let e = build_sql_error_value("relation missing", Some("42P01".to_string()), Some("Error".to_string()), "SELECT 1");
    assert_eq!(
        text(&e),
        r#"{"errors":[{"message":"relation missing","query":"SELECT 1","severity":"Error","sqlstate":"42P01","type":"sqlError"}]}"#
    );
}

#[test]
fn build_sql_error_object_shape() {
    let v = build_sql_error_value("error with configuration: bad config", None, None, "SELECT 1");
    let t = text(&v);
    assert!(t.contains(r#""type":"sqlError""#));
    assert!(t.contains(r#""query":"SELECT 1""#));
    assert_eq!(
        t,
        r#"{"errors":[{"message":"error with configuration: bad config","query":"SELECT 1","type":"sqlError"}]}"#
    );
}
