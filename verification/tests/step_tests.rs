use webpipe::ast::{ConfigType, Pipeline, PipelineStep, SourceLocation};
use webpipe::json::{JsonNumber, JsonValue};
use webpipe::ast::{DispatchBranch, Tag, TagExpr};
use webpipe::step::{branch_content_type, condition_holds, foreach_items, restore_cookies, select_dispatch};
use webpipe::error::WebPipeError;
use webpipe::tags::TagContext;
use webpipe::step::{check_cache_control_signal, determine_step_name, detect_execution_mode, ExecutionMode};

fn to_jv(v: &serde_json::Value) -> JsonValue {
    match v {
        serde_json::Value::Null => JsonValue::Null,
        serde_json::Value::Bool(b) => JsonValue::Bool(*b),
        serde_json::Value::Number(n) => {
            if let Some(i) = n.as_i64() {
                JsonValue::Number(JsonNumber::Int(i))
            } else if let Some(u) = n.as_u64() {
                JsonValue::Number(JsonNumber::UInt(u))
            } else {
                JsonValue::Number(JsonNumber::Float(n.to_string()))
            }
        }
        serde_json::Value::String(s) => JsonValue::Str(s.clone()),
        serde_json::Value::Array(a) => JsonValue::Array(a.iter().map(to_jv).collect()),
        serde_json::Value::Object(o) => {
            JsonValue::Object(o.iter().map(|(k, v)| (k.clone(), to_jv(v))).collect())
        }
    }
}

fn json(text: &str) -> JsonValue {
    to_jv(&serde_json::from_str(text).unwrap())
}

fn regular(name: &str, config: &str, config_type: ConfigType, location: SourceLocation) -> PipelineStep {
    PipelineStep::Regular {
        name: name.to_string(),
        args: vec![],
        config: config.to_string(),
        config_type,
        condition: None,
        parsed_join_targets: None,
        location,
    }
}

#[test]
fn test_determine_step_name_regular() {
    let step = regular("jq", ".data", ConfigType::Backtick, SourceLocation::default());
    assert_eq!(determine_step_name(&step), "jq");
}

#[test]
fn test_determine_step_name_pipeline() {
    let step = regular("pipeline", "auth", ConfigType::Identifier, SourceLocation::default());
    assert_eq!(determine_step_name(&step), "pipeline:auth");
}

#[test]
fn test_determine_step_name_with_file() {
    let step = regular(
        "jq",
        ".data",
        ConfigType::Backtick,
        SourceLocation::with_file(1, 1, 0, "/path/to/main.wp".to_string()),
    );
    assert_eq!(determine_step_name(&step), "jq@main.wp");
}

#[test]
fn test_determine_step_name_control_flow() {
    let if_step = PipelineStep::If {
        condition: Pipeline { steps: vec![] },
        then_branch: Pipeline { steps: vec![] },
        else_branch: None,
        location: SourceLocation::default(),
    };
    assert_eq!(determine_step_name(&if_step), "if");

    let foreach_step = PipelineStep::Foreach {
        selector: "data.items".to_string(),
        pipeline: Pipeline { steps: vec![] },
        location: SourceLocation::default(),
    };
    assert_eq!(determine_step_name(&foreach_step), "foreach");
}

#[test]
fn test_detect_execution_mode() {
    assert!(matches!(detect_execution_mode("join", &None), ExecutionMode::Join));
    assert!(matches!(detect_execution_mode("pipeline", &None), ExecutionMode::Recursive));
    assert!(matches!(detect_execution_mode("jq", &None), ExecutionMode::Standard));
}

#[test]
fn test_check_cache_control_signal() {
    let no_control = json(r#"{"data": "test"}"#);
    assert!(check_cache_control_signal(&no_control).is_none());

    let with_control = json(
        r#"{"_control": {"stop": true, "value": {"cached": "data"}, "content_type": "text/html"}}"#,
    );
    let result = check_cache_control_signal(&with_control);
    assert!(result.is_some());
    let (value, ct) = result.unwrap();
    assert!(webpipe::json::json_eq(&value, &json(r#"{"cached": "data"}"#)));
    assert_eq!(ct, Some("text/html".to_string()));
}

#[test]
fn step_name_of_file_located_pipeline_call() {
    let step = regular(
        "pipeline",
        "auth",
        ConfigType::Identifier,
        SourceLocation::with_file(3, 1, 0, "lib/users.wp".to_string()),
    );
    assert_eq!(determine_step_name(&step), "pipeline:auth@users.wp");
}

#[test]
fn cache_signal_without_stop_is_ignored() {
    let v = json(r#"{"_control": {"stop": false, "value": 1}}"#);
    assert!(check_cache_control_signal(&v).is_none());
}

#[test]
fn result_branches_keep_cookies_and_pick_content_types() {
    let cookies = JsonValue::Array(vec![JsonValue::Str("a=1".to_string())]);
    let out = restore_cookies(JsonValue::Object(vec![("x".to_string(), JsonValue::Null)]), Some(cookies));
    match &out {
        JsonValue::Object(e) => {
            assert_eq!(e.len(), 2);
            assert!(e.iter().any(|(k, v)| k == "setCookies" && matches!(v, JsonValue::Array(a) if a.len() == 1)));
        }
        _ => panic!("expected an object"),
    }
    let own = JsonValue::Object(vec![("setCookies".to_string(), JsonValue::Array(vec![]))]);
    let kept = restore_cookies(own, Some(JsonValue::Str("ignored".to_string())));
    match &kept {
        JsonValue::Object(e) => assert!(matches!(&e[0].1, JsonValue::Array(a) if a.is_empty())),
        _ => panic!("expected an object"),
    }
    assert!(matches!(restore_cookies(JsonValue::Null, Some(JsonValue::Null)), JsonValue::Null));
    assert_eq!(branch_content_type("text/html".to_string(), "application/json".to_string()), "text/html");
    assert_eq!(branch_content_type("application/json".to_string(), "text/plain".to_string()), "text/plain");
}

#[test]
fn if_conditions_follow_truthiness() {
    assert!(condition_holds(&JsonValue::Bool(true)));
    assert!(!condition_holds(&JsonValue::Bool(false)));
    assert!(!condition_holds(&JsonValue::Null));
    assert!(condition_holds(&JsonValue::Number(JsonNumber::Int(0))));
    assert!(condition_holds(&JsonValue::Str(String::new())));
    assert!(condition_holds(&JsonValue::Array(vec![])));
    assert!(condition_holds(&json("{}")));
}

fn flag_branch(flag: &str, negated: bool) -> DispatchBranch {
    DispatchBranch {
        condition: TagExpr::Tag(Tag { name: "flag".to_string(), negated, args: vec![flag.to_string()] }),
        pipeline: Pipeline { steps: vec![] },
        location: SourceLocation::new(1, 1, 0),
    }
}

#[test]
fn dispatch_takes_the_first_branch_that_holds() {
    let ctx = TagContext {
        environment: None,
        feature_flags: vec![("beta".to_string(), true), ("old".to_string(), false)],
        conditions: vec![],
        guard_results: vec![],
    };
    let branches = vec![flag_branch("old", false), flag_branch("beta", false), flag_branch("old", true)];
    assert_eq!(select_dispatch(&branches, &ctx), Some(1));
    let none_hold = vec![flag_branch("old", false), flag_branch("beta", true), flag_branch("missing", false)];
    assert_eq!(select_dispatch(&none_hold, &ctx), None);
    assert_eq!(select_dispatch(&vec![], &ctx), None);
}

#[test]
fn foreach_takes_the_items_of_an_array() {
    let items = foreach_items(Some(json("[1, \"two\", null]")), "data.items").unwrap();
    assert_eq!(items.len(), 3);
    assert!(matches!(items[1], JsonValue::Str(ref s) if s == "two"));
    for found in [None, Some(json("{\"a\": 1}")), Some(JsonValue::Null)] {
        match foreach_items(found, "data.items") {
            Err(WebPipeError::MiddlewareExecutionError(m)) => {
                assert_eq!(m, "foreach: path 'data.items' is not an array or does not exist")
            }
            _ => panic!("expected the foreach error"),
        }
    }
}
