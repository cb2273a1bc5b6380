//! Tests of the GraphQL loader's batching.

use webpipe::ast::{ConfigType, Pipeline, PipelineStep, SourceLocation};
use webpipe::graphql::{group_loader_keys, key_string, loader_input, loader_start, loader_values, parent_field, pipeline_error_message,
    plan_field, resolver_input, FieldPlan, LoaderKey};
use webpipe::json::{write_json, JsonNumber, JsonValue};
use webpipe::middleware::{chart_content_type, variables_to_strings, ChartFormat};

fn text(v: &JsonValue) -> String {
    let mut out: Vec<char> = Vec::new();
    write_json(v, &mut out);
    out.into_iter().collect()
}

fn key(p: &str, k: JsonValue, ctx: JsonValue) -> LoaderKey {
    LoaderKey { pipeline_name: p.to_string(), key: k, context: ctx }
}

fn n(i: i64) -> JsonValue {
    JsonValue::Number(JsonNumber::Int(i))
}

fn s(t: &str) -> JsonValue {
    JsonValue::Str(t.to_string())
}

#[test]
fn loader_keys_batch_by_pipeline() {
    let ctx = JsonValue::Object(vec![
        ("args".to_string(), JsonValue::Object(vec![("limit".to_string(), n(2))])),
        ("parent".to_string(), JsonValue::Null),
    ]);
    let keys = vec![
        key("usersById", n(1), ctx),
        key("postsByUser", n(1), JsonValue::Null),
        key("usersById", s("7"), JsonValue::Null),
    ];
    let groups = group_loader_keys(&keys);
    assert_eq!(
        groups,
        vec![("usersById".to_string(), vec![0, 2]), ("postsByUser".to_string(), vec![1])]
    );
    let input = loader_input(&keys, &groups[0].1);
    assert_eq!(text(&input), r#"{"args":{"limit":2},"context":null,"keys":[1,"7"]}"#);
    assert_eq!(key_string(&n(1)), "1");
    assert_eq!(key_string(&s("7")), "7");
    assert_eq!(key_string(&JsonValue::Bool(true)), "true");
    let result = JsonValue::Object(vec![("1".to_string(), s("ann"))]);
    let values = loader_values(&result, &keys, &groups[0].1).unwrap();
    assert_eq!(values.iter().map(text).collect::<Vec<_>>(), vec![r#""ann""#.to_string(), "null".to_string()]);
    assert!(loader_values(&n(3), &keys, &groups[0].1).is_none());
}

#[test]
fn chart_variables_are_written_as_text() {
    let vars = vec![
        ("title".to_string(), s("Sales")),
        ("n".to_string(), n(3)),
        ("on".to_string(), JsonValue::Bool(false)),
        ("none".to_string(), JsonValue::Null),
        ("list".to_string(), JsonValue::Array(vec![n(1), n(2)])),
    ];
    let out = variables_to_strings(&vars);
    let texts: Vec<(&str, &str)> = out.iter().map(|(k, v)| (k.as_str(), v.as_str())).collect();
    assert_eq!(texts, vec![("title", "Sales"), ("n", "3"), ("on", "false"), ("none", ""), ("list", "[1,2]")]);
    assert_eq!(chart_content_type(ChartFormat::Svg), "image/svg+xml");
    assert_eq!(chart_content_type(ChartFormat::Png), "image/png");
}

fn step(name: &str, args: &[&str], config: &str) -> PipelineStep {
    PipelineStep::Regular {
        name: name.to_string(),
        args: args.iter().map(|a| a.to_string()).collect(),
        config: config.to_string(),
        config_type: ConfigType::Identifier,
        condition: None,
        parsed_join_targets: None,
        location: SourceLocation::new(1, 1, 0),
    }
}

#[test]
fn fields_with_a_loader_step_are_batched_in_type_resolvers_only() {
    let plain = Pipeline { steps: vec![step("jq", &[], "."), step("pg", &[], "select 1")] };
    assert!(matches!(plan_field("Query", &plain), Ok(FieldPlan::Pipeline)));
    let batched = Pipeline {
        steps: vec![step("debug", &[], "x"), step("loader", &[".parent.id"], "PostsByUser"), step("jq", &[], ".")],
    };
    match plan_field("User", &batched) {
        Ok(FieldPlan::Loader { index, pipeline_name, key_expr }) => {
            assert_eq!(index, 1);
            assert_eq!(pipeline_name, "PostsByUser");
            assert_eq!(key_expr, ".parent.id");
        }
        _ => panic!("expected a loader plan"),
    }
    for root in ["Query", "Mutation"] {
        match plan_field(root, &batched) {
            Err(m) => assert_eq!(m, "loader can only be used in type resolvers, not Query/Mutation"),
            _ => panic!("a root field cannot batch"),
        }
    }
    let keyless = Pipeline { steps: vec![step("loader", &[], "PostsByUser")] };
    match plan_field("User", &keyless) {
        Err(m) => assert_eq!(m, "loader requires a key expression"),
        _ => panic!("a loader needs a key expression"),
    }
}

#[test]
fn resolver_inputs_hold_the_parent_and_the_arguments() {
    let input = resolver_input(Some(s("p")), vec![("id".to_string(), n(7)), ("limit".to_string(), n(2))]);
    assert_eq!(text(&input), r#"{"id":7,"limit":2,"parent":"p"}"#);
    let root = resolver_input(None, vec![("id".to_string(), n(1)), ("id".to_string(), n(2))]);
    assert_eq!(text(&root), r#"{"id":2}"#);
    let start = loader_start(Some(s("u"))).unwrap();
    assert_eq!(text(&start), r#"{"parent":"u"}"#);
    match loader_start(None) {
        Err(m) => assert_eq!(m, "loader requires parent context"),
        Ok(_) => panic!("a loader needs its parent"),
    }
}

#[test]
fn pipeline_errors_become_field_errors() {
    let with = |errors: JsonValue| JsonValue::Object(vec![("errors".to_string(), errors)]);
    let first = JsonValue::Object(vec![("message".to_string(), s("boom"))]);
    assert_eq!(pipeline_error_message(&with(JsonValue::Array(vec![first, s("x")]))), Some("boom".to_string()));
    assert_eq!(
        pipeline_error_message(&with(JsonValue::Array(vec![n(1)]))),
        Some("Unknown pipeline error".to_string())
    );
    assert_eq!(pipeline_error_message(&with(JsonValue::Array(vec![]))), None);
    assert_eq!(pipeline_error_message(&with(s("not a list"))), None);
    assert_eq!(pipeline_error_message(&JsonValue::Array(vec![])), None);
}

#[test]
fn fields_without_a_pipeline_read_the_parent() {
    let parent = JsonValue::Object(vec![("name".to_string(), s("Ada")), ("tags".to_string(), JsonValue::Array(vec![]))]);
    assert!(matches!(parent_field(&parent, "name"), Some(JsonValue::Str(ref t)) if t == "Ada"));
    assert!(parent_field(&parent, "missing").is_none());
    assert!(parent_field(&s("scalar"), "name").is_none());
    assert!(matches!(parent_field(&parent, "tags"), Some(JsonValue::Array(ref a)) if a.is_empty()));
}
