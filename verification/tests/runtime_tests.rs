//! Tests of the debugger's decisions, the GraphQL registry, and the log,
//! cache, jq, debug and stdin middleware.

use webpipe::cache::{cache_action, cache_key, cache_policy, cache_step_effect, cache_step_plan, default_cache_key, parse_cache_config, render_key_template, CacheAction, CacheLookup};
use std::hash::{Hash, Hasher};
use webpipe::context::StepMode;
use webpipe::debugger::{
    escape_json_pointer, format_preview, json_to_variables_cached, json_type_name, pause_reason, reason_text, resume,
    should_pause_step, step_mode_after, thread_var_range, PauseReason, StepAction, StepCommand, SteppingMode,
};
use webpipe::error::WebPipeError;
use webpipe::graphql::{find_resolver, pipeline_registry, ResolverSource};
use webpipe::json::{JsonNumber, JsonValue};
use webpipe::log::{effective_log_config, log_request_object, log_response_object, parse_step_config};
use webpipe::middleware::{jq_filter, jq_input, jq_truthy, stdin_lines, DebugMiddleware, StdinMiddleware, StdinMode};
use webpipe::program::parse_program;
use webpipe::rate_limit::{parse_config, rate_limit_plan, rate_limit_verdict, RatePlan};
use webpipe::step::{apply_data_wrap, is_effectively_last_step, should_wrap_result, takes_content_type};
use webpipe::tags::TagContext;

fn to_jv(v: &serde_json::Value) -> JsonValue {
    match v {
        serde_json::Value::Null => JsonValue::Null,
        serde_json::Value::Bool(b) => JsonValue::Bool(*b),
        serde_json::Value::Number(n) => {
            if let Some(i) = n.as_i64() {
                JsonValue::Number(JsonNumber::Int(i))
            } else if let Some(u) = n.as_u64() {
                JsonValue::Number(JsonNumber::UInt(u))
            } else {
                JsonValue::Number(JsonNumber::Float(n.to_string()))
            }
        }
        serde_json::Value::String(s) => JsonValue::Str(s.clone()),
        serde_json::Value::Array(a) => JsonValue::Array(a.iter().map(to_jv).collect()),
        serde_json::Value::Object(o) => JsonValue::Object(o.iter().map(|(k, v)| (k.clone(), to_jv(v))).collect()),
    }
}

fn json(text: &str) -> JsonValue {
    to_jv(&serde_json::from_str(text).unwrap())
}

fn text(v: &JsonValue) -> String {
    let mut out = Vec::new();
    webpipe::json::write_json(v, &mut out);
    out.into_iter().collect()
}

#[test]
fn stepping_modes_pause_by_depth() {
    assert!(should_pause_step(Some(SteppingMode::StepInto), 7));
    assert!(should_pause_step(Some(SteppingMode::StepOver { target_depth: 2 }), 2));
    assert!(!should_pause_step(Some(SteppingMode::StepOver { target_depth: 2 }), 3));
    assert!(should_pause_step(Some(SteppingMode::StepOut { target_depth: 2 }), 1));
    assert!(!should_pause_step(Some(SteppingMode::StepOut { target_depth: 2 }), 2));
    assert!(!should_pause_step(None, 0));
}

#[test]
fn breakpoints_come_before_stepping() {
    assert_eq!(pause_reason(true, Some(SteppingMode::StepInto), 1), Some(PauseReason::Breakpoint));
    assert_eq!(pause_reason(false, Some(SteppingMode::StepInto), 1), Some(PauseReason::Step));
    assert_eq!(pause_reason(false, None, 1), None);
    assert_eq!(reason_text(PauseReason::Breakpoint), "breakpoint");
    assert_eq!(reason_text(PauseReason::Step), "step");
}

#[test]
fn resume_commands_map_to_actions() {
    let (a, s) = resume(StepCommand::StepOver(Some(json("{\"x\":1}"))));
    assert!(matches!(a, StepAction::StepOver));
    assert_eq!(text(&s.unwrap()), "{\"x\":1}");
    let (a, s) = resume(StepCommand::Continue(None));
    assert!(matches!(a, StepAction::Continue));
    assert!(s.is_none());
    assert_eq!(step_mode_after(StepAction::Continue), None);
    assert_eq!(step_mode_after(StepAction::StepIn), Some(StepMode::StepIn));
    assert_eq!(step_mode_after(StepAction::StepOut), Some(StepMode::StepOut));
}

#[test]
fn variable_helpers() {
    assert_eq!(escape_json_pointer("a/b~c"), "a~1b~0c");
    assert_eq!(thread_var_range(3), (300000, 399999));
    assert_eq!(format_preview(&json("{\"a\":1}")), "{...}");
    assert_eq!(format_preview(&json("[1,2,3]")), "[3 items]");
    assert_eq!(format_preview(&json("\"hi\"")), "\"hi\"");
    assert_eq!(format_preview(&json("12")), "12");
    assert_eq!(json_type_name(&json("true")), "boolean");
    assert_eq!(json_type_name(&json("null")), "null");
}

#[test]
fn variables_of_an_object_cache_its_nested_values() {
    let v = json("{\"a\": 1, \"b/c\": {\"d\": 2}, \"e\": [1, 2]}");
    let mut counter = 4i64;
    let (vars, cache) = json_to_variables_cached(&v, 2, "/data", &mut counter);
    assert_eq!(vars.len(), 3);
    assert_eq!(counter, 6);
    assert_eq!(vars[0].name, "a");
    assert_eq!(vars[0].value, "1");
    assert_eq!(vars[0].variables_reference, 0);
    assert_eq!(vars[1].name, "b/c");
    assert_eq!(vars[1].variables_reference, 200005);
    assert_eq!(vars[1].named_variables, Some(1));
    assert_eq!(vars[2].variables_reference, 200006);
    assert_eq!(vars[2].indexed_variables, Some(2));
    assert_eq!(vars[2].type_, "array");
    assert_eq!(cache.len(), 2);
    assert_eq!(cache[0].pointer, "/data/b~1c");
    assert_eq!(cache[1].pointer, "/data/e");
    assert_eq!(cache[1].reference, 200006);
}

#[test]
fn variables_of_an_array_and_of_a_scalar() {
    let v = json("[\"x\", [1]]");
    let mut counter = 0i64;
    let (vars, cache) = json_to_variables_cached(&v, 1, "", &mut counter);
    assert_eq!(vars[0].name, "[0]");
    assert_eq!(vars[0].value, "\"x\"");
    assert_eq!(vars[1].name, "[1]");
    assert_eq!(cache[0].pointer, "/1");
    assert_eq!(cache[0].reference, 100001);
    let (vars, cache) = json_to_variables_cached(&json("false"), 1, "", &mut counter);
    assert_eq!(vars.len(), 1);
    assert_eq!(vars[0].name, "value");
    assert_eq!(vars[0].value, "false");
    assert_eq!(vars[0].type_, "boolean");
    assert!(cache.is_empty());
}

#[test]
fn registry_keys_and_last_declaration_wins() {
    let src = "query users =\n  |> jq: `1`\n\nmutation addUser =\n  |> jq: `2`\n\nresolver Query.users =\n  |> jq: `3`\n";
    let (_rest, program) = parse_program(src).unwrap();
    let keys: Vec<String> = pipeline_registry(&program).into_iter().map(|(k, _)| k).collect();
    assert_eq!(keys, vec!["Query.users", "Mutation.addUser", "Query.users"]);
    assert_eq!(find_resolver(&program, "Query.users"), Some(ResolverSource::Field(0)));
    assert_eq!(find_resolver(&program, "Mutation.addUser"), Some(ResolverSource::Mutation(0)));
    assert_eq!(find_resolver(&program, "Query.other"), None);
}

#[test]
fn log_settings_fall_back_on_the_global_config() {
    let step = parse_step_config("level: info\nincludeBody: TRUE, bogus, enabled: yes");
    assert_eq!(step.level.as_deref(), Some("info"));
    assert_eq!(step.include_body, Some(true));
    assert_eq!(step.enabled, None);
    let global = json("{\"enabled\": true, \"level\": \"warn\", \"includeHeaders\": false}");
    let cfg = effective_log_config(&step, &global).unwrap();
    assert_eq!(cfg.level, "info");
    assert!(cfg.include_body);
    assert!(!cfg.include_headers);
    let off = parse_step_config("enabled: false");
    assert!(effective_log_config(&off, &global).is_none());
    let dflt = effective_log_config(&parse_step_config(""), &json("{}")).unwrap();
    assert_eq!(dflt.level, "debug");
    assert!(!dflt.include_body);
    assert!(dflt.include_headers);
}

#[test]
fn log_entry_parts() {
    let input = json("{\"originalRequest\": {\"method\": \"GET\", \"query\": {\"q\": 1}, \"body\": 2}, \"headers\": {\"h\": \"v\"}}");
    assert_eq!(text(&log_request_object(&input, true)), "{\"headers\":{\"h\":\"v\"},\"method\":\"GET\",\"query\":{\"q\":1}}");
    assert_eq!(text(&log_request_object(&input, false)), "{\"method\":\"GET\",\"query\":{\"q\":1}}");
    let resp = json("{\"a\": 1, \"originalRequest\": {}, \"setCookies\": []}");
    assert_eq!(text(&log_response_object(&resp, true)), "{\"body\":{\"a\":1}}");
    assert_eq!(text(&log_response_object(&resp, false)), "{}");
}

#[test]
fn cache_settings_and_keys() {
    let step = parse_cache_config("ttl: 30, keyTemplate: user-{ params.id }-{missing}");
    let policy = cache_policy(&step, &json("{\"defaultTtl\": 90}")).unwrap();
    assert_eq!(policy.ttl, 30);
    assert_eq!(policy.key_template.as_deref(), Some("user-{ params.id }-{missing}"));
    let dflt = cache_policy(&parse_cache_config(""), &json("{\"defaultTtl\": 90}")).unwrap();
    assert_eq!(dflt.ttl, 90);
    assert!(cache_policy(&parse_cache_config("enabled: false"), &json("{}")).is_none());
    assert!(cache_policy(&parse_cache_config(""), &json("{\"enabled\": false}")).is_none());
    let input = json("{\"params\": {\"id\": 7}, \"flag\": true, \"name\": \"ann\"}");
    assert_eq!(render_key_template("user-{ params.id }-{missing}", &input), "user-7-");
    assert_eq!(render_key_template("{name}:{flag}:{params}", &input), "ann:true:{\"id\":7}");
    assert_eq!(render_key_template("open{brace", &input), "open{brace");
}

#[test]
fn cache_lookups_decide_hit_or_save() {
    assert!(matches!(cache_action(CacheLookup::Fresh(json("1"))), CacheAction::Hit(_)));
    assert!(matches!(cache_action(CacheLookup::Stale(json("1"))), CacheAction::Hit(_)));
    assert!(matches!(cache_action(CacheLookup::Refresh(json("1"))), CacheAction::Save { refreshing: true }));
    assert!(matches!(cache_action(CacheLookup::Miss), CacheAction::Save { refreshing: false }));
}

#[test]
fn jq_framing_and_truthiness() {
    assert_eq!(jq_filter(".a"), ".context as $context | .state | .a");
    assert_eq!(text(&jq_input(json("{\"a\":1}"), json("{}"))), "{\"context\":{},\"state\":{\"a\":1}}");
    assert!(!jq_truthy(&json("false")));
    assert!(!jq_truthy(&json("null")));
    assert!(jq_truthy(&json("0")));
    assert!(jq_truthy(&json("\"\"")));
}

#[test]
fn debug_label_and_stdin_modes() {
    assert_eq!(DebugMiddleware::label("  "), "debug");
    assert_eq!(DebugMiddleware::label(" users "), "users");
    assert_eq!(StdinMiddleware::mode("", true).unwrap(), StdinMode::Text);
    assert_eq!(StdinMiddleware::mode(" json ", true).unwrap(), StdinMode::Json);
    assert_eq!(StdinMiddleware::mode("lines", true).unwrap(), StdinMode::Lines);
    match StdinMiddleware::mode("csv", true) {
        Err(WebPipeError::MiddlewareExecutionError(m)) => {
            assert_eq!(m, "unknown stdin mode 'csv', expected text, json, or lines")
        }
        _ => panic!("expected an error"),
    }
    match StdinMiddleware::mode("text", false) {
        Err(WebPipeError::MiddlewareExecutionError(m)) => assert_eq!(m, "stdin is only available in script mode"),
        _ => panic!("expected an error"),
    }
    assert_eq!(text(&stdin_lines("a\r\nb\n\nc")), "[\"a\",\"b\",\"\",\"c\"]");
    assert_eq!(text(&stdin_lines("x\n")), "[\"x\"]");
}

#[test]
fn rate_limit_plan_requires_its_settings() {
    let input = json("{\"ip\": \"1.2.3.4\"}");
    let plan = rate_limit_plan(&parse_config("keyTemplate: ip-{ip}, limit: 5, window: 0s"), &input).unwrap().unwrap();
    assert_eq!(plan.key, "ip-1.2.3.4");
    assert_eq!(plan.limit, 5);
    assert_eq!(plan.window_secs, 1);
    assert!(rate_limit_plan(&parse_config("enabled: false"), &input).unwrap().is_none());
    match rate_limit_plan(&parse_config("limit: 5, window: 60s"), &input) {
        Err(WebPipeError::ConfigError(m)) => assert_eq!(m, "rateLimit: keyTemplate is required"),
        _ => panic!("expected a config error"),
    }
    match rate_limit_plan(&parse_config("keyTemplate: k, limit: 5"), &input) {
        Err(WebPipeError::ConfigError(m)) => assert_eq!(m, "rateLimit: window is required"),
        _ => panic!("expected a config error"),
    }
}

#[test]
fn rate_limit_verdicts() {
    let plan = RatePlan { key: "ip-1".to_string(), limit: 2, window_secs: 60, burst: None };
    let input = json("{\"a\": 1, \"_metadata\": {\"other\": true}}");
    match rate_limit_verdict(&plan, &None, &input, false, 3, 2, 17) {
        Err(e) => {
            assert_eq!(e.status_code(), 429);
            assert_eq!(e.to_string(), "Rate limit exceeded: Rate limit exceeded for key 'ip-1': 3/2 requests in 60s window. Retry after 17s");
        }
        Ok(_) => panic!("expected a refusal"),
    }
    let out = rate_limit_verdict(&plan, &Some("route".to_string()), &input, true, 1, 2, 59).unwrap();
    assert_eq!(
        text(&out),
        "{\"_metadata\":{\"other\":true,\"rateLimit\":{\"key\":\"ip-1\",\"limit\":2,\"remaining\":1,\"resetAfter\":59,\"scope\":\"route\"}},\"a\":1}"
    );
    let scalar = rate_limit_verdict(&plan, &None, &json("7"), true, 0, 2, 1).unwrap();
    assert_eq!(text(&scalar), "7");
}

#[test]
fn step_result_handling() {
    assert!(should_wrap_result("pg", &Some("users".to_string())));
    assert!(!should_wrap_result("pg", &None));
    assert!(!should_wrap_result("jq", &Some("users".to_string())));
    let out = apply_data_wrap(json("{\"a\": 1, \"data\": {\"x\": 0}}"), json("[1]"), "users");
    assert_eq!(text(&out), "{\"a\":1,\"data\":{\"users\":[1],\"x\":0}}");
    let out = apply_data_wrap(json("5"), json("true"), "t");
    assert_eq!(text(&out), "{\"data\":{\"t\":true}}");
    assert!(takes_content_type("handlebars", "text/html", false));
    assert!(!takes_content_type("jq", "text/html", false));
    assert!(!takes_content_type("pipeline", "application/json", false));
    assert!(takes_content_type("jq", "application/json", true));
    let src = "pipeline p =\n  |> jq: `1`\n  |> jq: `2` @flag(beta)\n  |> jq: `3` @!flag(beta)\n";
    let (_rest, program) = parse_program(src).unwrap();
    let steps = &program.pipelines[0].pipeline.steps;
    let off = TagContext { environment: None, feature_flags: vec![], conditions: vec![], guard_results: vec![] };
    assert!(!is_effectively_last_step(0, steps, &off));
    assert!(!is_effectively_last_step(1, steps, &off));
    assert!(is_effectively_last_step(2, steps, &off));
    let on = TagContext { environment: None, feature_flags: vec![("beta".to_string(), true)], conditions: vec![], guard_results: vec![] };
    assert!(is_effectively_last_step(1, steps, &on));
}

#[test]
fn readme_hello_world_parses() {
    let src = r#"
GET /hello/:world
  |> jq: `{ world: .params.world }`
  |> handlebars: `<p>hello, {{world}}</p>`

describe "hello, world"
  it "calls the route"
    let world = "world"
    
    when calling GET /hello/{{world}}
    then status is 200
    and selector `p` text equals "hello, {{world}}"
"#;
    let (_rest, program) = parse_program(src).unwrap();
    assert_eq!(program.routes.len(), 1);
    assert_eq!(program.routes[0].path, "/hello/:world");
    let t = &program.describes[0].tests[0];
    assert_eq!(t.variables[0].1, "world");
    assert!(matches!(t.when, webpipe::ast::When::CallingRoute { ref path, .. } if path == "/hello/{{world}}"));
    assert_eq!(t.conditions.len(), 2);
    assert_eq!(t.conditions[1].value, "hello, {{world}}");
}

#[test]
fn printing_a_parsed_program_is_stable() {
    let src = r#"
config cache {
  enabled: true
  defaultTtl: 60
}

pipeline simple =
  |> handlebars: `Hello`

GET /
  |> pipeline: simple
  |> jq: `.` @dev and @flag(x)

describe "home"
  it "returns html"
    when calling GET /
    then status is 200
"#;
    let (_rest, p1) = parse_program(src).unwrap();
    let t1 = p1.to_string();
    let (_rest, p2) = parse_program(&t1).unwrap();
    let t2 = p2.to_string();
    assert_eq!(t1, t2);
}

fn expected_default_key(step_id: Option<&str>, config: &str, input: &serde_json::Value) -> String {
    let mut hasher = std::collections::hash_map::DefaultHasher::new();
    if let Some(id) = step_id {
        id.hash(&mut hasher);
    }
    config.hash(&mut hasher);
    if let Some(m) = input.get("method").and_then(|v| v.as_str()) {
        m.hash(&mut hasher);
    }
    if let Some(p) = input.get("path").and_then(|v| v.as_str()) {
        p.hash(&mut hasher);
    }
    if let Some(q) = input.get("query") {
        serde_json::to_string(q).unwrap().hash(&mut hasher);
    }
    if let Some(p) = input.get("params") {
        serde_json::to_string(p).unwrap().hash(&mut hasher);
    }
    format!("pipeline:{:x}", hasher.finish())
}

#[test]
fn default_cache_keys_hash_step_config_and_request() {
    let text_in = r#"{"method":"GET","path":"/users","query":{"page":"2"},"params":{"id":"7"},"body":null}"#;
    let raw: serde_json::Value = serde_json::from_str(text_in).unwrap();
    let input = json(text_in);
    let key = default_cache_key(&Some("step-3".to_string()), "ttl: 30", &input);
    assert_eq!(key, expected_default_key(Some("step-3"), "ttl: 30", &raw));
    assert!(key.starts_with("pipeline:"));
    // The step's id keeps two steps with the same configuration apart.
    let other = default_cache_key(&Some("step-4".to_string()), "ttl: 30", &input);
    assert_ne!(key, other);
    // Without an id or request parts, only the configuration is hashed.
    let bare = default_cache_key(&None, "ttl: 30", &JsonValue::Null);
    assert_eq!(bare, expected_default_key(None, "ttl: 30", &serde_json::Value::Null));
    // A template wins over the default key.
    let step = parse_cache_config("keyTemplate: user-{params.id}");
    assert_eq!(cache_key(&step, &Some("step-3".to_string()), "keyTemplate: user-{params.id}", &input), "user-7");
    let plain = parse_cache_config("ttl: 30");
    assert_eq!(cache_key(&plain, &Some("step-3".to_string()), "ttl: 30", &input), key);
}

#[test]
fn cache_steps_plan_then_hit_or_register_a_save() {
    let input = json(r#"{"params":{"id":"7"}}"#);
    let global = json(r#"{"enabled": true, "defaultTtl": 90}"#);
    let step = parse_cache_config("keyTemplate: user-{params.id}");
    let (policy, key) = cache_step_plan(&step, &global, &None, "keyTemplate: user-{params.id}", &input).unwrap();
    assert_eq!(key, "user-7");
    assert_eq!(policy.ttl, 90);
    assert!(cache_step_plan(&parse_cache_config("enabled: false"), &global, &None, "enabled: false", &input).is_none());
    let hit = cache_step_effect(&policy, key.clone(), CacheLookup::Stale(json("[1]")));
    assert!(hit.save.is_none());
    assert_eq!(text(&hit.hit.unwrap()), "[1]");
    let miss = cache_step_effect(&policy, key.clone(), CacheLookup::Miss);
    let save = miss.save.unwrap();
    assert!(miss.hit.is_none());
    assert_eq!((save.key.as_str(), save.ttl, save.refreshing), ("user-7", 90, false));
    let refresh = cache_step_effect(&policy, key, CacheLookup::Refresh(JsonValue::Null)).save.unwrap();
    assert!(refresh.refreshing);
}
