//! Tests of the test-block grammar and of the printer.

use webpipe::ast::{Condition, ConditionType, DomAssertType, LetValueFormat, PipelineStep, TagExpr, When};
use webpipe::describe::{parse_condition, parse_let_binding, parse_mock, parse_and_mock, parse_when, parse_with_clause};
use webpipe::parser::Parsed;
use webpipe::program::parse_program;

fn chars(s: &str) -> Vec<char> {
    s.chars().collect()
}

fn cond(text: &str) -> Condition {
    match parse_condition(&chars(text), 0) {
        Parsed::Done(c, _) => c,
        _ => panic!("no condition in {text:?}"),
    }
}

#[test]
fn condition_plain_status() {
    let c = cond("then status is 200");
    assert!(matches!(c.condition_type, ConditionType::Then));
    assert_eq!(c.field, "status");
    assert_eq!(c.comparison, "is");
    assert_eq!(c.value, "200");
    assert!(c.jq_expr.is_none());
    assert!(!c.is_call_assertion);
}

#[test]
fn condition_with_jq_filter_and_backtick_value() {
    let c = cond("and output `.items | length` equals `3`");
    assert!(matches!(c.condition_type, ConditionType::And));
    assert_eq!(c.field, "output");
    assert_eq!(c.jq_expr.as_deref(), Some(".items | length"));
    assert_eq!(c.comparison, "equals");
    assert_eq!(c.value, "3");
}

#[test]
fn condition_header() {
    let c = cond("then header \"Content-Type\" contains \"json\"");
    assert_eq!(c.field, "header");
    assert_eq!(c.header_name.as_deref(), Some("Content-Type"));
    assert_eq!(c.comparison, "contains");
    assert_eq!(c.value, "json");
}

#[test]
fn condition_call_assertion() {
    let c = cond("then call query users with arguments `{\"id\": 1}`");
    assert!(c.is_call_assertion);
    assert_eq!(c.call_target.as_deref(), Some("query.users"));
    assert_eq!(c.comparison, "with arguments");
    assert_eq!(c.value, "{\"id\": 1}");
    assert_eq!(c.to_string(), "then call query users with arguments {\"id\": 1}");
}

#[test]
fn condition_selector_forms() {
    let c = cond("then selector \"h1\" exists");
    assert!(matches!(c.dom_assert, Some(DomAssertType::Exists)));
    assert_eq!(c.comparison, "exists");
    assert_eq!(c.value, "true");
    let c = cond("then selector \"h1\" does not exist");
    assert_eq!(c.comparison, "does_not_exist");
    assert_eq!(c.value, "false");
    assert_eq!(c.to_string(), "then selector \"h1\" does not exist");
    let c = cond("and selector \"li\" count is greater than 3\n");
    assert!(matches!(c.dom_assert, Some(DomAssertType::Count)));
    assert_eq!(c.comparison, "is greater than");
    assert_eq!(c.value, "3");
    let c = cond("then selector \"a\" attribute \"href\" equals \"/home\"");
    assert!(matches!(c.dom_assert, Some(DomAssertType::Attribute(ref a)) if a == "href"));
    assert_eq!(c.comparison, "equals");
    assert_eq!(c.value, "/home");
    let c = cond("then selector `p.note` text contains hello");
    assert!(matches!(c.dom_assert, Some(DomAssertType::Text)));
    assert_eq!(c.selector.as_deref(), Some("p.note"));
    assert_eq!(c.value, "hello");
}

#[test]
fn condition_unknown_selector_operation_is_a_hard_failure() {
    assert!(matches!(parse_condition(&chars("then selector \"h1\" glows brightly"), 0), Parsed::Failure));
    assert!(matches!(parse_condition(&chars("when calling GET /"), 0), Parsed::Error));
}

#[test]
fn when_forms() {
    let (w, e) = parse_when(&chars("calling POST /users\n"), 0).unwrap();
    assert!(matches!(w, When::CallingRoute { ref method, ref path } if method == "POST" && path == "/users"));
    assert_eq!(e, 19);
    let (w, _) = parse_when(&chars("executing pipeline checkout"), 0).unwrap();
    assert!(matches!(w, When::ExecutingPipeline { ref name } if name == "checkout"));
    let (w, _) = parse_when(&chars("executing variable pg getUser"), 0).unwrap();
    assert!(matches!(w, When::ExecutingVariable { ref var_type, ref name } if var_type == "pg" && name == "getUser"));
    assert!(parse_when(&chars("executing nothing"), 0).is_none());
}

#[test]
fn mocks_and_bindings() {
    let (m, _) = parse_mock(&chars("with mock query users returning `[]`"), 0).unwrap();
    assert_eq!(m.target, "query.users");
    assert_eq!(m.return_value, "[]");
    let (m, _) = parse_and_mock(&chars("  and mock pg.getUser returning `{}`\n"), 0).unwrap();
    assert_eq!(m.target, "pg.getUser");
    assert!(parse_mock(&chars("with mock pipelinex returning `1`"), 0).is_none());
    let ((name, value, format), _) = parse_let_binding(&chars("let id = 42"), 0).unwrap();
    assert_eq!((name.as_str(), value.as_str()), ("id", "42"));
    assert!(matches!(format, LetValueFormat::Bare));
    let ((_, value, _), _) = parse_let_binding(&chars("let ratio = 3.25"), 0).unwrap();
    assert_eq!(value, "3.25");
    let ((_, value, format), _) = parse_let_binding(&chars("let who = \"ann\""), 0).unwrap();
    assert_eq!(value, "ann");
    assert!(matches!(format, LetValueFormat::Quoted));
    let ((kind, value), _) = parse_with_clause(&chars("with body `{\"a\":1}`"), 0).unwrap();
    assert_eq!((kind.as_str(), value.as_str()), ("body", "{\"a\":1}"));
}

#[test]
fn describe_block_roundtrip_text() {
    let src = r#"
describe "users"
  with mock pg returning `[]`
  it "lists"
    let limit = 10
    when calling GET /users
    with headers `{"x": "1"}`
    then status is 200
    and output `.count` equals 0
"#;
    let (_rest, program) = parse_program(src).unwrap();
    assert_eq!(program.describes.len(), 1);
    let d = &program.describes[0];
    assert_eq!(d.name, "users");
    assert_eq!(d.mocks.len(), 1);
    assert_eq!(d.tests.len(), 1);
    let t = &d.tests[0];
    assert_eq!(t.name, "lists");
    assert_eq!(t.variables.len(), 1);
    assert_eq!(t.headers.as_deref(), Some("{\"x\": \"1\"}"));
    assert_eq!(t.conditions.len(), 2);
    let text = program.to_string();
    assert!(text.contains("describe \"users\"\n  with mock pg returning `[]`\n  it \"lists\"\n"));
    assert!(text.contains("    when calling GET /users\n    let limit = 10\n    with headers `{\"x\": \"1\"}`\n"));
    assert!(text.contains("    then status is 200\n    and output `.count` equals 0\n"));
}

#[test]
fn duplicate_import_alias_is_an_error() {
    let src = "import \"./a.wp\" as lib\nimport \"./b.wp\" as lib\nGET /x\n  |> jq: `.`\n";
    let err = parse_program(src).unwrap_err();
    assert_eq!(err, "GET /x\n  |> jq: `.`\n");
    let ok = parse_program("import \"./a.wp\" as one\nimport \"./b.wp\" as two\n").unwrap();
    assert_eq!(ok.1.imports.len(), 2);
    assert_eq!(ok.1.imports[1].location.line, 2);
}

#[test]
fn printer_writes_steps_as_written() {
    let src = r#"
pipeline p =
  |> fetch(url, opts): "https://x" @flag(beta) or @env(dev)
  |> foreach data.items
    |> jq: `.`
  end
  |> result
    ok(200):
      |> jq: `{ok: true}`
    notFound(404):
      |> jq: `{}`
"#;
    let (_rest, program) = parse_program(src).unwrap();
    let steps = &program.pipelines[0].pipeline.steps;
    assert_eq!(steps.len(), 3);
    assert_eq!(steps[0].to_string(), "  |> fetch(url, opts): \"https://x\" @flag(beta) or @env(dev)");
    assert_eq!(steps[1].to_string(), "  |> foreach data.items\n    |> jq: `.`\n  end");
    assert_eq!(
        steps[2].to_string(),
        "  |> result\n    ok(200):\n      |> jq: `{ok: true}`\n    notFound(404):\n      |> jq: `{}`\n"
    );
    if let PipelineStep::Regular { condition: Some(e), .. } = &steps[0] {
        assert!(matches!(e, TagExpr::Or(_, _)));
        assert_eq!(e.to_string(), "@flag(beta) or @env(dev)");
    } else {
        panic!("expected a regular step with a condition");
    }
}

#[test]
fn printer_brackets_or_inside_and_and_ticks_odd_arguments() {
    let src = "pipeline p =\n  |> jq: `.` (@a or @b) and @flag(`x.y`)\n";
    let (_rest, program) = parse_program(src).unwrap();
    let text = program.pipelines[0].pipeline.to_string();
    assert_eq!(text, "  |> jq: `.` (@a or @b) and @flag(`x.y`)");
}

fn selector_exists(kind: ConditionType, selector: &str, exists: bool) -> Condition {
    Condition {
        condition_type: kind,
        field: "selector".to_string(),
        header_name: None,
        jq_expr: None,
        comparison: if exists { "exists" } else { "does_not_exist" }.to_string(),
        value: if exists { "true" } else { "false" }.to_string(),
        is_call_assertion: false,
        call_target: None,
        selector: Some(selector.to_string()),
        dom_assert: Some(DomAssertType::Exists),
    }
}

#[test]
fn printed_selector_assertions_read_back_whole() {
    let cases = [
        selector_exists(ConditionType::Then, "div.card > a[href]", true),
        selector_exists(ConditionType::And, "#main `x`", false),
        selector_exists(ConditionType::Then, "", false),
    ];
    for c in cases.iter() {
        let text = c.to_string();
        let cs = chars(&text);
        match parse_condition(&cs, 0) {
            Parsed::Done(back, end) => {
                assert_eq!(end, cs.len());
                assert_eq!(matches!(back.condition_type, ConditionType::Then), matches!(c.condition_type, ConditionType::Then));
                assert_eq!(back.field, c.field);
                assert_eq!(back.comparison, c.comparison);
                assert_eq!(back.value, c.value);
                assert_eq!(back.selector, c.selector);
                assert!(back.header_name.is_none() && back.jq_expr.is_none() && back.call_target.is_none());
                assert!(!back.is_call_assertion);
                assert!(matches!(back.dom_assert, Some(DomAssertType::Exists)));
            }
            _ => panic!("no assertion read back from {text:?}"),
        }
    }
}

fn plain(kind: ConditionType, field: &str, jq: Option<&str>, comparison: &str, value: &str) -> Condition {
    Condition {
        condition_type: kind,
        field: field.to_string(),
        header_name: None,
        jq_expr: jq.map(|s| s.to_string()),
        comparison: comparison.to_string(),
        value: value.to_string(),
        is_call_assertion: false,
        call_target: None,
        selector: None,
        dom_assert: None,
    }
}

#[test]
fn printed_plain_assertions_read_back_whole() {
    let cases = [
        plain(ConditionType::Then, "status", None, "is", "200"),
        plain(ConditionType::And, "output", Some(".items | length"), "equals", "3"),
        plain(ConditionType::Then, "body", Some(".name"), "`contains`", "{\"a\": 1} trailing words"),
        plain(ConditionType::And, "contentType", None, "is", "text/html"),
    ];
    for c in cases.iter() {
        let text = c.to_string();
        let cs = chars(&text);
        match parse_condition(&cs, 0) {
            Parsed::Done(back, end) => {
                assert_eq!(end, cs.len());
                assert_eq!(matches!(back.condition_type, ConditionType::Then), matches!(c.condition_type, ConditionType::Then));
                assert_eq!(back.field, c.field);
                assert_eq!(back.jq_expr, c.jq_expr);
                assert_eq!(back.comparison, c.comparison);
                assert_eq!(back.value, c.value);
                assert!(back.header_name.is_none() && back.call_target.is_none() && back.selector.is_none());
                assert!(!back.is_call_assertion && back.dom_assert.is_none());
            }
            _ => panic!("no assertion read back from {text:?}"),
        }
    }
}

#[test]
fn printed_header_assertions_read_back_whole() {
    let mut c = plain(ConditionType::And, "header", None, "equals", "text/html; charset=utf-8");
    c.header_name = Some("Content-Type".to_string());
    let text = c.to_string();
    assert_eq!(text, "and header \"Content-Type\" equals text/html; charset=utf-8");
    let cs = chars(&text);
    match parse_condition(&cs, 0) {
        Parsed::Done(back, end) => {
            assert_eq!(end, cs.len());
            assert!(matches!(back.condition_type, ConditionType::And));
            assert_eq!(back.field, "header");
            assert_eq!(back.header_name, Some("Content-Type".to_string()));
            assert!(back.jq_expr.is_none());
            assert_eq!(back.comparison, "equals");
            assert_eq!(back.value, "text/html; charset=utf-8");
        }
        _ => panic!("no assertion read back from {text:?}"),
    }
}

#[test]
fn printed_call_assertions_read_back_whole() {
    let mut c = plain(ConditionType::Then, "call", None, "with arguments", "{\"id\": 1}");
    c.is_call_assertion = true;
    c.call_target = Some("query.users".to_string());
    let mut m = plain(ConditionType::And, "call", None, "with", "{\"name\": \"x\"}");
    m.is_call_assertion = true;
    m.call_target = Some("mutation.create-user_2".to_string());
    for c in [c, m].iter() {
        let text = c.to_string();
        let cs = chars(&text);
        match parse_condition(&cs, 0) {
            Parsed::Done(back, end) => {
                assert_eq!(end, cs.len());
                assert_eq!(matches!(back.condition_type, ConditionType::Then), matches!(c.condition_type, ConditionType::Then));
                assert_eq!(back.field, "call");
                assert!(back.is_call_assertion);
                assert_eq!(back.call_target, c.call_target);
                assert_eq!(back.comparison, c.comparison);
                assert_eq!(back.value, c.value);
                assert!(back.header_name.is_none() && back.jq_expr.is_none() && back.selector.is_none());
            }
            _ => panic!("no assertion read back from {text:?}"),
        }
    }
}

fn dom(kind: ConditionType, selector: &str, dom: DomAssertType, comparison: &str, value: &str) -> Condition {
    let mut c = plain(kind, "selector", None, comparison, value);
    c.selector = Some(selector.to_string());
    c.dom_assert = Some(dom);
    c
}

#[test]
fn printed_dom_text_and_count_assertions_read_back_whole() {
    let cases = [
        dom(ConditionType::Then, "h1.title", DomAssertType::Text, "equals", "Welcome home"),
        dom(ConditionType::And, "ul > li", DomAssertType::Count, "equals", "3"),
        dom(ConditionType::Then, "p", DomAssertType::Count, "greater_than", "12 items"),
    ];
    for c in cases.iter() {
        let text = c.to_string();
        let cs = chars(&text);
        match parse_condition(&cs, 0) {
            Parsed::Done(back, end) => {
                assert_eq!(end, cs.len());
                assert_eq!(back.field, "selector");
                assert_eq!(back.selector, c.selector);
                assert_eq!(back.comparison, c.comparison);
                assert_eq!(back.value, c.value);
                assert_eq!(
                    matches!(back.dom_assert, Some(DomAssertType::Text)),
                    matches!(c.dom_assert, Some(DomAssertType::Text))
                );
                assert_eq!(
                    matches!(back.dom_assert, Some(DomAssertType::Count)),
                    matches!(c.dom_assert, Some(DomAssertType::Count))
                );
            }
            _ => panic!("no assertion read back from {text:?}"),
        }
    }
}

#[test]
fn printed_attribute_assertions_need_a_quoted_value_to_read_back() {
    let read = cond("then selector \"a\" attribute \"href\" equals \"/home\"");
    assert_eq!(read.value, "/home");
    let printed = read.to_string();
    assert_eq!(printed, "then selector \"a\" attribute \"href\" equals /home");
    assert!(!matches!(parse_condition(&chars(&printed), 0), Parsed::Done(_, _)));
}
