use webpipe::cli_args::{parse, ScriptArgs};
use webpipe::json::JsonValue;

fn parse_str(s: &str) -> ScriptArgs {
    let toks: Vec<String> = s.split_whitespace().map(|t| t.to_string()).collect();
    parse(&toks)
}

fn opt_str(r: &ScriptArgs, k: &str) -> Option<String> {
    r.option(k).and_then(|v| v.as_str()).map(|s| s.to_string())
}

fn opt_bool(r: &ScriptArgs, k: &str) -> Option<bool> {
    r.option(k).and_then(|v| v.as_bool())
}

#[test]
fn positionals_only() {
    let r = parse_str("Berlin Paris");
    assert_eq!(r.args, vec!["Berlin", "Paris"]);
    assert_eq!(r.option_count(), 0);
}

#[test]
fn equals_form() {
    let r = parse_str("--units=imperial");
    assert_eq!(opt_str(&r, "units"), Some("imperial".to_string()));
}

#[test]
fn space_form() {
    let r = parse_str("--units imperial");
    assert_eq!(opt_str(&r, "units"), Some("imperial".to_string()));
}

#[test]
fn boolean_flag_before_other_flag() {
    let r = parse_str("--verbose --units imperial");
    assert_eq!(opt_bool(&r, "verbose"), Some(true));
    assert_eq!(opt_str(&r, "units"), Some("imperial".to_string()));
}

#[test]
fn boolean_flag_at_end() {
    let r = parse_str("--verbose");
    assert_eq!(opt_bool(&r, "verbose"), Some(true));
}

#[test]
fn last_wins_on_repeat() {
    let r = parse_str("--units metric --units imperial");
    assert_eq!(opt_str(&r, "units"), Some("imperial".to_string()));
}

#[test]
fn positional_and_flags_interleaved() {
    let r = parse_str("Berlin --units imperial Paris --verbose");
    assert_eq!(r.args, vec!["Berlin", "Paris"]);
    assert_eq!(opt_str(&r, "units"), Some("imperial".to_string()));
    assert_eq!(opt_bool(&r, "verbose"), Some(true));
}

#[test]
fn bare_double_dash_is_positional_and_empty_value_kept() {
    let r = parse_str("-- --k= x");
    assert_eq!(r.args, vec!["--", "x"]);
    assert_eq!(opt_str(&r, "k"), Some(String::new()));
    assert!(matches!(r.option("missing"), None::<&JsonValue>));
}
