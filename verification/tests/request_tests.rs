use webpipe::json::{JsonNumber, JsonValue};
use webpipe::request::{assemble_request_object, parse_cookie_header, parse_form_body};

fn pairs(ps: &[(&str, &str)]) -> Vec<(String, String)> {
    ps.iter().map(|(k, v)| (k.to_string(), v.to_string())).collect()
}

#[test]
fn test_parse_cookies_from_headers() {
    let cookies = parse_cookie_header("a=1; b=two; c=");
    assert_eq!(cookies, pairs(&[("a", "1"), ("b", "two"), ("c", "")]));
}

#[test]
fn form_body_pairs() {
    let v = parse_form_body("a=1&b=two&c=&d=3.5");
    assert_eq!(v, pairs(&[("a", "1"), ("b", "two"), ("c", ""), ("d", "3.5")]));
    assert_eq!(parse_form_body("flag&x=1=2"), pairs(&[("flag", ""), ("x", "1")]));
}

#[test]
fn request_object_members() {
    let path_params = vec![("id".to_string(), JsonValue::Number(JsonNumber::Int(42)))];
    let query_params = vec![("q".to_string(), JsonValue::Str("term".to_string()))];
    let cookies = pairs(&[("sid", "abc")]);
    let req = assemble_request_object(
        "POST",
        "/items/42",
        &path_params,
        &query_params,
        None,
        Some(&cookies),
        JsonValue::Null,
        "application/json",
    );
    assert_eq!(req.get("method").unwrap().as_str().unwrap(), "POST");
    assert_eq!(req.get("path").unwrap().as_str().unwrap(), "/items/42");
    assert_eq!(req.get("cookies").unwrap().get("sid").unwrap().as_str().unwrap(), "abc");
    assert!(req.get("headers").unwrap().is_object());
    assert!(req.get("body").unwrap().is_null());
    assert_eq!(req.get("content_type").unwrap().as_str().unwrap(), "application/json");
    let orig = req.get("originalRequest").unwrap();
    assert_eq!(orig.get("method").unwrap().as_str().unwrap(), "POST");
    assert_eq!(orig.get("params").unwrap().get("id").unwrap().as_i64(), Some(42));
    assert_eq!(orig.get("query").unwrap().get("q").unwrap().as_str().unwrap(), "term");
    assert_eq!(req.get("params").unwrap().get("id").unwrap().as_i64(), Some(42));
}
