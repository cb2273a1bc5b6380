use webpipe::ast::{Config, ConfigProperty, ConfigValue};
use webpipe::auth::{
    auth_action, build_auth_error_object, build_clear_cookie_header, build_set_cookie_header,
    extract_body_field, get_auth_config, login_request, login_state, login_verify, logout_state, optional_reply,
    register_hash, register_request, register_state, required_reply, required_token, type_check_reply, AuthAction,
    SessionUser, UserRecord,
};
use webpipe::json::write_json;
use webpipe::config::ConfigManager;
use webpipe::error::WebPipeError;
use webpipe::json::{JsonNumber, JsonValue};

fn to_jv(v: &serde_json::Value) -> JsonValue {
    match v {
        serde_json::Value::Null => JsonValue::Null,
        serde_json::Value::Bool(b) => JsonValue::Bool(*b),
        serde_json::Value::Number(n) => {
            if let Some(i) = n.as_i64() {
                JsonValue::Number(JsonNumber::Int(i))
            } else if let Some(u) = n.as_u64() {
                JsonValue::Number(JsonNumber::UInt(u))
            } else {
                JsonValue::Number(JsonNumber::Float(n.to_string()))
            }
        }
        serde_json::Value::String(s) => JsonValue::Str(s.clone()),
        serde_json::Value::Array(a) => JsonValue::Array(a.iter().map(to_jv).collect()),
        serde_json::Value::Object(o) => {
            JsonValue::Object(o.iter().map(|(k, v)| (k.clone(), to_jv(v))).collect())
        }
    }
}

fn json(text: &str) -> JsonValue {
    to_jv(&serde_json::from_str(text).unwrap())
}

#[test]
fn cookie_header_builders_have_expected_flags() {
    let cm = ConfigManager::new(vec![]);
    let cfg = get_auth_config(&cm);

    let set = build_set_cookie_header(&cfg, "abc", false).unwrap();
    assert!(set.contains("wp_session=abc"));
    assert!(set.contains("HttpOnly"));
    assert!(set.contains("SameSite"));
    assert!(set.contains("Path=/"));
    assert!(set.contains("Max-Age="));

    let clr = build_clear_cookie_header(&cfg);
    assert!(clr.contains("wp_session="));
    assert!(clr.contains("HttpOnly"));
    assert!(clr.contains("Path=/"));
    assert!(clr.contains("Max-Age=0"));
}

#[test]
fn auth_error_object_shape() {
    let v = build_auth_error_object("x", "ctx");
    let errors = v.get("errors").unwrap().as_array().unwrap();
    assert_eq!(errors.len(), 1);
    assert_eq!(errors[0].get("type").unwrap().as_str().unwrap(), "authError");
    assert_eq!(errors[0].get("message").unwrap().as_str().unwrap(), "x");
}

#[test]
fn default_cookie_header_is_exact() {
    let cfg = get_auth_config(&ConfigManager::new(vec![]));
    assert_eq!(
        build_set_cookie_header(&cfg, "tok", false).unwrap(),
        "wp_session=tok; HttpOnly; SameSite=Lax; Path=/; Max-Age=604800"
    );
    assert_eq!(
        build_clear_cookie_header(&cfg),
        "wp_session=; HttpOnly; SameSite=Strict; Path=/; Max-Age=0"
    );
}

#[test]
fn production_refuses_insecure_cookie() {
    let cfg = get_auth_config(&ConfigManager::new(vec![]));
    match build_set_cookie_header(&cfg, "tok", true) {
        Err(WebPipeError::ConfigError(m)) => assert!(m.contains("cookieSecure MUST be true")),
        _ => panic!("expected a configuration error"),
    }
}

#[test]
fn auth_block_overrides_defaults() {
    let block = Config {
        name: "auth".to_string(),
        properties: vec![
            ConfigProperty { key: "cookieName".to_string(), value: ConfigValue::String("sid".to_string()) },
            ConfigProperty { key: "cookieSecure".to_string(), value: ConfigValue::Boolean(true) },
            ConfigProperty { key: "sessionTtl".to_string(), value: ConfigValue::Number(3600) },
            ConfigProperty { key: "cookieSameSite".to_string(), value: ConfigValue::String("Strict".to_string()) },
        ],
    };
    let cfg = get_auth_config(&ConfigManager::new(vec![block]));
    assert_eq!(cfg.cookie_name, "sid");
    assert!(cfg.cookie_secure);
    assert!(cfg.cookie_http_only);
    assert_eq!(cfg.session_ttl, 3600);
    assert_eq!(
        build_set_cookie_header(&cfg, "t", true).unwrap(),
        "sid=t; HttpOnly; Secure; SameSite=Strict; Path=/; Max-Age=3600"
    );
    assert_eq!(
        build_clear_cookie_header(&cfg),
        "sid=; HttpOnly; Secure; SameSite=Strict; Path=/; Max-Age=0"
    );
}

#[test]
fn auth_block_with_missing_variable_falls_back_to_defaults() {
    let block = Config {
        name: "auth".to_string(),
        properties: vec![
            ConfigProperty { key: "cookieName".to_string(), value: ConfigValue::String("sid".to_string()) },
            ConfigProperty {
                key: "secret".to_string(),
                value: ConfigValue::EnvVar { var: "NO_SUCH_VAR".to_string(), default: None },
            },
        ],
    };
    let cfg = get_auth_config(&ConfigManager::new(vec![block]));
    assert_eq!(cfg.cookie_name, "wp_session");
}

#[test]
fn auth_actions_from_configuration() {
    assert_eq!(auth_action(" login "), AuthAction::Login);
    assert_eq!(auth_action("logout"), AuthAction::Logout);
    assert_eq!(auth_action("register"), AuthAction::Register);
    assert_eq!(auth_action("required"), AuthAction::Required);
    assert_eq!(auth_action("optional"), AuthAction::Optional);
    assert_eq!(auth_action("type: admin "), AuthAction::TypeCheck("admin".to_string()));
    assert_eq!(auth_action("sometimes"), AuthAction::Invalid("sometimes".to_string()));
}

#[test]
fn body_fields_are_read_as_strings() {
    let input = json(r#"{"body": {"login": "ada", "age": 3}}"#);
    assert_eq!(extract_body_field(&input, "login").map(|s| s.as_str()), Some("ada"));
    assert!(extract_body_field(&input, "age").is_none());
    assert!(extract_body_field(&input, "password").is_none());
}

fn text(v: &JsonValue) -> String {
    let mut out: Vec<char> = Vec::new();
    write_json(v, &mut out);
    out.into_iter().collect()
}

#[test]
fn login_request_needs_name_and_password() {
    let (l, p) = login_request(&json(r#"{"body":{"username":"ann","password":"pw"}}"#)).unwrap();
    assert_eq!((l.as_str(), p.as_str()), ("ann", "pw"));
    let (l, _) = login_request(&json(r#"{"body":{"login":"bob","username":"ann","password":"pw"}}"#)).unwrap();
    assert_eq!(l, "bob");
    let e = login_request(&json(r#"{"body":{"login":"bob"}}"#)).unwrap_err();
    assert_eq!(text(&e), r#"{"errors":[{"message":"Missing login or password","type":"authError"}]}"#);
}

#[test]
fn login_checks_the_stored_password_hash() {
    let hash = register_hash("s3cret").unwrap();
    assert_ne!(hash, "s3cret");
    let user = |h: &str| UserRecord {
        id: 7,
        login: "ann".to_string(),
        password_hash: h.to_string(),
        email: "a@x.io".to_string(),
        user_type: "local".to_string(),
    };
    let granted = login_verify(Some(user(&hash)), "s3cret").unwrap();
    assert_eq!(granted.user.id, 7);
    assert_eq!(granted.token.len(), 64);
    assert!(granted.token.chars().all(|c| c.is_ascii_hexdigit() && !c.is_ascii_uppercase()));
    let other = login_verify(Some(user(&hash)), "s3cret").unwrap();
    assert_ne!(granted.token, other.token);
    let denied = login_verify(Some(user(&hash)), "wrong").unwrap_err();
    assert_eq!(text(&denied), r#"{"errors":[{"message":"Invalid credentials","type":"authError"}]}"#);
    assert!(login_verify(Some(user("not a hash")), "s3cret").is_err());
    assert!(login_verify(None, "s3cret").is_err());
}

#[test]
fn login_adds_the_user_and_the_session_cookie() {
    let user = UserRecord {
        id: 7,
        login: "ann".to_string(),
        password_hash: String::new(),
        email: "a@x.io".to_string(),
        user_type: "admin".to_string(),
    };
    let s = login_state(&json(r#"{"body":{}}"#), &user, "ann", "wp_session=t");
    assert_eq!(
        text(&s),
        r#"{"body":{},"setCookies":["wp_session=t"],"user":{"email":"a@x.io","id":7,"login":"ann","status":"active","type":"admin"}}"#
    );
    let s = login_state(&json(r#"{"setCookies":["a=1"]}"#), &user, "ann", "wp_session=t");
    assert!(text(&s).starts_with(r#"{"setCookies":["a=1","wp_session=t"]"#));
}

#[test]
fn registration_reads_fields_and_reports_success() {
    let e = register_request(&json(r#"{"body":{"login":"ann","password":"pw"}}"#)).unwrap_err();
    assert_eq!(
        text(&e),
        r#"{"errors":[{"message":"Missing required fields: login, email, password","type":"authError"}]}"#
    );
    let (l, e, p) = register_request(&json(r#"{"body":{"login":"ann","email":"a@x.io","password":"pw"}}"#)).unwrap();
    assert_eq!((l.as_str(), e.as_str(), p.as_str()), ("ann", "a@x.io", "pw"));
    let s = register_state(&json("{}"), 3, "ann", "a@x.io");
    assert_eq!(
        text(&s),
        r#"{"message":"User registration successful","user":{"email":"a@x.io","id":3,"login":"ann","status":"active","type":"local"}}"#
    );
}

#[test]
fn sessions_required_optional_and_logout() {
    let input = json(r#"{"cookies":{"wp_session":"tok"}}"#);
    assert_eq!(required_token(&input, "wp_session").unwrap(), "tok");
    let e = required_token(&json(r#"{"cookies":{"wp_session":""}}"#), "wp_session").unwrap_err();
    assert_eq!(text(&e), r#"{"errors":[{"message":"Authentication required","type":"authError"}]}"#);
    assert!(required_token(&json("{}"), "wp_session").is_err());
    let user = || SessionUser { id: 1, login: "ann".to_string(), email: "a@x.io".to_string(), user_type: "admin".to_string() };
    let with = required_reply(&input, Some(user()));
    assert_eq!(
        text(&with),
        r#"{"cookies":{"wp_session":"tok"},"user":{"email":"a@x.io","id":1,"login":"ann","type":"admin"}}"#
    );
    let e = required_reply(&input, None);
    assert_eq!(text(&e), r#"{"errors":[{"message":"Invalid session","type":"authError"}]}"#);
    assert_eq!(text(&optional_reply(&input, None)), text(&input));
    let kept = type_check_reply(required_reply(&input, Some(user())), "admin");
    assert_eq!(text(&kept), text(&with));
    let refused = type_check_reply(required_reply(&input, Some(user())), "staff");
    assert_eq!(text(&refused), r#"{"errors":[{"message":"Insufficient permissions","type":"authError"}]}"#);
    let out = logout_state(&json(r#"{"setCookies":["a=1"],"x":1}"#), "wp_session=; Max-Age=0");
    assert_eq!(text(&out), r#"{"setCookies":["wp_session=; Max-Age=0"],"x":1}"#);
}
