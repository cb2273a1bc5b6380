//! The `auth` middleware: its configuration, the session cookie headers it
//! sends, the error objects it answers with, and which action a step's
//! configuration asks for.

use vstd::prelude::*;
use crate::config::{ConfigManager, resolve_outcome, as_i64_of, as_str_of, as_bool_of};
use crate::error::WebPipeError;
use crate::json::{JsonValue, Json, jv, get, jv_seq, jv_entries, lemma_jv_seq, lemma_jv_entries};
use crate::text::{dec_int, trim, starts_with, chars_of, string_of, append, append_str, i64_to_chars,
    trim_chars, str_eq, starts_with_at, slice_chars};
use crate::json::JsonNumber;
use argon2::{Argon2, PasswordHash, PasswordHasher, PasswordVerifier};
use argon2::password_hash::SaltString;
use rand::RngCore;

verus! {

/// The `auth` middleware.
#[derive(Debug)]
pub struct AuthMiddleware;

/// Session settings from the `auth` config block.
#[derive(Debug, Clone)]
pub struct AuthConfig {
    pub session_ttl: i64,
    pub cookie_name: String,
    pub cookie_secure: bool,
    pub cookie_http_only: bool,
    pub cookie_same_site: String,
    pub cookie_path: String,
}

/// The member `k` of an optional object.
pub open spec fn member(j: Option<Json>, k: Seq<char>) -> Option<Json> {
    match j {
        Some(o) => get(o, k),
        None => None,
    }
}

/// The session settings read from the resolved `auth` block `j` (`None`
/// when the block is missing or does not resolve), each with its default:
/// a week of session, cookie `wp_session`, not `Secure`, `HttpOnly`,
/// `SameSite=Lax`, path `/`.
pub open spec fn auth_settings(j: Option<Json>, c: AuthConfig) -> bool {
    &&& c.session_ttl == match as_i64_of(member(j, "sessionTtl"@)) {
        Some(n) => n,
        None => 604800,
    }
    &&& c.cookie_name@ == match as_str_of(member(j, "cookieName"@)) {
        Some(s) => s,
        None => "wp_session"@,
    }
    &&& c.cookie_secure == match as_bool_of(member(j, "cookieSecure"@)) {
        Some(b) => b,
        None => false,
    }
    &&& c.cookie_http_only == match as_bool_of(member(j, "cookieHttpOnly"@)) {
        Some(b) => b,
        None => true,
    }
    &&& c.cookie_same_site@ == match as_str_of(member(j, "cookieSameSite"@)) {
        Some(s) => s,
        None => "Lax"@,
    }
    &&& c.cookie_path@ == match as_str_of(member(j, "cookiePath"@)) {
        Some(s) => s,
        None => "/"@,
    }
}

/// The `Set-Cookie` header that starts a session with `token`.
pub open spec fn set_cookie_text(c: AuthConfig, token: Seq<char>) -> Seq<char> {
    c.cookie_name@ + "="@ + token
        + (if c.cookie_http_only { "; HttpOnly"@ } else { Seq::empty() })
        + (if c.cookie_secure { "; Secure"@ } else { Seq::empty() })
        + "; SameSite="@ + c.cookie_same_site@
        + "; Path="@ + c.cookie_path@
        + "; Max-Age="@ + dec_int(c.session_ttl as int)
}

/// The `Set-Cookie` header that ends a session.
pub open spec fn clear_cookie_text(c: AuthConfig) -> Seq<char> {
    c.cookie_name@ + "="@ + "; HttpOnly"@
        + (if c.cookie_secure { "; Secure"@ } else { Seq::empty() })
        + "; SameSite=Strict"@
        + "; Path="@ + c.cookie_path@
        + "; Max-Age=0"@
}

/// The message of the production check on insecure cookies.
pub open spec fn insecure_cookie_message() -> Seq<char> {
    "cookieSecure MUST be true in production builds. Set it in your config auth block."@
}

/// The error object the middleware answers a refused request with.
pub open spec fn auth_error(message: Seq<char>) -> Json {
    Json::Object(seq![("errors"@, Json::Array(seq![Json::Object(seq![
        ("message"@, Json::Str(message)),
        ("type"@, Json::Str("authError"@)),
    ])]))])
}

/// A string member of the resolved block, or its default.
fn string_setting(j: &Option<JsonValue>, key: &str, default: &str) -> (r: String)
    ensures
        r@ == match as_str_of(member(match *j { Some(x) => Some(jv(x)), None => None }, key@)) {
            Some(s) => s,
            None => default@,
        },
{
    match j {
        Some(o) => match o.get(key) {
            Some(v) => match v.as_str() {
                Some(s) => string_of(chars_of(s.as_str()).as_slice()),
                None => string_of(chars_of(default).as_slice()),
            },
            None => string_of(chars_of(default).as_slice()),
        },
        None => string_of(chars_of(default).as_slice()),
    }
}

/// A boolean member of the resolved block, or its default.
fn bool_setting(j: &Option<JsonValue>, key: &str, default: bool) -> (r: bool)
    ensures
        r == match as_bool_of(member(match *j { Some(x) => Some(jv(x)), None => None }, key@)) {
            Some(b) => b,
            None => default,
        },
{
    match j {
        Some(o) => match o.get(key) {
            Some(v) => match v.as_bool() {
                Some(b) => b,
                None => default,
            },
            None => default,
        },
        None => default,
    }
}

/// Reads the session settings from the `auth` config block, with the
/// defaults for what it does not set (all of them when the block is
/// missing or does not resolve).
pub fn get_auth_config(cm: &ConfigManager) -> (r: AuthConfig)
    ensures
        (exists|j: Json| #[trigger] resolve_outcome(cm.configs@, "auth"@, cm.env@, Ok::<Json, Seq<char>>(j)) && auth_settings(Some(j), r))
        || ((exists|m: Seq<char>| #[trigger] resolve_outcome(cm.configs@, "auth"@, cm.env@, Err::<Json, Seq<char>>(m))) && auth_settings(None, r)),
{
    let resolved: Option<JsonValue> = match cm.resolve_config_as_json("auth") {
        Ok(j) => Some(j),
        Err(_) => None,
    };
    let ghost jm: Option<Json> = match &resolved {
        Some(x) => Some(jv(*x)),
        None => None,
    };
    let ttl: i64 = match &resolved {
        Some(o) => match o.get("sessionTtl") {
            Some(v) => match v.as_i64() {
                Some(n) => n,
                None => 604800,
            },
            None => 604800,
        },
        None => 604800,
    };
    let c = AuthConfig {
        session_ttl: ttl,
        cookie_name: string_setting(&resolved, "cookieName", "wp_session"),
        cookie_secure: bool_setting(&resolved, "cookieSecure", false),
        cookie_http_only: bool_setting(&resolved, "cookieHttpOnly", true),
        cookie_same_site: string_setting(&resolved, "cookieSameSite", "Lax"),
        cookie_path: string_setting(&resolved, "cookiePath", "/"),
    };
    assert(auth_settings(jm, c));
    c
}

/// The `Set-Cookie` header that starts a session with `token`. A
/// production build refuses to send a cookie without `Secure`.
pub fn build_set_cookie_header(cfg: &AuthConfig, token: &str, production: bool) -> (r: Result<String, WebPipeError>)
    ensures
        match r {
            Ok(h) => !(production && !cfg.cookie_secure) && h@ == set_cookie_text(*cfg, token@),
            Err(e) => production && !cfg.cookie_secure
                && (e matches WebPipeError::ConfigError(m) && m@ == insecure_cookie_message()),
        },
{
    if production && !cfg.cookie_secure {
        return Err(WebPipeError::ConfigError(string_of(chars_of("cookieSecure MUST be true in production builds. Set it in your config auth block.").as_slice())));
    }
    let mut h: Vec<char> = Vec::new();
    append_str(&mut h, cfg.cookie_name.as_str());
    append_str(&mut h, "=");
    append_str(&mut h, token);
    if cfg.cookie_http_only {
        append_str(&mut h, "; HttpOnly");
    }
    if cfg.cookie_secure {
        append_str(&mut h, "; Secure");
    }
    append_str(&mut h, "; SameSite=");
    append_str(&mut h, cfg.cookie_same_site.as_str());
    append_str(&mut h, "; Path=");
    append_str(&mut h, cfg.cookie_path.as_str());
    append_str(&mut h, "; Max-Age=");
    let d = i64_to_chars(cfg.session_ttl);
    append(&mut h, d.as_slice());
    assert(h@ =~= set_cookie_text(*cfg, token@));
    Ok(string_of(h.as_slice()))
}

/// The `Set-Cookie` header that ends a session.
pub fn build_clear_cookie_header(cfg: &AuthConfig) -> (r: String)
    ensures
        r@ == clear_cookie_text(*cfg),
{
    let mut h: Vec<char> = Vec::new();
    append_str(&mut h, cfg.cookie_name.as_str());
    append_str(&mut h, "=");
    append_str(&mut h, "; HttpOnly");
    if cfg.cookie_secure {
        append_str(&mut h, "; Secure");
    }
    append_str(&mut h, "; SameSite=Strict");
    append_str(&mut h, "; Path=");
    append_str(&mut h, cfg.cookie_path.as_str());
    append_str(&mut h, "; Max-Age=0");
    assert(h@ =~= clear_cookie_text(*cfg));
    string_of(h.as_slice())
}

/// The error object `{"errors": [{"message", "type": "authError"}]}`.
pub fn build_auth_error_object(message: &str, _context: &str) -> (r: JsonValue)
    ensures
        jv(r) == auth_error(message@),
{
    let mut inner: Vec<(String, JsonValue)> = Vec::new();
    inner.push((string_of(chars_of("message").as_slice()), JsonValue::Str(string_of(chars_of(message).as_slice()))));
    inner.push((string_of(chars_of("type").as_slice()), JsonValue::Str(string_of(chars_of("authError").as_slice()))));
    proof { lemma_jv_entries(inner@); }
    assert(jv_entries(inner@) =~= seq![("message"@, Json::Str(message@)), ("type"@, Json::Str("authError"@))]);
    let o = JsonValue::Object(inner);
    let ghost oj = jv(o);
    let mut arr: Vec<JsonValue> = Vec::new();
    arr.push(o);
    proof { lemma_jv_seq(arr@); }
    assert(jv_seq(arr@) =~= seq![oj]);
    let a = JsonValue::Array(arr);
    let ghost aj = jv(a);
    let mut outer: Vec<(String, JsonValue)> = Vec::new();
    outer.push((string_of(chars_of("errors").as_slice()), a));
    proof { lemma_jv_entries(outer@); }
    assert(jv_entries(outer@) =~= seq![("errors"@, aj)]);
    JsonValue::Object(outer)
}

/// The string field `key` of the request body in `input`.
pub fn extract_body_field<'a>(input: &'a JsonValue, key: &str) -> (r: Option<&'a String>)
    ensures
        match r {
            Some(s) => member(get(jv(*input), "body"@), key@) == Some(Json::Str(s@)),
            None => !(member(get(jv(*input), "body"@), key@) matches Some(Json::Str(_))),
        },
{
    match input.get("body") {
        Some(b) => match b.get(key) {
            Some(v) => v.as_str(),
            None => None,
        },
        None => None,
    }
}

/// What an `auth` step does, from its configuration.
#[derive(Debug, Clone, PartialEq, Eq)]
pub enum AuthAction {
    Login,
    Logout,
    Register,
    Required,
    Optional,
    /// `type: <kind>`: the user must be of this type.
    TypeCheck(String),
    /// Anything else: answered with an error object.
    Invalid(String),
}

/// The action a trimmed configuration names.
pub open spec fn action_of(config: Seq<char>, a: AuthAction) -> bool {
    let t = trim(config);
    if t == "login"@ {
        a == AuthAction::Login
    } else if t == "logout"@ {
        a == AuthAction::Logout
    } else if t == "register"@ {
        a == AuthAction::Register
    } else if t == "required"@ {
        a == AuthAction::Required
    } else if t == "optional"@ {
        a == AuthAction::Optional
    } else if starts_with(t, "type:"@) {
        a matches AuthAction::TypeCheck(k) && k@ == trim(t.skip(5))
    } else {
        a matches AuthAction::Invalid(c) && c@ == t
    }
}

/// The action an `auth` step's configuration asks for.
pub fn auth_action(config: &str) -> (r: AuthAction)
    ensures
        action_of(config@, r),
{
    let t = trim_chars(chars_of(config).as_slice());
    let ts = string_of(t.as_slice());
    let w = ts.as_str();
    if str_eq(w, "login") {
        AuthAction::Login
    } else if str_eq(w, "logout") {
        AuthAction::Logout
    } else if str_eq(w, "register") {
        AuthAction::Register
    } else if str_eq(w, "required") {
        AuthAction::Required
    } else if str_eq(w, "optional") {
        AuthAction::Optional
    } else {
        let prefix = chars_of("type:");
        proof { reveal_strlit("type:"); }
        if starts_with_at(t.as_slice(), 0, prefix.as_slice()) {
            let n = t.len();
            let rest = slice_chars(t.as_slice(), 5, t.len());
            assert(t@.take(5) =~= t@.subrange(0, 5));
            assert(rest@ =~= t@.skip(5));
            let k = trim_chars(rest.as_slice());
            AuthAction::TypeCheck(string_of(k.as_slice()))
        } else {
            assert(t@.take(5) =~= t@.subrange(0, 5));
            AuthAction::Invalid(ts)
        }
    }
}


/// Whether `password` matches the stored PHC password hash `hash`, as
/// Argon2 verifies it (`false` when the hash does not parse).
pub uninterp spec fn password_ok(password: Seq<char>, hash: Seq<char>) -> bool;

/// `argon2`: parses the stored hash with `PasswordHash::new` and checks the
/// password with `Argon2::default().verify_password`. The contract names
/// the answer; it is a function of the two texts.
#[verifier::external_body]
fn password_matches(password: &str, hash: &str) -> (b: bool)
    ensures
        b == password_ok(password@, hash@),
{
    match PasswordHash::new(hash) {
        Ok(parsed) => Argon2::default().verify_password(password.as_bytes(), &parsed).is_ok(),
        Err(_) => false,
    }
}

/// `argon2`: hashes a new password with a fresh random salt
/// (`SaltString::generate` over `OsRng`, then `hash_password`), in PHC
/// text; the error's text when hashing fails. The salt is random, so the
/// text itself is not stated; what is stated is that the password verifies
/// against it: the text records the algorithm, version, parameters and
/// salt, and `verify_password` hashes again with exactly those. Hashing
/// fails only for a password longer than argon2's limit of `0xFFFF_FFFF`
/// bytes; at most four bytes a character, a password of up to
/// `0x3FFF_FFFF` characters is always hashed.
#[verifier::external_body]
fn hash_new_password(password: &str) -> (r: Result<String, String>)
    ensures
        r matches Ok(h) ==> password_ok(password@, h@),
        password@.len() <= 0x3FFF_FFFF ==> r is Ok,
{
    let salt = SaltString::generate(&mut rand::rngs::OsRng);
    match Argon2::default().hash_password(password.as_bytes(), &salt) {
        Ok(h) => Ok(h.to_string()),
        Err(e) => Err(e.to_string()),
    }
}

/// A lowercase hex digit.
pub open spec fn is_hex_lower(c: char) -> bool {
    ('0' <= c && c <= '9') || ('a' <= c && c <= 'f')
}

/// `rand` and `hex`: 32 random bytes from `thread_rng().fill_bytes`, as
/// `hex::encode` writes them: two lowercase hex digits per byte. Only the
/// shape of the token is stated; its bytes are random.
#[verifier::external_body]
fn new_session_token() -> (t: String)
    ensures
        t@.len() == 64,
        forall|i: int| 0 <= i < 64 ==> is_hex_lower(#[trigger] t@[i]),
{
    let mut bytes = [0u8; 32];
    rand::thread_rng().fill_bytes(&mut bytes);
    hex::encode(bytes)
}

/// A string member of the request body.
pub open spec fn body_str(input: Json, key: Seq<char>) -> Option<Seq<char>> {
    match member(get(input, "body"@), key) {
        Some(Json::Str(s)) => Some(s),
        _ => None,
    }
}

/// The login name of a login request: `login`, else `username`.
pub open spec fn login_name(input: Json) -> Option<Seq<char>> {
    match body_str(input, "login"@) {
        Some(l) => Some(l),
        None => body_str(input, "username"@),
    }
}

/// The login name and password of a login request; the error object
/// "Missing login or password" when either is missing.
pub fn login_request(input: &JsonValue) -> (r: Result<(String, String), JsonValue>)
    ensures
        match r {
            Ok((l, p)) => login_name(jv(*input)) == Some(l@) && body_str(jv(*input), "password"@) == Some(p@),
            Err(e) => (login_name(jv(*input)) is None || body_str(jv(*input), "password"@) is None)
                && jv(e) == auth_error("Missing login or password"@),
        },
{
    let login = match extract_body_field(input, "login") {
        Some(l) => Some(l),
        None => extract_body_field(input, "username"),
    };
    let password = extract_body_field(input, "password");
    match (login, password) {
        (Some(l), Some(p)) => Ok((l.clone(), p.clone())),
        _ => Err(build_auth_error_object("Missing login or password", "login")),
    }
}

/// A user as the users table holds it.
#[derive(Debug)]
pub struct UserRecord {
    pub id: i32,
    pub login: String,
    pub password_hash: String,
    pub email: String,
    pub user_type: String,
}

/// The user of a valid session: id, login, email and type.
#[derive(Debug)]
pub struct SessionUser {
    pub id: i32,
    pub login: String,
    pub email: String,
    pub user_type: String,
}

/// A login that passed: the user and the token of its new session.
#[derive(Debug)]
pub struct Granted {
    pub user: UserRecord,
    pub token: String,
}

/// Checks a login against the user found for its name (`None` when no
/// active user has it): an unknown user or a password that does not match
/// the stored hash gets "Invalid credentials"; otherwise a new session
/// token is made: 64 lowercase hex digits.
pub fn login_verify(user: Option<UserRecord>, password: &str) -> (r: Result<Granted, JsonValue>)
    ensures
        match r {
            Ok(g) => user matches Some(u) && g.user == u && password_ok(password@, u.password_hash@)
                && g.token@.len() == 64 && forall|i: int| 0 <= i < 64 ==> is_hex_lower(#[trigger] g.token@[i]),
            Err(e) => (user is None || !password_ok(password@, user->0.password_hash@))
                && jv(e) == auth_error("Invalid credentials"@),
        },
{
    match user {
        None => Err(build_auth_error_object("Invalid credentials", "login")),
        Some(u) => {
            if password_matches(password, u.password_hash.as_str()) {
                let token = new_session_token();
                Ok(Granted { user: u, token })
            } else {
                Err(build_auth_error_object("Invalid credentials", "login"))
            }
        },
    }
}

/// The user object a login or registration adds: `email`, `id`, `login`,
/// `status` (when given) and `type`, in key order.
pub open spec fn user_json(id: int, login: Seq<char>, email: Seq<char>, user_type: Seq<char>, status: Option<Seq<char>>) -> Json {
    Json::Object(
        seq![("email"@, Json::Str(email)), ("id"@, Json::Int(id)), ("login"@, Json::Str(login))]
            + match status {
                Some(s) => seq![("status"@, Json::Str(s))],
                None => Seq::empty(),
            }
            + seq![("type"@, Json::Str(user_type))],
    )
}

/// Builds the user object.
fn user_object(id: i32, login: &str, email: &str, user_type: &str, status: Option<&str>) -> (r: JsonValue)
    ensures
        jv(r) == user_json(id as int, login@, email@, user_type@, match status {
            Some(s) => Some(s@),
            None => None,
        }),
{
    let mut e: Vec<(String, JsonValue)> = Vec::new();
    e.push((string_of(chars_of("email").as_slice()), JsonValue::Str(string_of(chars_of(email).as_slice()))));
    e.push((string_of(chars_of("id").as_slice()), JsonValue::Number(JsonNumber::Int(id as i64))));
    e.push((string_of(chars_of("login").as_slice()), JsonValue::Str(string_of(chars_of(login).as_slice()))));
    match status {
        Some(st) => {
            e.push((string_of(chars_of("status").as_slice()), JsonValue::Str(string_of(chars_of(st).as_slice()))));
        },
        None => {},
    }
    e.push((string_of(chars_of("type").as_slice()), JsonValue::Str(string_of(chars_of(user_type).as_slice()))));
    proof { lemma_jv_entries(e@); }
    assert(jv_entries(e@) =~= user_json(id as int, login@, email@, user_type@, match status {
        Some(s) => Some(s@),
        None => None,
    })->Object_0);
    JsonValue::Object(e)
}

/// What `setCookies` becomes when a session cookie is added: an array gets
/// it appended, a missing member becomes a one-cookie array, anything else
/// is kept.
pub open spec fn cookies_with(old: Option<Json>, cookie: Seq<char>) -> Option<Json> {
    match old {
        Some(Json::Array(a)) => Some(Json::Array(a.push(Json::Str(cookie)))),
        Some(other) => Some(other),
        None => Some(Json::Array(seq![Json::Str(cookie)])),
    }
}

/// `out` is `input` with the members `k1` and `k2` set to `v1` and `v2`
/// when `input` is an object, and `input` itself otherwise.
pub open spec fn with_members(out: Json, input: Json, k1: Seq<char>, v1: Option<Json>, k2: Seq<char>, v2: Option<Json>) -> bool {
    if input is Object {
        &&& out is Object
        &&& get(out, k1) == v1
        &&& get(out, k2) == v2
        &&& forall|k: Seq<char>| k != k1 && k != k2 ==> #[trigger] get(out, k) == get(input, k)
    } else {
        out == input
    }
}

/// The state after a login: the input with the user (status `active`) and
/// the session cookie added to `setCookies`.
pub fn login_state(input: &JsonValue, user: &UserRecord, login: &str, cookie: &str) -> (r: JsonValue)
    ensures
        with_members(jv(r), jv(*input),
            "user"@, Some(user_json(user.id as int, login@, user.email@, user.user_type@, Some("active"@))),
            "setCookies"@, cookies_with(get(jv(*input), "setCookies"@), cookie@)),
{
    proof {
        reveal_strlit("user");
        reveal_strlit("setCookies");
    }
    let mut result = input.copy();
    if !result.is_object() {
        return result;
    }
    proof { reveal_strlit("active"); }
    let u = user_object(user.id, login, user.email.as_str(), user.user_type.as_str(), Some("active"));
    let ghost uj = jv(u);
    result.set(string_of(chars_of("user").as_slice()), u);
    let ghost r1 = jv(result);
    assert("user"@ != "setCookies"@) by {
        assert("user"@.len() != "setCookies"@.len());
    }
    assert(get(r1, "setCookies"@) == get(jv(*input), "setCookies"@));
    assert(get(r1, "user"@) == Some(uj));
    let c = JsonValue::Str(string_of(chars_of(cookie).as_slice()));
    let updated = match result.get("setCookies") {
        Some(JsonValue::Array(items)) => {
            let mut v: Vec<JsonValue> = Vec::new();
            let mut i: usize = 0;
            while i < items.len()
                invariant
                    i <= items@.len(),
                    v@.len() == i,
                    forall|k: int| 0 <= k < i ==> jv(#[trigger] v@[k]) == jv(items@[k]),
                decreases items@.len() - i,
            {
                v.push(items[i].copy());
                i = i + 1;
            }
            let ghost cj = jv(c);
            v.push(c);
            proof {
                lemma_jv_seq(v@);
                lemma_jv_seq(items@);
                assert(jv_seq(v@) =~= jv_seq(items@).push(cj));
            }
            Some(JsonValue::Array(v))
        },
        Some(_) => None,
        None => {
            let mut v: Vec<JsonValue> = Vec::new();
            let ghost cj = jv(c);
            v.push(c);
            proof {
                lemma_jv_seq(v@);
                assert(jv_seq(v@) =~= seq![cj]);
            }
            Some(JsonValue::Array(v))
        },
    };
    match updated {
        Some(a) => {
            result.set(string_of(chars_of("setCookies").as_slice()), a);
        },
        None => {},
    }
    assert forall|k: Seq<char>| k != "user"@ && k != "setCookies"@ implies #[trigger] get(jv(result), k) == get(jv(*input), k) by {
        assert(get(r1, k) == get(jv(*input), k));
    }
    result
}

/// The login name, email and password of a registration; the error object
/// "Missing required fields: login, email, password" when one is missing.
pub fn register_request(input: &JsonValue) -> (r: Result<(String, String, String), JsonValue>)
    ensures
        match r {
            Ok((l, e, p)) => body_str(jv(*input), "login"@) == Some(l@) && body_str(jv(*input), "email"@) == Some(e@)
                && body_str(jv(*input), "password"@) == Some(p@),
            Err(x) => (body_str(jv(*input), "login"@) is None || body_str(jv(*input), "email"@) is None
                || body_str(jv(*input), "password"@) is None)
                && jv(x) == auth_error("Missing required fields: login, email, password"@),
        },
{
    let login = extract_body_field(input, "login");
    let email = extract_body_field(input, "email");
    let password = extract_body_field(input, "password");
    match (login, email, password) {
        (Some(l), Some(e), Some(p)) => Ok((l.clone(), e.clone(), p.clone())),
        _ => Err(build_auth_error_object("Missing required fields: login, email, password", "register")),
    }
}

/// The stored hash of a new user's password, against which the password
/// verifies at login; any password of up to `0x3FFF_FFFF` characters is
/// hashed. A hashing failure is an internal error with its message.
pub fn register_hash(password: &str) -> (r: Result<String, WebPipeError>)
    ensures
        r matches Ok(h) ==> password_ok(password@, h@),
        password@.len() <= 0x3FFF_FFFF ==> r is Ok,
        r matches Err(e) ==> e is InternalError,
{
    match hash_new_password(password) {
        Ok(h) => Ok(h),
        Err(m) => Err(WebPipeError::InternalError(m)),
    }
}

/// The state after a registration: the input with the new user (type
/// `local`, status `active`) and the message "User registration
/// successful".
pub fn register_state(input: &JsonValue, id: i32, login: &str, email: &str) -> (r: JsonValue)
    ensures
        with_members(jv(r), jv(*input),
            "user"@, Some(user_json(id as int, login@, email@, "local"@, Some("active"@))),
            "message"@, Some(Json::Str("User registration successful"@))),
{
    proof {
        reveal_strlit("user");
        reveal_strlit("message");
    }
    let mut result = input.copy();
    if !result.is_object() {
        return result;
    }
    proof { reveal_strlit("local"); reveal_strlit("active"); }
    let u = user_object(id, login, email, "local", Some("active"));
    let ghost uj = jv(u);
    result.set(string_of(chars_of("user").as_slice()), u);
    let ghost r1 = jv(result);
    assert("user"@ != "message"@) by {
        assert("user"@[0] != "message"@[0]);
    }
    proof { reveal_strlit("User registration successful"); }
    result.set(string_of(chars_of("message").as_slice()),
        JsonValue::Str(string_of(chars_of("User registration successful").as_slice())));
    assert(get(jv(result), "user"@) == get(r1, "user"@));
    assert forall|k: Seq<char>| k != "user"@ && k != "message"@ implies #[trigger] get(jv(result), k) == get(jv(*input), k) by {
        assert(get(r1, k) == get(jv(*input), k));
    }
    result
}

/// The session token a request carries: the string cookie named
/// `cookie_name`.
pub open spec fn session_token(input: Json, cookie_name: Seq<char>) -> Option<Seq<char>> {
    match member(get(input, "cookies"@), cookie_name) {
        Some(Json::Str(t)) => Some(t),
        _ => None,
    }
}

/// Reads the session token of a request.
pub fn request_token(input: &JsonValue, cookie_name: &str) -> (r: Option<String>)
    ensures
        match r {
            Some(t) => session_token(jv(*input), cookie_name@) == Some(t@),
            None => session_token(jv(*input), cookie_name@) is None,
        },
{
    match input.get("cookies") {
        Some(c) => match c.get(cookie_name) {
            Some(v) => match v.as_str() {
                Some(t) => Some(t.clone()),
                None => None,
            },
            None => None,
        },
        None => None,
    }
}

/// The token an authenticated step needs: a missing or empty token gets
/// "Authentication required".
pub fn required_token(input: &JsonValue, cookie_name: &str) -> (r: Result<String, JsonValue>)
    ensures
        match r {
            Ok(t) => session_token(jv(*input), cookie_name@) == Some(t@) && t@.len() > 0,
            Err(e) => (session_token(jv(*input), cookie_name@) is None || session_token(jv(*input), cookie_name@) == Some(Seq::<char>::empty()))
                && jv(e) == auth_error("Authentication required"@),
        },
{
    match request_token(input, cookie_name) {
        Some(t) => {
            if chars_of(t.as_str()).len() > 0 {
                Ok(t)
            } else {
                assert(t@ =~= Seq::<char>::empty());
                Err(build_auth_error_object("Authentication required", "required"))
            }
        },
        None => Err(build_auth_error_object("Authentication required", "required")),
    }
}

/// The input with the session's user (no status) added.
pub fn session_state(input: &JsonValue, user: &SessionUser) -> (r: JsonValue)
    ensures
        with_members(jv(r), jv(*input),
            "user"@, Some(user_json(user.id as int, user.login@, user.email@, user.user_type@, None)),
            "user"@, Some(user_json(user.id as int, user.login@, user.email@, user.user_type@, None))),
{
    proof { reveal_strlit("user"); }
    let mut result = input.copy();
    if !result.is_object() {
        return result;
    }
    let u = user_object(user.id, user.login.as_str(), user.email.as_str(), user.user_type.as_str(), None);
    result.set(string_of(chars_of("user").as_slice()), u);
    result
}

/// The answer of a step that requires a session, from the user the token
/// names (`None` when the session is unknown or expired): the state with
/// the user, or "Invalid session".
pub fn required_reply(input: &JsonValue, user: Option<SessionUser>) -> (r: JsonValue)
    ensures
        match user {
            Some(u) => with_members(jv(r), jv(*input),
                "user"@, Some(user_json(u.id as int, u.login@, u.email@, u.user_type@, None)),
                "user"@, Some(user_json(u.id as int, u.login@, u.email@, u.user_type@, None))),
            None => jv(r) == auth_error("Invalid session"@),
        },
{
    match user {
        Some(u) => session_state(input, &u),
        None => build_auth_error_object("Invalid session", "required"),
    }
}

/// The answer of a step where a session is optional: the state with the
/// user when the token names one, else the state unchanged.
pub fn optional_reply(input: &JsonValue, user: Option<SessionUser>) -> (r: JsonValue)
    ensures
        match user {
            Some(u) => with_members(jv(r), jv(*input),
                "user"@, Some(user_json(u.id as int, u.login@, u.email@, u.user_type@, None)),
                "user"@, Some(user_json(u.id as int, u.login@, u.email@, u.user_type@, None))),
            None => jv(r) == jv(*input),
        },
{
    match user {
        Some(u) => session_state(input, &u),
        None => input.copy(),
    }
}

/// The state after a logout: `setCookies` holds only the clearing cookie.
pub fn logout_state(input: &JsonValue, clear_cookie: &str) -> (r: JsonValue)
    ensures
        with_members(jv(r), jv(*input),
            "setCookies"@, Some(Json::Array(seq![Json::Str(clear_cookie@)])),
            "setCookies"@, Some(Json::Array(seq![Json::Str(clear_cookie@)]))),
{
    proof { reveal_strlit("setCookies"); }
    let mut result = input.copy();
    if !result.is_object() {
        return result;
    }
    let c = JsonValue::Str(string_of(chars_of(clear_cookie).as_slice()));
    let ghost cj = jv(c);
    let mut v: Vec<JsonValue> = Vec::new();
    v.push(c);
    proof {
        lemma_jv_seq(v@);
        assert(jv_seq(v@) =~= seq![cj]);
    }
    result.set(string_of(chars_of("setCookies").as_slice()), JsonValue::Array(v));
    result
}

/// The type of the user a state holds.
pub open spec fn user_type_of(state: Json) -> Option<Seq<char>> {
    match member(get(state, "user"@), "type"@) {
        Some(Json::Str(t)) => Some(t),
        _ => None,
    }
}

/// The answer of a `type:` step, from the answer of the required-session
/// check: kept when its user has the required type, else "Insufficient
/// permissions".
pub fn type_check_reply(with_user: JsonValue, required_type: &str) -> (r: JsonValue)
    ensures
        user_type_of(jv(with_user)) == Some(required_type@) ==> r == with_user,
        user_type_of(jv(with_user)) != Some(required_type@) ==> jv(r) == auth_error("Insufficient permissions"@),
{
    let t = match with_user.get("user") {
        Some(u) => match u.get("type") {
            Some(v) => match v.as_str() {
                Some(s) => str_eq(s.as_str(), required_type),
                None => false,
            },
            None => false,
        },
        None => false,
    };
    if t {
        with_user
    } else {
        build_auth_error_object("Insufficient permissions", "type")
    }
}

} // verus!
