//! The `rateLimit` middleware's configuration language and key templates.

use vstd::prelude::*;
use crate::json::{JsonValue, Json, jv, get, json_text, write_json, lemma_jv_seq};
use crate::text::{trim, ends_with, parse_u64_spec, parse_u64, char_index, lemma_char_index, scan_to_char,
    lemma_char_index_at, split_char, replace_char, split_at_char, replace_char_exec, trim_chars,
    chars_of, string_of, slice_chars, append, seq_eq, dec, append_str, u64_to_chars};
use crate::error::WebPipeError;

verus! {

/// The `rate_limit` middleware; its connections and stores live with the server.
#[derive(Debug)]
pub struct RateLimitMiddleware;

impl RateLimitMiddleware {
    /// The middleware.
    pub fn new() -> (r: Self) {
        RateLimitMiddleware
    }
}

/// `x * k` wrapped to 64 bits, as an unchecked multiplication of the
/// release build gives.
pub open spec fn wrap_mul(x: u64, k: u64) -> u64 {
    vstd::wrapping::u64_specs::wrapping_mul(x, k)
}

/// The number of seconds a duration text denotes: plain seconds, or a
/// number with the unit `ms` (rounded down to seconds), `s`, `m`, `h` or
/// `d`; the text and the number are trimmed.
pub open spec fn duration_secs(s: Seq<char>) -> Option<u64> {
    let t = trim(s);
    if t.len() == 0 {
        None
    } else if parse_u64_spec(t) is Some {
        parse_u64_spec(t)
    } else if ends_with(t, seq!['m', 's']) {
        match parse_u64_spec(trim(t.take(t.len() - 2))) {
            Some(n) => Some((n / 1000) as u64),
            None => None,
        }
    } else if ends_with(t, seq!['s']) {
        parse_u64_spec(trim(t.take(t.len() - 1)))
    } else if ends_with(t, seq!['m']) {
        match parse_u64_spec(trim(t.take(t.len() - 1))) {
            Some(n) => Some(wrap_mul(n, 60)),
            None => None,
        }
    } else if ends_with(t, seq!['h']) {
        match parse_u64_spec(trim(t.take(t.len() - 1))) {
            Some(n) => Some(wrap_mul(n, 3600)),
            None => None,
        }
    } else if ends_with(t, seq!['d']) {
        match parse_u64_spec(trim(t.take(t.len() - 1))) {
            Some(n) => Some(wrap_mul(n, 86400)),
            None => None,
        }
    } else {
        None
    }
}

/// Parses a duration such as `60`, `500ms`, `60s`, `5m`, `1h` or `1d` into
/// seconds.
pub fn parse_duration(s: &str) -> (r: Option<u64>)
    ensures
        r == duration_secs(s@),
{
    let v = chars_of(s);
    let t = trim_chars(v.as_slice());
    let n = t.len();
    if n == 0 {
        return None;
    }
    match parse_u64(t.as_slice()) {
        Some(x) => return Some(x),
        None => {},
    }
    let last = t[n - 1];
    if n >= 2 && t[n - 2] == 'm' && last == 's' {
        assert(t@.skip(n - 2) =~= seq!['m', 's']);
        let body = slice_chars(t.as_slice(), 0, n - 2);
        let num = trim_chars(body.as_slice());
        return match parse_u64(num.as_slice()) {
            Some(x) => Some(x / 1000),
            None => None,
        };
    }
    assert(!ends_with(t@, seq!['m', 's'])) by {
        if n >= 2 {
            assert(t@.skip(n - 2)[0] == t@[n - 2]);
            assert(t@.skip(n - 2)[1] == t@[n - 1]);
        }
    }
    let body = slice_chars(t.as_slice(), 0, n - 1);
    let num = trim_chars(body.as_slice());
    assert(t@.skip(n - 1) =~= seq![last]);
    assert(forall|c: char| ends_with(t@, seq![c]) <==> c == last) by {
        assert forall|c: char| ends_with(t@, seq![c]) implies c == last by {
            assert(t@.skip(n - 1)[0] == last);
        }
    }
    if last == 's' {
        parse_u64(num.as_slice())
    } else if last == 'm' {
        match parse_u64(num.as_slice()) {
            Some(x) => Some(x.wrapping_mul(60)),
            None => None,
        }
    } else if last == 'h' {
        match parse_u64(num.as_slice()) {
            Some(x) => Some(x.wrapping_mul(3600)),
            None => None,
        }
    } else if last == 'd' {
        match parse_u64(num.as_slice()) {
            Some(x) => Some(x.wrapping_mul(86400)),
            None => None,
        }
    } else {
        None
    }
}

/// ASCII lower case of a character (`char::to_ascii_lowercase`).
pub open spec fn lower(c: char) -> char {
    if 'A' <= c && c <= 'Z' { ((c as u32) + 32) as char } else { c }
}

/// `a` equals the lower-case text `b` ignoring ASCII case.
pub open spec fn eq_lower(a: Seq<char>, b: Seq<char>) -> bool {
    a.len() == b.len() && forall|i: int| 0 <= i < a.len() ==> lower(#[trigger] a[i]) == b[i]
}

fn eq_lower_exec(a: &[char], b: &[char]) -> (r: bool)
    requires
        forall|i: int| 0 <= i < b@.len() ==> 'a' <= #[trigger] b@[i] <= 'z',
    ensures
        r == eq_lower(a@, b@),
{
    if a.len() != b.len() {
        return false;
    }
    let mut i: usize = 0;
    while i < a.len()
        invariant
            a@.len() == b@.len(),
            forall|k: int| 0 <= k < b@.len() ==> 'a' <= #[trigger] b@[k] <= 'z',
            i <= a@.len(),
            forall|k: int| 0 <= k < i ==> lower(#[trigger] a@[k]) == b@[k],
        decreases a@.len() - i,
    {
        let c = a[i];
        let t = b[i];
        let ok = if 'A' <= c && c <= 'Z' { (c as u32) + 32 == (t as u32) } else { c == t };
        assert(ok == (lower(c) == t));
        if !ok {
            return false;
        }
        i = i + 1;
    }
    true
}

/// `true`/`false` in any ASCII case, trimmed.
pub open spec fn bool_text(s: Seq<char>) -> Option<bool> {
    if eq_lower(trim(s), seq!['t', 'r', 'u', 'e']) {
        Some(true)
    } else if eq_lower(trim(s), seq!['f', 'a', 'l', 's', 'e']) {
        Some(false)
    } else {
        None
    }
}

/// Parses `true` or `false`, ignoring ASCII case and surrounding space.
pub fn parse_bool(s: &str) -> (r: Option<bool>)
    ensures
        r == bool_text(s@),
{
    let v = chars_of(s);
    let t = trim_chars(v.as_slice());
    let mut w_true: Vec<char> = Vec::new();
    w_true.push('t'); w_true.push('r'); w_true.push('u'); w_true.push('e');
    let mut w_false: Vec<char> = Vec::new();
    w_false.push('f'); w_false.push('a'); w_false.push('l'); w_false.push('s'); w_false.push('e');
    assert(w_true@ =~= seq!['t', 'r', 'u', 'e']);
    assert(w_false@ =~= seq!['f', 'a', 'l', 's', 'e']);
    if eq_lower_exec(t.as_slice(), w_true.as_slice()) {
        Some(true)
    } else if eq_lower_exec(t.as_slice(), w_false.as_slice()) {
        Some(false)
    } else {
        None
    }
}

/// The settings of a `rateLimit` step.
#[derive(Debug, Default)]
pub struct RateLimitConfig {
    pub key_template: Option<String>,
    pub limit: Option<u64>,
    pub window_secs: Option<u64>,
    pub burst: Option<u64>,
    pub scope: Option<String>,
    pub enabled: Option<bool>,
}

/// Model of `RateLimitConfig`.
pub struct RateLimitSpec {
    pub key_template: Option<Seq<char>>,
    pub limit: Option<u64>,
    pub window_secs: Option<u64>,
    pub burst: Option<u64>,
    pub scope: Option<Seq<char>>,
    pub enabled: Option<bool>,
}

/// The view of an optional string.
pub open spec fn opt_view(o: Option<String>) -> Option<Seq<char>> {
    match o {
        Some(s) => Some(s@),
        None => None,
    }
}

impl RateLimitConfig {
    /// The model of the settings.
    pub open spec fn model(&self) -> RateLimitSpec {
        RateLimitSpec {
            key_template: opt_view(self.key_template),
            limit: self.limit,
            window_secs: self.window_secs,
            burst: self.burst,
            scope: opt_view(self.scope),
            enabled: self.enabled,
        }
    }
}

/// One `key: value` item applied to the settings; items without a colon,
/// empty items and unknown keys change nothing.
pub open spec fn apply_item(p: Seq<char>, acc: RateLimitSpec) -> RateLimitSpec {
    let t = trim(p);
    match char_index(t, ':') {
        Some(i) => {
            let key = trim(t.take(i));
            let val = trim(t.skip(i + 1));
            if key == "keyTemplate"@ {
                RateLimitSpec { key_template: Some(val), ..acc }
            } else if key == "limit"@ {
                RateLimitSpec { limit: parse_u64_spec(val), ..acc }
            } else if key == "window"@ {
                RateLimitSpec { window_secs: duration_secs(val), ..acc }
            } else if key == "burst"@ {
                RateLimitSpec { burst: parse_u64_spec(val), ..acc }
            } else if key == "scope"@ {
                RateLimitSpec { scope: Some(val), ..acc }
            } else if key == "enabled"@ {
                RateLimitSpec { enabled: bool_text(val), ..acc }
            } else {
                acc
            }
        },
        None => acc,
    }
}

/// The items applied in order, from settings with nothing set.
pub open spec fn apply_items(parts: Seq<Seq<char>>) -> RateLimitSpec
    decreases parts.len(),
{
    if parts.len() == 0 {
        RateLimitSpec { key_template: None, limit: None, window_secs: None, burst: None, scope: None, enabled: None }
    } else {
        apply_item(parts.last(), apply_items(parts.drop_last()))
    }
}

/// The settings a configuration text gives: items are separated by commas
/// or newlines; a later item overrides an earlier one.
pub open spec fn rate_limit_config(cfg: Seq<char>) -> RateLimitSpec {
    apply_items(split_char(replace_char(cfg, '\n', ','), ','))
}

fn apply_item_exec(p: &Vec<char>, acc: &mut RateLimitConfig)
    ensures
        final(acc).model() == apply_item(p@, old(acc).model()),
{
    let t = trim_chars(p.as_slice());
    let mut i: usize = 0;
    while i < t.len() && t[i] != ':'
        invariant
            i <= t@.len(),
            forall|j: int| 0 <= j < i ==> t@[j] != ':',
        decreases t@.len() - i,
    {
        i = i + 1;
    }
    if i == t.len() {
        proof { lemma_char_index(t@, ':'); }
        return;
    }
    proof { lemma_char_index_at(t@, ':', i as int); }
    let k0 = slice_chars(t.as_slice(), 0, i);
    let key = trim_chars(k0.as_slice());
    let v0 = slice_chars(t.as_slice(), i + 1, t.len());
    let val = trim_chars(v0.as_slice());
    assert(k0@ =~= t@.take(i as int));
    assert(v0@ =~= t@.skip(i + 1));
    let k_kt = chars_of("keyTemplate");
    let k_limit = chars_of("limit");
    let k_window = chars_of("window");
    let k_burst = chars_of("burst");
    let k_scope = chars_of("scope");
    let k_enabled = chars_of("enabled");
    if seq_eq(key.as_slice(), k_kt.as_slice()) {
        acc.key_template = Some(string_of(val.as_slice()));
    } else if seq_eq(key.as_slice(), k_limit.as_slice()) {
        acc.limit = parse_u64(val.as_slice());
    } else if seq_eq(key.as_slice(), k_window.as_slice()) {
        let vs = string_of(val.as_slice());
        acc.window_secs = parse_duration(vs.as_str());
    } else if seq_eq(key.as_slice(), k_burst.as_slice()) {
        acc.burst = parse_u64(val.as_slice());
    } else if seq_eq(key.as_slice(), k_scope.as_slice()) {
        acc.scope = Some(string_of(val.as_slice()));
    } else if seq_eq(key.as_slice(), k_enabled.as_slice()) {
        let vs = string_of(val.as_slice());
        acc.enabled = parse_bool(vs.as_str());
    }
}

/// Parses a `rateLimit` configuration such as
/// `keyTemplate: ip-{ip}, limit: 100, window: 60s, burst: 10`.
pub fn parse_config(cfg: &str) -> (r: RateLimitConfig)
    ensures
        r.model() == rate_limit_config(cfg@),
{
    let v = chars_of(cfg);
    let replaced = replace_char_exec(v.as_slice(), '\n', ',');
    let parts = split_at_char(replaced.as_slice(), ',');
    let ghost ps = parts@.map_values(|x: Vec<char>| x@);
    let mut acc = RateLimitConfig {
        key_template: None, limit: None, window_secs: None, burst: None, scope: None, enabled: None,
    };
    let mut k: usize = 0;
    while k < parts.len()
        invariant
            ps == parts@.map_values(|x: Vec<char>| x@),
            k <= parts@.len(),
            acc.model() == apply_items(ps.take(k as int)),
        decreases parts@.len() - k,
    {
        apply_item_exec(&parts[k], &mut acc);
        assert(ps.take(k + 1).drop_last() =~= ps.take(k as int));
        k = k + 1;
    }
    assert(ps.take(parts@.len() as int) =~= ps);
    acc
}

/// One step of a dotted path: a key of an object, or an index of an array.
pub open spec fn path_step(v: Json, part: Seq<char>) -> Option<Json> {
    match v {
        Json::Object(_) => get(v, part),
        Json::Array(items) => match parse_u64_spec(part) {
            Some(n) => if n < items.len() { Some(items[n as int]) } else { None },
            None => None,
        },
        _ => None,
    }
}

/// Follows a sequence of path steps.
pub open spec fn follow(v: Json, parts: Seq<Seq<char>>) -> Option<Json>
    decreases parts.len(),
{
    if parts.len() == 0 {
        Some(v)
    } else {
        match path_step(v, parts[0]) {
            Some(c) => follow(c, parts.drop_first()),
            None => None,
        }
    }
}

/// The value at a dot-separated path such as `user.id` or `items.0`.
pub open spec fn resolve_path_spec(v: Json, path: Seq<char>) -> Option<Json> {
    follow(v, split_char(path, '.'))
}

/// Resolves a dot-separated path in a JSON value.
pub fn resolve_path<'a>(value: &'a JsonValue, path: &[char]) -> (r: Option<&'a JsonValue>)
    ensures
        match r {
            Some(x) => resolve_path_spec(jv(*value), path@) == Some(jv(*x)),
            None => resolve_path_spec(jv(*value), path@) is None,
        },
{
    let parts = split_at_char(path, '.');
    let ghost ps = parts@.map_values(|x: Vec<char>| x@);
    let mut cur: &JsonValue = value;
    let mut k: usize = 0;
    assert(ps.skip(0) =~= ps);
    while k < parts.len()
        invariant
            ps == parts@.map_values(|x: Vec<char>| x@),
            ps == split_char(path@, '.'),
            k <= parts@.len(),
            resolve_path_spec(jv(*value), path@) == follow(jv(*cur), ps.skip(k as int)),
        decreases parts@.len() - k,
    {
        assert(ps.skip(k as int).drop_first() =~= ps.skip(k + 1));
        assert(ps.skip(k as int)[0] == parts@[k as int]@);
        let part = &parts[k];
        let next: Option<&JsonValue> = match cur {
            JsonValue::Object(_) => {
                let ps_str = string_of(part.as_slice());
                cur.get(ps_str.as_str())
            },
            JsonValue::Array(items) => {
                proof { lemma_jv_seq(items@); }
                match parse_u64(part.as_slice()) {
                    Some(n) => if n < items.len() as u64 {
                        Some(&items[n as usize])
                    } else {
                        None
                    },
                    None => None,
                }
            },
            _ => None,
        };
        match next {
            Some(c) => {
                cur = c;
            },
            None => {
                return None;
            },
        }
        k = k + 1;
    }
    Some(cur)
}

/// How a resolved value is written into a key: strings as they are, other
/// values as their JSON text.
pub open spec fn render(j: Json) -> Seq<char> {
    match j {
        Json::Str(s) => s,
        _ => json_text(j),
    }
}

/// Replaces each `{path}` of a template with the value at that path in the
/// input (`unknown` when absent). Scanning resumes after each replaced
/// placeholder; a `{` without a later `}` ends the replacement.
pub open spec fn interpolate(t: Seq<char>, input: Json) -> Seq<char>
    decreases t.len(),
{
    match char_index(t, '{') {
        Some(o) => if 0 <= o < t.len() {
            match char_index(t.skip(o), '}') {
                Some(c) => if 0 <= c < t.len() - o {
                    t.take(o) + match resolve_path_spec(input, t.subrange(o + 1, o + c)) {
                        Some(v) => render(v),
                        None => "unknown"@,
                    } + interpolate(t.skip(o + c + 1), input)
                } else {
                    t
                },
                None => t,
            }
        } else {
            t
        },
        None => t,
    }
}

/// Builds the rate-limit key for a request from a template such as
/// `ip-{ip}-route-{method}-{path}`.
pub fn interpolate_key(template: &str, input: &JsonValue) -> (r: String)
    ensures
        r@ == interpolate(template@, jv(*input)),
{
    let t = chars_of(template);
    let unknown = chars_of("unknown");
    let mut out: Vec<char> = Vec::new();
    let mut pos: usize = 0;
    assert(t@.skip(0) =~= t@);
    loop
        invariant
            pos <= t@.len(),
            unknown@ == "unknown"@,
            interpolate(template@, jv(*input)) == out@ + interpolate(t@.skip(pos as int), jv(*input)),
            t@ == template@,
        decreases t@.len() - pos,
    {
        let ghost rest = t@.skip(pos as int);
        let o = scan_to_char(t.as_slice(), '{', pos);
        if o == t.len() {
            let tail = slice_chars(t.as_slice(), pos, t.len());
            append(&mut out, tail.as_slice());
            assert(tail@ =~= rest);
            return string_of(out.as_slice());
        }
        let c = scan_to_char(t.as_slice(), '}', o);
        let ghost ro = rest.skip(o - pos);
        assert(ro =~= t@.skip(o as int));
        if c == t.len() {
            let tail = slice_chars(t.as_slice(), pos, t.len());
            append(&mut out, tail.as_slice());
            assert(tail@ =~= rest);
            return string_of(out.as_slice());
        }
        let before = slice_chars(t.as_slice(), pos, o);
        append(&mut out, before.as_slice());
        let name = slice_chars(t.as_slice(), o + 1, c);
        assert(before@ =~= rest.take(o - pos));
        assert(name@ =~= rest.subrange(o - pos + 1, o - pos + (c - o)));
        let ghost out_mid = out@;
        match resolve_path(input, name.as_slice()) {
            Some(v) => {
                match v {
                    JsonValue::Str(s) => {
                        let sc = chars_of(s.as_str());
                        append(&mut out, sc.as_slice());
                    },
                    _ => {
                        write_json(v, &mut out);
                    },
                }
            },
            None => {
                append(&mut out, unknown.as_slice());
            },
        }
        assert(rest.skip(o - pos + (c - o) + 1) =~= t@.skip(c + 1));
        pos = c + 1;
    }
}


/// What a `rateLimit` step checks: the request's key, the limit per
/// window, the window in seconds (at least one), and the burst allowance.
#[derive(Debug)]
pub struct RatePlan {
    pub key: String,
    pub limit: u64,
    pub window_secs: u64,
    pub burst: Option<u64>,
}

/// The plan of a `rateLimit` step: nothing when it is disabled; else its
/// key template, limit and window are required, in that order.
pub fn rate_limit_plan(cfg: &RateLimitConfig, input: &JsonValue) -> (r: Result<Option<RatePlan>, WebPipeError>)
    ensures
        cfg.enabled == Some(false) ==> r matches Ok(None),
        cfg.enabled != Some(false) ==> match r {
            Ok(None) => false,
            Ok(Some(p)) => cfg.key_template is Some && cfg.limit is Some && cfg.window_secs is Some
                && p.key@ == interpolate(cfg.key_template->0@, jv(*input)) && p.limit == cfg.limit->0
                && p.window_secs == (if cfg.window_secs->0 < 1 { 1 } else { cfg.window_secs->0 })
                && p.burst == cfg.burst,
            Err(e) => e matches WebPipeError::ConfigError(m) && if cfg.key_template is None {
                m@ == "rateLimit: keyTemplate is required"@
            } else if cfg.limit is None {
                m@ == "rateLimit: limit is required"@
            } else {
                cfg.window_secs is None && m@ == "rateLimit: window is required"@
            },
        },
{
    let enabled = match cfg.enabled {
        Some(e) => e,
        None => true,
    };
    if !enabled {
        return Ok(None);
    }
    let tpl = match &cfg.key_template {
        Some(t) => t,
        None => {
            return Err(WebPipeError::ConfigError(string_of(chars_of("rateLimit: keyTemplate is required").as_slice())));
        },
    };
    let limit = match cfg.limit {
        Some(l) => l,
        None => {
            return Err(WebPipeError::ConfigError(string_of(chars_of("rateLimit: limit is required").as_slice())));
        },
    };
    let window = match cfg.window_secs {
        Some(w) => w,
        None => {
            return Err(WebPipeError::ConfigError(string_of(chars_of("rateLimit: window is required").as_slice())));
        },
    };
    let window_secs = if window < 1 { 1 } else { window };
    let key = interpolate_key(tpl.as_str(), input);
    Ok(Some(RatePlan { key, limit, window_secs, burst: cfg.burst }))
}

/// The message a refused request is answered with.
pub open spec fn refusal_message(key: Seq<char>, count: u64, limit: u64, window: u64, retry: u64) -> Seq<char> {
    "Rate limit exceeded for key '"@ + key + "': "@ + dec(count as nat) + "/"@ + dec(limit as nat)
        + " requests in "@ + dec(window as nat) + "s window. Retry after "@ + dec(retry as nat) + "s"@
}

/// An object entry's value when it is an object, else an empty object.
pub open spec fn object_or_empty(j: Option<Json>) -> Json {
    match j {
        Some(Json::Object(e)) => Json::Object(e),
        _ => Json::Object(Seq::empty()),
    }
}

fn object_or_empty_exec(v: Option<&JsonValue>) -> (r: JsonValue)
    ensures
        jv(r) == object_or_empty(match v {
            Some(x) => Some(jv(*x)),
            None => None,
        }),
{
    match v {
        Some(x) => {
            if x.is_object() {
                return x.copy();
            }
        },
        None => {},
    }
    let r = JsonValue::Object(Vec::new());
    assert(crate::json::jv_entries(Seq::<(String, JsonValue)>::empty()) =~= Seq::<(Seq<char>, Json)>::empty());
    r
}

/// The `rateLimit` entry after an allowed request: `key`, `remaining`,
/// `limit`, `resetAfter`, and `scope` when there is one, over what the
/// entry held before.
pub open spec fn rate_limit_entry(old: Json, key: Seq<char>, remaining: int, limit: int, reset: int, scope: Option<Seq<char>>, k: Seq<char>) -> Option<Json> {
    if k == "key"@ {
        Some(Json::Str(key))
    } else if k == "remaining"@ {
        Some(Json::Int(remaining))
    } else if k == "limit"@ {
        Some(Json::Int(limit))
    } else if k == "resetAfter"@ {
        Some(Json::Int(reset))
    } else if k == "scope"@ && scope is Some {
        Some(Json::Str(scope->0))
    } else {
        get(old, k)
    }
}

/// `out` is the object `input` with `_metadata.rateLimit` filled in: every
/// other key of the input, of its `_metadata` and of the old `rateLimit`
/// entry is kept.
pub open spec fn verdict_output(out: Json, input: Json, key: Seq<char>, remaining: int, limit: int, reset: int, scope: Option<Seq<char>>) -> bool {
    let old_meta = object_or_empty(get(input, "_metadata"@));
    let old_rl = object_or_empty(get(old_meta, "rateLimit"@));
    &&& out is Object
    &&& forall|k: Seq<char>| k != "_metadata"@ ==> #[trigger] get(out, k) == get(input, k)
    &&& get(out, "_metadata"@) is Some
    &&& get(out, "_metadata"@)->0 is Object
    &&& forall|k: Seq<char>| k != "rateLimit"@ ==> #[trigger] get(get(out, "_metadata"@)->0, k) == get(old_meta, k)
    &&& get(get(out, "_metadata"@)->0, "rateLimit"@) is Some
    &&& get(get(out, "_metadata"@)->0, "rateLimit"@)->0 is Object
    &&& forall|k: Seq<char>| #[trigger] get(get(get(out, "_metadata"@)->0, "rateLimit"@)->0, k)
        == rate_limit_entry(old_rl, key, remaining, limit, reset, scope, k)
}

/// The outcome of a rate-limit check the store answered: a refused request
/// fails with `RateLimitExceeded`; an allowed one continues with the input,
/// an object input gaining `_metadata.rateLimit` with the key, the
/// remaining count, the limit, the seconds until reset and the scope.
pub fn rate_limit_verdict(
    plan: &RatePlan,
    scope: &Option<String>,
    input: &JsonValue,
    allowed: bool,
    current_count: u64,
    effective_limit: u64,
    retry_after: u64,
) -> (r: Result<JsonValue, WebPipeError>)
    requires
        allowed ==> current_count <= effective_limit,
    ensures
        !allowed ==> (r matches Err(WebPipeError::RateLimitExceeded(m))
            && m@ == refusal_message(plan.key@, current_count, effective_limit, plan.window_secs, retry_after)),
        allowed && !(jv(*input) is Object) ==> (r matches Ok(o) && jv(o) == jv(*input)),
        allowed && jv(*input) is Object ==> (r matches Ok(o) && verdict_output(jv(o), jv(*input), plan.key@,
            effective_limit - current_count, effective_limit as int, retry_after as int, opt_view(*scope))),
{
    proof {
        reveal_strlit("_metadata");
        reveal_strlit("rateLimit");
    }
    if !allowed {
        let mut m: Vec<char> = chars_of("Rate limit exceeded for key '");
        append_str(&mut m, plan.key.as_str());
        append_str(&mut m, "': ");
        append(&mut m, u64_to_chars(current_count).as_slice());
        append_str(&mut m, "/");
        append(&mut m, u64_to_chars(effective_limit).as_slice());
        append_str(&mut m, " requests in ");
        append(&mut m, u64_to_chars(plan.window_secs).as_slice());
        append_str(&mut m, "s window. Retry after ");
        append(&mut m, u64_to_chars(retry_after).as_slice());
        append_str(&mut m, "s");
        return Err(WebPipeError::RateLimitExceeded(string_of(m.as_slice())));
    }
    let mut out = input.copy();
    if !out.is_object() {
        return Ok(out);
    }
    let ghost in_j = jv(*input);
    let ghost old_meta = object_or_empty(get(in_j, "_metadata"@));
    let mut meta = object_or_empty_exec(out.get("_metadata"));
    assert(jv(meta) == old_meta);
    let ghost old_rl = object_or_empty(get(old_meta, "rateLimit"@));
    let mut rl = object_or_empty_exec(meta.get("rateLimit"));
    assert(jv(rl) == old_rl);
    proof {
        reveal_strlit("key");
        reveal_strlit("remaining");
        reveal_strlit("limit");
        reveal_strlit("resetAfter");
        reveal_strlit("scope");
        assert("key"@.len() == 3 && "remaining"@.len() == 9 && "limit"@.len() == 5 && "resetAfter"@.len() == 10
            && "scope"@.len() == 5);
        assert("limit"@ != "scope"@) by {
            assert("limit"@[0] != "scope"@[0]);
        }
        assert("_metadata"@.len() == 9 && "rateLimit"@.len() == 9);
    }
    let remaining = effective_limit - current_count;
    rl.set(string_of(chars_of("key").as_slice()), crate::json::json_str(plan.key.clone()));
    rl.set(string_of(chars_of("remaining").as_slice()), crate::json::json_uint(remaining));
    rl.set(string_of(chars_of("limit").as_slice()), crate::json::json_uint(effective_limit));
    rl.set(string_of(chars_of("resetAfter").as_slice()), crate::json::json_uint(retry_after));
    assert(jv(rl) is Object);
    assert(forall|k: Seq<char>| k != "scope"@ ==> #[trigger] get(jv(rl), k) == rate_limit_entry(old_rl, plan.key@, remaining as int,
        effective_limit as int, retry_after as int, opt_view(*scope), k));
    match scope {
        Some(sc) => {
            rl.set(string_of(chars_of("scope").as_slice()), crate::json::json_str(sc.clone()));
        },
        None => {},
    }
    assert(forall|k: Seq<char>| #[trigger] get(jv(rl), k) == rate_limit_entry(old_rl, plan.key@, remaining as int,
        effective_limit as int, retry_after as int, opt_view(*scope), k));
    let ghost rl_j = jv(rl);
    meta.set(string_of(chars_of("rateLimit").as_slice()), rl);
    assert(get(jv(meta), "rateLimit"@) == Some(rl_j));
    let ghost meta_j = jv(meta);
    out.set(string_of(chars_of("_metadata").as_slice()), meta);
    assert(get(jv(out), "_metadata"@) == Some(meta_j));
    Ok(out)
}


/// Law: a request the limiter refuses is answered with status 429 and the
/// type `rate_limit_exceeded`, also when a step location was attached.
pub proof fn law_refusal_answered_429(plan: RatePlan, scope: Option<String>, input: JsonValue, count: u64, limit: u64, retry: u64, r: Result<JsonValue, WebPipeError>, loc: crate::ast::SourceLocation, located: WebPipeError)
    requires
        r matches Err(WebPipeError::RateLimitExceeded(m)) && m@ == refusal_message(plan.key@, count, limit, plan.window_secs, retry),
        crate::error::locates(r->Err_0, loc, located),
    ensures
        crate::error::error_status(r->Err_0) == 429,
        crate::error::error_status(located) == 429,
        crate::error::error_kind(located) == crate::error::error_kind(r->Err_0),
{
    match located {
        WebPipeError::Located { location, source } => {
            crate::error::law_located_delegates(location, *source);
        },
        _ => {},
    }
}

} // verus!
