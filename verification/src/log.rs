//! The `log` middleware: its step settings, how they fall back on the
//! global `log` config block, and the request and response parts of the
//! entry it writes when the pipeline ends.

use vstd::prelude::*;
use crate::json::{JsonValue, Json, jv, get, as_str, as_bool, jv_entries, lemma_jv_entries};
use crate::context::LogConfig;
use crate::rate_limit::{bool_text, parse_bool, opt_view};
use crate::text::{trim, char_index, lemma_char_index, lemma_char_index_at, split_char, replace_char, chars_of,
    string_of, trim_chars, slice_chars, seq_eq, replace_char_exec, split_at_char, str_eq};

verus! {

broadcast use vstd::std_specs::vec::group_vec_axioms;

/// The `log` middleware.
#[derive(Debug)]
pub struct LogMiddleware;

impl LogMiddleware {
    /// The middleware.
    pub fn new() -> (r: Self) {
        LogMiddleware
    }
}

/// What a `log` step sets; unset items fall back on the global config.
#[derive(Debug, Default)]
pub struct LogStepConfig {
    pub level: Option<String>,
    pub include_body: Option<bool>,
    pub include_headers: Option<bool>,
    pub enabled: Option<bool>,
}

/// Model of `LogStepConfig`.
pub struct LogStepSpec {
    pub level: Option<Seq<char>>,
    pub include_body: Option<bool>,
    pub include_headers: Option<bool>,
    pub enabled: Option<bool>,
}

impl LogStepConfig {
    /// The model of the settings.
    pub open spec fn model(&self) -> LogStepSpec {
        LogStepSpec {
            level: opt_view(self.level),
            include_body: self.include_body,
            include_headers: self.include_headers,
            enabled: self.enabled,
        }
    }
}

/// One `key: value` item applied to the settings; items without a colon
/// and unknown keys change nothing.
pub open spec fn apply_log_item(p: Seq<char>, acc: LogStepSpec) -> LogStepSpec {
    let t = trim(p);
    match char_index(t, ':') {
        Some(i) => {
            let key = trim(t.take(i));
            let val = trim(t.skip(i + 1));
            if key == "level"@ {
                LogStepSpec { level: Some(val), ..acc }
            } else if key == "includeBody"@ {
                LogStepSpec { include_body: bool_text(val), ..acc }
            } else if key == "includeHeaders"@ {
                LogStepSpec { include_headers: bool_text(val), ..acc }
            } else if key == "enabled"@ {
                LogStepSpec { enabled: bool_text(val), ..acc }
            } else {
                acc
            }
        },
        None => acc,
    }
}

/// The items applied in order, from settings with nothing set.
pub open spec fn apply_log_items(parts: Seq<Seq<char>>) -> LogStepSpec
    decreases parts.len(),
{
    if parts.len() == 0 {
        LogStepSpec { level: None, include_body: None, include_headers: None, enabled: None }
    } else {
        apply_log_item(parts.last(), apply_log_items(parts.drop_last()))
    }
}

/// The settings a step's configuration gives: items are separated by
/// commas or newlines; a later item overrides an earlier one.
pub open spec fn log_step_config(cfg: Seq<char>) -> LogStepSpec {
    apply_log_items(split_char(replace_char(cfg, '\n', ','), ','))
}

fn apply_log_item_exec(p: &Vec<char>, acc: &mut LogStepConfig)
    ensures
        final(acc).model() == apply_log_item(p@, old(acc).model()),
{
    let t = trim_chars(p.as_slice());
    let mut i: usize = 0;
    while i < t.len() && t[i] != ':'
        invariant
            i <= t@.len(),
            forall|j: int| 0 <= j < i ==> t@[j] != ':',
        decreases t@.len() - i,
    {
        i = i + 1;
    }
    if i == t.len() {
        proof { lemma_char_index(t@, ':'); }
        return;
    }
    proof { lemma_char_index_at(t@, ':', i as int); }
    let k0 = slice_chars(t.as_slice(), 0, i);
    let key = trim_chars(k0.as_slice());
    let v0 = slice_chars(t.as_slice(), i + 1, t.len());
    let val = trim_chars(v0.as_slice());
    assert(k0@ =~= t@.take(i as int));
    assert(v0@ =~= t@.skip(i + 1));
    let k_level = chars_of("level");
    let k_body = chars_of("includeBody");
    let k_headers = chars_of("includeHeaders");
    let k_enabled = chars_of("enabled");
    let vs = string_of(val.as_slice());
    if seq_eq(key.as_slice(), k_level.as_slice()) {
        acc.level = Some(vs);
    } else if seq_eq(key.as_slice(), k_body.as_slice()) {
        acc.include_body = parse_bool(vs.as_str());
    } else if seq_eq(key.as_slice(), k_headers.as_slice()) {
        acc.include_headers = parse_bool(vs.as_str());
    } else if seq_eq(key.as_slice(), k_enabled.as_slice()) {
        acc.enabled = parse_bool(vs.as_str());
    }
}

/// Parses a `log` step's configuration, such as
/// `level: info, includeBody: true`.
pub fn parse_step_config(cfg: &str) -> (r: LogStepConfig)
    ensures
        r.model() == log_step_config(cfg@),
{
    let v = chars_of(cfg);
    let replaced = replace_char_exec(v.as_slice(), '\n', ',');
    let parts = split_at_char(replaced.as_slice(), ',');
    let ghost ps = parts@.map_values(|x: Vec<char>| x@);
    let mut acc = LogStepConfig { level: None, include_body: None, include_headers: None, enabled: None };
    let mut k: usize = 0;
    while k < parts.len()
        invariant
            ps == parts@.map_values(|x: Vec<char>| x@),
            k <= parts@.len(),
            acc.model() == apply_log_items(ps.take(k as int)),
        decreases parts@.len() - k,
    {
        apply_log_item_exec(&parts[k], &mut acc);
        assert(ps.take(k + 1).drop_last() =~= ps.take(k as int));
        k = k + 1;
    }
    assert(ps.take(parts@.len() as int) =~= ps);
    acc
}

/// A boolean of the global config, or the default when it is missing or
/// not a boolean.
pub open spec fn global_bool(global: Json, key: Seq<char>, default: bool) -> bool {
    match get(global, key) {
        Some(Json::Bool(b)) => b,
        _ => default,
    }
}

/// The level of the global config, or `debug`.
pub open spec fn global_level(global: Json) -> Seq<char> {
    match get(global, "level"@) {
        Some(Json::Str(s)) => s,
        _ => "debug"@,
    }
}

fn global_bool_exec(global: &JsonValue, key: &str, default: bool) -> (b: bool)
    ensures
        b == global_bool(jv(*global), key@, default),
{
    match global.get(key) {
        Some(JsonValue::Bool(b)) => *b,
        _ => default,
    }
}

/// Whether logging is on: the step's `enabled`, else the global one, else on.
pub open spec fn eff_enabled(s: LogStepSpec, g: Json) -> bool {
    match s.enabled {
        Some(e) => e,
        None => global_bool(g, "enabled"@, true),
    }
}

/// The level: the step's, else the global one, else `debug`.
pub open spec fn eff_level(s: LogStepSpec, g: Json) -> Seq<char> {
    match s.level {
        Some(l) => l,
        None => global_level(g),
    }
}

/// Whether the body is logged: the step's say, else the global one, else not.
pub open spec fn eff_body(s: LogStepSpec, g: Json) -> bool {
    match s.include_body {
        Some(b) => b,
        None => global_bool(g, "includeBody"@, false),
    }
}

/// Whether headers are logged: the step's say, else the global one, else yes.
pub open spec fn eff_headers(s: LogStepSpec, g: Json) -> bool {
    match s.include_headers {
        Some(b) => b,
        None => global_bool(g, "includeHeaders"@, true),
    }
}

/// The settings a `log` step runs with, `None` when logging is disabled.
/// A setting of the step wins; else the global `log` config's value; else
/// the default: level `debug`, body not included, headers included,
/// enabled.
pub fn effective_log_config(step: &LogStepConfig, global: &JsonValue) -> (r: Option<LogConfig>)
    ensures
        r is None <==> !eff_enabled(step.model(), jv(*global)),
        r matches Some(c) ==> c.level@ == eff_level(step.model(), jv(*global))
            && c.include_body == eff_body(step.model(), jv(*global))
            && c.include_headers == eff_headers(step.model(), jv(*global)),
{
    proof {
        reveal_strlit("debug");
    }
    let enabled = match step.enabled {
        Some(e) => e,
        None => global_bool_exec(global, "enabled", true),
    };
    if !enabled {
        return None;
    }
    let level = match &step.level {
        Some(l) => l.clone(),
        None => match global.get("level") {
            Some(JsonValue::Str(s)) => s.clone(),
            _ => string_of(chars_of("debug").as_slice()),
        },
    };
    let include_body = match step.include_body {
        Some(b) => b,
        None => global_bool_exec(global, "includeBody", false),
    };
    let include_headers = match step.include_headers {
        Some(b) => b,
        None => global_bool_exec(global, "includeHeaders", true),
    };
    Some(LogConfig { level, include_body, include_headers })
}

/// The entries of an object without those under `k`.
pub open spec fn without(e: Seq<(Seq<char>, Json)>, k: Seq<char>) -> Seq<(Seq<char>, Json)>
    decreases e.len(),
{
    if e.len() == 0 {
        Seq::empty()
    } else if e.last().0 == k {
        without(e.drop_last(), k)
    } else {
        without(e.drop_last(), k).push(e.last())
    }
}

/// The response body as logged: an object loses its `originalRequest` and
/// `setCookies` entries; any other value is logged as it is.
pub open spec fn logged_body(j: Json) -> Json {
    match j {
        Json::Object(e) => Json::Object(without(without(e, "originalRequest"@), "setCookies"@)),
        _ => j,
    }
}

fn remove_key(entries: &Vec<(String, JsonValue)>, k: &str) -> (r: Vec<(String, JsonValue)>)
    ensures
        jv_entries(r@) == without(jv_entries(entries@), k@),
{
    proof { lemma_jv_entries(entries@); }
    let ghost e = jv_entries(entries@);
    let mut out: Vec<(String, JsonValue)> = Vec::new();
    let mut i: usize = 0;
    while i < entries.len()
        invariant
            e == jv_entries(entries@),
            e.len() == entries@.len(),
            forall|j: int| 0 <= j < entries@.len() ==> #[trigger] e[j] == (entries@[j].0@, jv(entries@[j].1)),
            i <= entries@.len(),
            jv_entries(out@) == without(e.take(i as int), k@),
        decreases entries@.len() - i,
    {
        proof { lemma_jv_entries(out@); }
        assert(e.take(i + 1).drop_last() =~= e.take(i as int));
        assert(e.take(i + 1).last() == e[i as int]);
        if !str_eq(entries[i].0.as_str(), k) {
            let ghost before = out@;
            out.push((entries[i].0.clone(), entries[i].1.copy()));
            proof {
                lemma_jv_entries(out@);
                lemma_jv_entries(before);
                assert(jv_entries(out@) =~= jv_entries(before).push(e[i as int]));
            }
        }
        i = i + 1;
    }
    assert(e.take(entries@.len() as int) =~= e);
    out
}

/// The response part of a log entry: `{"body": ...}` with the logged body
/// when the body is included, else an empty object.
pub fn log_response_object(final_response: &JsonValue, include_body: bool) -> (r: JsonValue)
    ensures
        jv(r) == Json::Object(if include_body {
            seq![("body"@, logged_body(jv(*final_response)))]
        } else {
            Seq::empty()
        }),
{
    proof { reveal_strlit("body"); }
    if !include_body {
        assert(jv_entries(Seq::<(String, JsonValue)>::empty()) =~= Seq::<(Seq<char>, Json)>::empty());
        return JsonValue::Object(Vec::new());
    }
    let clean = match final_response {
        JsonValue::Object(entries) => {
            let a = remove_key(entries, "originalRequest");
            let b = remove_key(&a, "setCookies");
            JsonValue::Object(b)
        },
        other => other.copy(),
    };
    let mut v: Vec<(String, JsonValue)> = Vec::new();
    v.push((string_of(chars_of("body").as_slice()), clean));
    proof {
        lemma_jv_entries(v@);
        assert(jv_entries(v@) =~= seq![("body"@, logged_body(jv(*final_response)))]);
    }
    JsonValue::Object(v)
}

/// The request part of a log entry: from the request the pipeline started
/// with (when it is an object), its `method`, `params` and `query`; and the
/// request's headers when headers are included.
pub fn log_request_object(input: &JsonValue, include_headers: bool) -> (r: JsonValue)
    ensures
        jv(r) is Object,
        forall|k: Seq<char>| #[trigger] get(jv(r), k) == if k == "headers"@ {
            if include_headers { get(jv(*input), "headers"@) } else { None }
        } else if k == "method"@ || k == "params"@ || k == "query"@ {
            match get(jv(*input), "originalRequest"@) {
                Some(Json::Object(e)) => get(Json::Object(e), k),
                _ => None,
            }
        } else {
            None
        },
{
    proof {
        reveal_strlit("headers");
        reveal_strlit("method");
        reveal_strlit("params");
        reveal_strlit("query");
        reveal_strlit("originalRequest");
    }
    let ghost orig_j = get(jv(*input), "originalRequest"@);
    let ghost from_orig = |k: Seq<char>| match orig_j {
        Some(Json::Object(e)) => get(Json::Object(e), k),
        _ => None,
    };
    let mut r = JsonValue::Object(Vec::new());
    assert(jv_entries(Seq::<(String, JsonValue)>::empty()) =~= Seq::<(Seq<char>, Json)>::empty());
    assert(forall|k: Seq<char>| #[trigger] get(jv(r), k) is None);
    match input.get("originalRequest") {
        Some(orig) => {
            if orig.is_object() {
                match orig.get("method") {
                    Some(m) => r.set(string_of(chars_of("method").as_slice()), m.copy()),
                    None => {},
                }
                assert(forall|k: Seq<char>| #[trigger] get(jv(r), k) == if k == "method"@ { from_orig(k) } else { None });
                match orig.get("params") {
                    Some(p) => r.set(string_of(chars_of("params").as_slice()), p.copy()),
                    None => {},
                }
                assert(forall|k: Seq<char>| #[trigger] get(jv(r), k) == if k == "method"@ || k == "params"@ { from_orig(k) } else { None });
                match orig.get("query") {
                    Some(q) => r.set(string_of(chars_of("query").as_slice()), q.copy()),
                    None => {},
                }
            }
        },
        None => {},
    }
    assert(jv(r) is Object);
    assert(forall|k: Seq<char>| #[trigger] get(jv(r), k) == if k == "method"@ || k == "params"@ || k == "query"@ { from_orig(k) } else { None });
    let ghost before = jv(r);
    assert("headers"@.len() == 7 && "method"@.len() == 6 && "params"@.len() == 6 && "query"@.len() == 5);
    assert("headers"@ != "method"@ && "headers"@ != "params"@ && "headers"@ != "query"@);
    if include_headers {
        match input.get("headers") {
            Some(h) => {
                let hc = h.copy();
                r.set(string_of(chars_of("headers").as_slice()), hc);
                assert(get(jv(r), "headers"@) == get(jv(*input), "headers"@));
            },
            None => {
                assert(get(jv(r), "headers"@) is None);
            },
        }
    } else {
        assert(get(jv(r), "headers"@) is None);
    }
    assert(forall|k: Seq<char>| k != "headers"@ ==> #[trigger] get(jv(r), k) == get(before, k));
    assert(forall|k: Seq<char>| #[trigger] get(jv(r), k) == if k == "headers"@ {
        if include_headers { get(jv(*input), "headers"@) } else { None }
    } else if k == "method"@ || k == "params"@ || k == "query"@ { from_orig(k) } else { None });
    r
}

} // verus!
