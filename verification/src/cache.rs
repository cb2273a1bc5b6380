//! The `cache` middleware: its step settings, the policy they give with
//! the global `cache` config block, cache keys built from templates, and
//! what a cache lookup leads to.

use vstd::prelude::*;
use std::hash::Hasher;
use vstd::std_specs::hash::DefaultHasherAdditionalSpecFns;
use crate::json::{JsonValue, Json, jv, get, json_text, write_json, hex_digit, hex_digit_exec};
use crate::context::CachePolicy;
use crate::rate_limit::{bool_text, parse_bool, opt_view};
use crate::text::{trim, char_index, lemma_char_index, lemma_char_index_at, split_char, replace_char, chars_of,
    string_of, trim_chars, slice_chars, seq_eq, replace_char_exec, split_at_char, parse_u64_spec, parse_u64, append,
    scan_to_char};

verus! {

broadcast use vstd::std_specs::vec::group_vec_axioms;

/// The `cache` middleware; its connections and stores live with the server.
#[derive(Debug)]
pub struct CacheMiddleware;

impl CacheMiddleware {
    /// The middleware.
    pub fn new() -> (r: Self) {
        CacheMiddleware
    }
}

/// What a `cache` step sets; unset items fall back on the global config.
#[derive(Debug, Default)]
pub struct CacheStepConfig {
    pub enabled: Option<bool>,
    pub ttl: Option<u64>,
    pub key_template: Option<String>,
}

/// Model of `CacheStepConfig`.
pub struct CacheStepSpec {
    pub enabled: Option<bool>,
    pub ttl: Option<u64>,
    pub key_template: Option<Seq<char>>,
}

impl CacheStepConfig {
    /// The model of the settings.
    pub open spec fn model(&self) -> CacheStepSpec {
        CacheStepSpec { enabled: self.enabled, ttl: self.ttl, key_template: opt_view(self.key_template) }
    }
}

/// One `key: value` item applied to the settings; items without a colon
/// and unknown keys change nothing.
pub open spec fn apply_cache_item(p: Seq<char>, acc: CacheStepSpec) -> CacheStepSpec {
    let t = trim(p);
    match char_index(t, ':') {
        Some(i) => {
            let key = trim(t.take(i));
            let val = trim(t.skip(i + 1));
            if key == "enabled"@ {
                CacheStepSpec { enabled: bool_text(val), ..acc }
            } else if key == "ttl"@ {
                CacheStepSpec { ttl: parse_u64_spec(val), ..acc }
            } else if key == "keyTemplate"@ {
                CacheStepSpec { key_template: Some(val), ..acc }
            } else {
                acc
            }
        },
        None => acc,
    }
}

/// The items applied in order, from settings with nothing set.
pub open spec fn apply_cache_items(parts: Seq<Seq<char>>) -> CacheStepSpec
    decreases parts.len(),
{
    if parts.len() == 0 {
        CacheStepSpec { enabled: None, ttl: None, key_template: None }
    } else {
        apply_cache_item(parts.last(), apply_cache_items(parts.drop_last()))
    }
}

/// The settings a step's configuration gives: items are separated by
/// commas or newlines; a later item overrides an earlier one.
pub open spec fn cache_step_config(cfg: Seq<char>) -> CacheStepSpec {
    apply_cache_items(split_char(replace_char(cfg, '\n', ','), ','))
}

fn apply_cache_item_exec(p: &Vec<char>, acc: &mut CacheStepConfig)
    ensures
        final(acc).model() == apply_cache_item(p@, old(acc).model()),
{
    let t = trim_chars(p.as_slice());
    let mut i: usize = 0;
    while i < t.len() && t[i] != ':'
        invariant
            i <= t@.len(),
            forall|j: int| 0 <= j < i ==> t@[j] != ':',
        decreases t@.len() - i,
    {
        i = i + 1;
    }
    if i == t.len() {
        proof { lemma_char_index(t@, ':'); }
        return;
    }
    proof { lemma_char_index_at(t@, ':', i as int); }
    let k0 = slice_chars(t.as_slice(), 0, i);
    let key = trim_chars(k0.as_slice());
    let v0 = slice_chars(t.as_slice(), i + 1, t.len());
    let val = trim_chars(v0.as_slice());
    assert(k0@ =~= t@.take(i as int));
    assert(v0@ =~= t@.skip(i + 1));
    let k_enabled = chars_of("enabled");
    let k_ttl = chars_of("ttl");
    let k_tpl = chars_of("keyTemplate");
    if seq_eq(key.as_slice(), k_enabled.as_slice()) {
        let vs = string_of(val.as_slice());
        acc.enabled = parse_bool(vs.as_str());
    } else if seq_eq(key.as_slice(), k_ttl.as_slice()) {
        acc.ttl = parse_u64(val.as_slice());
    } else if seq_eq(key.as_slice(), k_tpl.as_slice()) {
        acc.key_template = Some(string_of(val.as_slice()));
    }
}

/// Parses a `cache` step's configuration, such as
/// `ttl: 30, keyTemplate: user-{params.id}`.
pub fn parse_cache_config(cfg: &str) -> (r: CacheStepConfig)
    ensures
        r.model() == cache_step_config(cfg@),
{
    let v = chars_of(cfg);
    let replaced = replace_char_exec(v.as_slice(), '\n', ',');
    let parts = split_at_char(replaced.as_slice(), ',');
    let ghost ps = parts@.map_values(|x: Vec<char>| x@);
    let mut acc = CacheStepConfig { enabled: None, ttl: None, key_template: None };
    let mut k: usize = 0;
    while k < parts.len()
        invariant
            ps == parts@.map_values(|x: Vec<char>| x@),
            k <= parts@.len(),
            acc.model() == apply_cache_items(ps.take(k as int)),
        decreases parts@.len() - k,
    {
        apply_cache_item_exec(&parts[k], &mut acc);
        assert(ps.take(k + 1).drop_last() =~= ps.take(k as int));
        k = k + 1;
    }
    assert(ps.take(parts@.len() as int) =~= ps);
    acc
}

/// `Value::as_u64`: a non-negative integer that fits in `u64`.
pub open spec fn as_u64(j: Json) -> Option<u64> {
    match j {
        Json::Int(i) => if 0 <= i <= u64::MAX { Some(i as u64) } else { None },
        _ => None,
    }
}

/// Whether caching is on: the step's `enabled`, else the global one, else on.
pub open spec fn cache_enabled(s: CacheStepSpec, g: Json) -> bool {
    match s.enabled {
        Some(e) => e,
        None => match get(g, "enabled"@) {
            Some(Json::Bool(b)) => b,
            _ => true,
        },
    }
}

/// The time to live: the step's `ttl`, else the global `defaultTtl`, else 60.
pub open spec fn cache_ttl(s: CacheStepSpec, g: Json) -> u64 {
    match s.ttl {
        Some(t) => t,
        None => match get(g, "defaultTtl"@) {
            Some(j) => match as_u64(j) {
                Some(t) => t,
                None => 60,
            },
            None => 60,
        },
    }
}

/// The policy a `cache` step runs with, `None` when caching is disabled.
pub fn cache_policy(step: &CacheStepConfig, global: &JsonValue) -> (r: Option<CachePolicy>)
    ensures
        r is None <==> !cache_enabled(step.model(), jv(*global)),
        r matches Some(p) ==> p.enabled && p.ttl == cache_ttl(step.model(), jv(*global))
            && opt_view(p.key_template) == step.model().key_template,
{
    let enabled = match step.enabled {
        Some(e) => e,
        None => match global.get("enabled") {
            Some(JsonValue::Bool(b)) => *b,
            _ => true,
        },
    };
    if !enabled {
        return None;
    }
    let ttl = match step.ttl {
        Some(t) => t,
        None => match global.get("defaultTtl") {
            Some(JsonValue::Number(crate::json::JsonNumber::Int(i))) => if *i >= 0 {
                *i as u64
            } else {
                60
            },
            Some(JsonValue::Number(crate::json::JsonNumber::UInt(u))) => *u,
            _ => 60,
        },
    };
    Some(CachePolicy { enabled, ttl, key_template: step.key_template.clone() })
}

/// The value a dotted path leads to: each non-empty segment looks a key up
/// in an object; a missing key, or a segment applied to anything but an
/// object, gives `null`.
pub open spec fn walk(j: Json, segs: Seq<Seq<char>>) -> Json
    decreases segs.len(),
{
    if segs.len() == 0 {
        j
    } else {
        let seg = segs[0];
        let next = if seg.len() == 0 {
            j
        } else {
            match get(j, seg) {
                Some(v) => v,
                None => Json::Null,
            }
        };
        walk(next, segs.drop_first())
    }
}

/// The text a path of a value gives in a cache key: nothing for `null`, a
/// string as it is, anything else as JSON text.
pub open spec fn path_string(j: Json, path: Seq<char>) -> Seq<char> {
    let v = walk(j, split_char(path, '.'));
    match v {
        Json::Null => Seq::empty(),
        Json::Str(s) => s,
        _ => json_text(v),
    }
}

/// The text of a key template from position `i`: each `{path}` closed by
/// a `}` is replaced by the text of the trimmed path; everything else is
/// kept.
pub open spec fn render_from(tpl: Seq<char>, i: int, input: Json) -> Seq<char>
    decreases tpl.len() - i,
{
    if i < 0 || i >= tpl.len() {
        Seq::empty()
    } else if tpl[i] == '{' && char_index(tpl.skip(i + 1), '}') is Some && char_index(tpl.skip(i + 1), '}')->0 >= 0 {
        let k = char_index(tpl.skip(i + 1), '}')->0;
        proof { lemma_char_index(tpl.skip(i + 1), '}'); }
        path_string(input, trim(tpl.subrange(i + 1, i + 1 + k))) + render_from(tpl, i + 1 + k + 1, input)
    } else {
        seq![tpl[i]] + render_from(tpl, i + 1, input)
    }
}

/// The text a path of a value gives in a cache key.
pub fn lookup_path_string(input: &JsonValue, path: &[char]) -> (r: String)
    ensures
        r@ == path_string(jv(*input), path@),
{
    let segs = split_at_char(path, '.');
    let ghost ss = segs@.map_values(|x: Vec<char>| x@);
    let null = JsonValue::Null;
    let mut cur: &JsonValue = input;
    let mut k: usize = 0;
    assert(ss.skip(0) =~= ss);
    while k < segs.len()
        invariant
            ss == segs@.map_values(|x: Vec<char>| x@),
            ss == split_char(path@, '.'),
            k <= segs@.len(),
            jv(null) == Json::Null,
            walk(jv(*input), ss) == walk(jv(*cur), ss.skip(k as int)),
        decreases segs@.len() - k,
    {
        assert(ss.skip(k as int).drop_first() =~= ss.skip(k + 1));
        assert(ss.skip(k as int)[0] == segs@[k as int]@);
        if segs[k].len() > 0 {
            let s = string_of(segs[k].as_slice());
            match cur.get(s.as_str()) {
                Some(v) => {
                    cur = v;
                },
                None => {
                    cur = &null;
                },
            }
        }
        k = k + 1;
    }
    assert(ss.skip(segs@.len() as int) =~= Seq::<Seq<char>>::empty());
    match cur {
        JsonValue::Null => string_of(Vec::<char>::new().as_slice()),
        JsonValue::Str(s) => s.clone(),
        _ => {
            let mut out: Vec<char> = Vec::new();
            write_json(cur, &mut out);
            string_of(out.as_slice())
        },
    }
}

/// Renders a cache key template such as `user-{params.id}`.
pub fn render_key_template(template: &str, input: &JsonValue) -> (r: String)
    ensures
        r@ == render_from(template@, 0, jv(*input)),
{
    let cs = chars_of(template);
    let mut out: Vec<char> = Vec::new();
    let mut i: usize = 0;
    while i < cs.len()
        invariant
            cs@ == template@,
            i <= cs@.len(),
            out@ + render_from(cs@, i as int, jv(*input)) == render_from(cs@, 0, jv(*input)),
        decreases cs@.len() - i,
    {
        let ghost before = out@;
        if cs[i] == '{' {
            let j = scan_to_char(cs.as_slice(), '}', i + 1);
            if j < cs.len() {
                let key = slice_chars(cs.as_slice(), i + 1, j);
                let kt = trim_chars(key.as_slice());
                let val = lookup_path_string(input, kt.as_slice());
                let vv = chars_of(val.as_str());
                append(&mut out, vv.as_slice());
                proof {
                    assert(key@ =~= cs@.subrange(i + 1, i + 1 + (j - (i + 1))));
                    assert(out@ + render_from(cs@, j + 1, jv(*input)) =~= before + render_from(cs@, i as int, jv(*input)));
                }
                i = j + 1;
                continue;
            }
        }
        out.push(cs[i]);
        proof {
            assert(out@ + render_from(cs@, i + 1, jv(*input)) =~= before + render_from(cs@, i as int, jv(*input)));
        }
        i = i + 1;
    }
    assert(out@ =~= out@ + render_from(cs@, i as int, jv(*input)));
    string_of(out.as_slice())
}

/// What the shared cache answered for a key.
pub enum CacheLookup {
    /// A live entry.
    Fresh(JsonValue),
    /// An expired entry another request is refreshing.
    Stale(JsonValue),
    /// An expired entry this request was elected to refresh.
    Refresh(JsonValue),
    /// No entry.
    Miss,
}

/// What a cache step does after the lookup.
pub enum CacheAction {
    /// Answer the request with the cached response.
    Hit(JsonValue),
    /// Run the rest of the pipeline and save its result under the key
    /// (`refreshing` when it replaces an expired entry).
    Save { refreshing: bool },
}

/// The action a lookup leads to: a fresh or stale entry is served, an
/// entry to refresh and a miss are saved after the pipeline runs.
pub fn cache_action(lookup: CacheLookup) -> (r: CacheAction)
    ensures
        match lookup {
            CacheLookup::Fresh(v) => r == CacheAction::Hit(v),
            CacheLookup::Stale(v) => r == CacheAction::Hit(v),
            CacheLookup::Refresh(_) => r == CacheAction::Save { refreshing: true },
            CacheLookup::Miss => r == CacheAction::Save { refreshing: false },
        },
{
    match lookup {
        CacheLookup::Fresh(v) | CacheLookup::Stale(v) => CacheAction::Hit(v),
        CacheLookup::Refresh(_) => CacheAction::Save { refreshing: true },
        CacheLookup::Miss => CacheAction::Save { refreshing: false },
    }
}


/// The writes that hashing a text makes on a hasher, as `str` hashes
/// itself: its UTF-8 bytes, then the byte `0xFF`.
pub open spec fn text_writes(s: Seq<char>) -> Seq<Seq<u8>> {
    seq![vstd::utf8::encode_utf8(s), seq![0xffu8]]
}

/// The writes of a list of texts, in order.
pub open spec fn texts_writes(parts: Seq<Seq<char>>) -> Seq<Seq<u8>>
    decreases parts.len(),
{
    if parts.len() == 0 {
        Seq::empty()
    } else {
        texts_writes(parts.drop_last()) + text_writes(parts.last())
    }
}

/// The texts a default cache key is made from, in order: the step's id
/// when it has one, the step's configuration, the request's `method` and
/// `path` when they are strings, and the JSON text of its `query` and
/// `params` when they are present.
pub open spec fn default_key_parts(step_id: Option<Seq<char>>, config: Seq<char>, input: Json) -> Seq<Seq<char>> {
    let a: Seq<Seq<char>> = match step_id {
        Some(s) => seq![s],
        None => Seq::empty(),
    };
    let b = a.push(config);
    let c = match get(input, "method"@) {
        Some(Json::Str(m)) => b.push(m),
        _ => b,
    };
    let d = match get(input, "path"@) {
        Some(Json::Str(p)) => c.push(p),
        _ => c,
    };
    let e = match get(input, "query"@) {
        Some(q) => d.push(json_text(q)),
        None => d,
    };
    match get(input, "params"@) {
        Some(p) => e.push(json_text(p)),
        None => e,
    }
}

/// Lowercase hexadecimal text of a number, without leading zeros.
pub open spec fn hex_text(n: nat) -> Seq<char>
    decreases n,
{
    if n < 16 {
        seq![hex_digit(n as int)]
    } else {
        hex_text(n / 16) + seq![hex_digit((n % 16) as int)]
    }
}

/// The key of a cache step without a key template: `pipeline:` and, in
/// lowercase hexadecimal, the standard hasher's hash of the key's texts.
/// The step's id keeps steps with the same configuration apart.
pub open spec fn default_key(step_id: Option<Seq<char>>, config: Seq<char>, input: Json) -> Seq<char> {
    "pipeline:"@ + hex_text(
        std::collections::hash_map::DefaultHasher::spec_finish(texts_writes(default_key_parts(step_id, config, input))) as nat)
}

/// Appends the hexadecimal text of `n`.
fn hex_into(out: &mut Vec<char>, n: u64)
    ensures
        final(out)@ == old(out)@ + hex_text(n as nat),
    decreases n,
{
    if n >= 16 {
        hex_into(out, n / 16);
    }
    let ghost mid = out@;
    out.push(hex_digit_exec((n % 16) as u32));
    proof {
        if n >= 16 {
            assert(out@ =~= old(out)@ + hex_text(n as nat));
        } else {
            assert(out@ =~= old(out)@ + hex_text(n as nat));
        }
    }
}

/// Hashes one text into the hasher.
fn hash_text(hasher: &mut std::collections::hash_map::DefaultHasher, s: &str)
    ensures
        final(hasher)@ == old(hasher)@ + text_writes(s@),
{
    hasher.write(s.as_bytes());
    let ghost mid = hasher@;
    assert(mid == old(hasher)@.push(vstd::utf8::encode_utf8(s@)));
    let end: Vec<u8> = vec![0xffu8];
    assert(end@ =~= seq![0xffu8]);
    hasher.write(end.as_slice());
    assert(hasher@ =~= old(hasher)@ + text_writes(s@));
}

/// The compact JSON text of a value.
fn json_string(v: &JsonValue) -> (r: String)
    ensures
        r@ == json_text(jv(*v)),
{
    let mut out: Vec<char> = Vec::new();
    write_json(v, &mut out);
    string_of(out.as_slice())
}

/// The key a cache step without a key template uses.
pub fn default_cache_key(step_id: &Option<String>, config: &str, input: &JsonValue) -> (r: String)
    ensures
        r@ == default_key(opt_view(*step_id), config@, jv(*input)),
{
    proof {
        reveal_strlit("method");
        reveal_strlit("path");
        reveal_strlit("query");
        reveal_strlit("params");
        reveal_strlit("pipeline:");
    }
    let ghost i = jv(*input);
    let ghost a: Seq<Seq<char>> = match opt_view(*step_id) {
        Some(s) => seq![s],
        None => Seq::empty(),
    };
    let mut hasher = std::collections::hash_map::DefaultHasher::new();
    let ghost mut parts: Seq<Seq<char>> = Seq::empty();
    if let Some(id) = step_id {
        hash_text(&mut hasher, id.as_str());
        proof {
            parts = parts.push(id@);
            assert(parts.drop_last() =~= Seq::<Seq<char>>::empty());
            assert(Seq::<Seq<u8>>::empty() + text_writes(id@) =~= text_writes(id@));
            assert(texts_writes(Seq::<Seq<char>>::empty()) == Seq::<Seq<u8>>::empty());
            assert(parts.last() == id@);
            assert(texts_writes(parts) == texts_writes(parts.drop_last()) + text_writes(id@));
        }
    }
    assert(parts == a);
    assert(hasher@ == texts_writes(parts));
    hash_text(&mut hasher, config);
    proof {
        parts = parts.push(config@);
        assert(parts.drop_last() == a);
    }
    assert(hasher@ == texts_writes(parts));
    match input.get("method") {
        Some(JsonValue::Str(m)) => {
            hash_text(&mut hasher, m.as_str());
            proof {
                let before = parts;
                parts = parts.push(m@);
                assert(parts.drop_last() == before);
            }
        },
        _ => {},
    }
    assert(hasher@ == texts_writes(parts));
    match input.get("path") {
        Some(JsonValue::Str(p)) => {
            hash_text(&mut hasher, p.as_str());
            proof {
                let before = parts;
                parts = parts.push(p@);
                assert(parts.drop_last() == before);
            }
        },
        _ => {},
    }
    assert(hasher@ == texts_writes(parts));
    match input.get("query") {
        Some(q) => {
            let t = json_string(q);
            hash_text(&mut hasher, t.as_str());
            proof {
                let before = parts;
                parts = parts.push(t@);
                assert(parts.drop_last() == before);
            }
        },
        None => {},
    }
    assert(hasher@ == texts_writes(parts));
    match input.get("params") {
        Some(q) => {
            let t = json_string(q);
            hash_text(&mut hasher, t.as_str());
            proof {
                let before = parts;
                parts = parts.push(t@);
                assert(parts.drop_last() == before);
            }
        },
        None => {},
    }
    assert(hasher@ == texts_writes(parts));
    assert(parts == default_key_parts(opt_view(*step_id), config@, i));
    let h = hasher.finish();
    let mut out: Vec<char> = chars_of("pipeline:");
    hex_into(&mut out, h);
    string_of(out.as_slice())
}

/// The key a cache step stores under: its key template rendered against
/// the input (shared by every step that writes the same key), else the
/// step's default key.
pub fn cache_key(step: &CacheStepConfig, step_id: &Option<String>, config: &str, input: &JsonValue) -> (r: String)
    ensures
        match step.key_template {
            Some(t) => r@ == render_from(t@, 0, jv(*input)),
            None => r@ == default_key(opt_view(*step_id), config@, jv(*input)),
        },
{
    match &step.key_template {
        Some(t) => render_key_template(t.as_str(), input),
        None => default_cache_key(step_id, config, input),
    }
}


/// A cache step's work before the lookup: the policy it stores in the
/// pipeline's context and the key it looks up; `None` when caching is
/// disabled, and the step then changes nothing.
pub fn cache_step_plan(step: &CacheStepConfig, global: &JsonValue, step_id: &Option<String>, config: &str,
    input: &JsonValue) -> (r: Option<(CachePolicy, String)>)
    ensures
        r is None <==> !cache_enabled(step.model(), jv(*global)),
        r matches Some((p, key)) ==> p.enabled && p.ttl == cache_ttl(step.model(), jv(*global))
            && opt_view(p.key_template) == step.model().key_template
            && match step.key_template {
                Some(t) => key@ == render_from(t@, 0, jv(*input)),
                None => key@ == default_key(opt_view(*step_id), config@, jv(*input)),
            },
{
    match cache_policy(step, global) {
        None => None,
        Some(p) => {
            let key = cache_key(step, step_id, config, input);
            Some((p, key))
        },
    }
}

/// A save of the pipeline's final state under `key`, made when the
/// pipeline completes.
pub struct PendingSave {
    pub key: String,
    pub ttl: u64,
    /// Whether it replaces an expired entry.
    pub refreshing: bool,
}

/// What a cache step leaves in the pipeline's context after the lookup:
/// the cached response the run stops with, or the save it registers.
pub struct CacheStepEffect {
    pub hit: Option<JsonValue>,
    pub save: Option<PendingSave>,
}

/// A cache step after the lookup: a fresh or stale entry becomes the hit
/// the run stops with; an entry this request refreshes, and a miss, register
/// a save of the final state under the key, with the policy's time to live.
pub fn cache_step_effect(policy: &CachePolicy, key: String, lookup: CacheLookup) -> (r: CacheStepEffect)
    ensures
        match lookup {
            CacheLookup::Fresh(v) => r.hit == Some(v) && r.save is None,
            CacheLookup::Stale(v) => r.hit == Some(v) && r.save is None,
            CacheLookup::Refresh(_) => r.hit is None && (r.save matches Some(sv)
                && sv.key == key && sv.ttl == policy.ttl && sv.refreshing),
            CacheLookup::Miss => r.hit is None && (r.save matches Some(sv)
                && sv.key == key && sv.ttl == policy.ttl && !sv.refreshing),
        },
{
    match cache_action(lookup) {
        CacheAction::Hit(v) => CacheStepEffect { hit: Some(v), save: None },
        CacheAction::Save { refreshing } => CacheStepEffect {
            hit: None,
            save: Some(PendingSave { key, ttl: policy.ttl, refreshing }),
        },
    }
}


/// Law: a step that sets `enabled` decides for itself: caching is on
/// exactly when its own setting is true, whatever the global config says;
/// only a step that leaves it unset follows the global `enabled` (a
/// boolean there), and caching is on when neither says.
pub proof fn law_step_enabled_wins(s: CacheStepSpec, g: Json)
    ensures
        s.enabled matches Some(e) ==> cache_enabled(s, g) == e,
        s.enabled is None && get(g, "enabled"@) == Some(Json::Bool(false)) ==> !cache_enabled(s, g),
        s.enabled is None && !(get(g, "enabled"@) matches Some(Json::Bool(_))) ==> cache_enabled(s, g),
{
}

/// Law: the time to live is the step's own `ttl` when it sets one,
/// whatever the global config says.
pub proof fn law_step_ttl_wins(s: CacheStepSpec, g: Json)
    ensures
        s.ttl matches Some(t) ==> cache_ttl(s, g) == t,
        s.ttl is None && get(g, "defaultTtl"@) is None ==> cache_ttl(s, g) == 60,
{
}

} // verus!
