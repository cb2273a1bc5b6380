//! Per-request bookkeeping: the profiler's call stack and samples, and the
//! metadata middleware leave for one another.

use vstd::prelude::*;
use crate::json::{JsonValue, Json, jv, jv_entries, lemma_jv_entries, json_uint, json_str};
use crate::text::{join, join_into, chars_of, string_of};

verus! {

/// Folded-stack profiler: the current call stack and the recorded samples
/// (the stack joined by `;`, and a duration in microseconds).
#[derive(Clone, Debug, Default)]
pub struct Profiler {
    pub stack: Vec<String>,
    pub samples: Vec<(String, u128)>,
}

/// The views of a sequence of strings.
pub open spec fn views(s: Seq<String>) -> Seq<Seq<char>> {
    s.map_values(|x: String| x@)
}

impl Profiler {
    /// Enters a frame.
    pub fn push(&mut self, name: &str)
        ensures
            views(final(self).stack@) == views(old(self).stack@).push(name@),
            final(self).samples@ == old(self).samples@,
    {
        self.stack.push(string_of(chars_of(name).as_slice()));
        assert(views(self.stack@) =~= views(old(self).stack@).push(name@));
    }

    /// Leaves the innermost frame (nothing happens on an empty stack).
    pub fn pop(&mut self)
        ensures
            views(final(self).stack@) == if old(self).stack@.len() == 0 {
                Seq::<Seq<char>>::empty()
            } else {
                views(old(self).stack@).drop_last()
            },
            final(self).samples@ == old(self).samples@,
    {
        if self.stack.len() > 0 {
            self.stack.pop();
            assert(views(self.stack@) =~= views(old(self).stack@).drop_last());
        } else {
            assert(views(self.stack@) =~= Seq::<Seq<char>>::empty());
        }
    }

    /// Records a sample of the current stack; nothing is recorded when the
    /// stack is empty.
    pub fn record_sample(&mut self, duration_micros: u128)
        ensures
            final(self).stack@ == old(self).stack@,
            old(self).stack@.len() == 0 ==> final(self).samples@ == old(self).samples@,
            old(self).stack@.len() > 0 ==> final(self).samples@.len() == old(self).samples@.len() + 1
                && final(self).samples@.drop_last() == old(self).samples@
                && final(self).samples@.last().0@ == join(views(old(self).stack@), ";"@)
                && final(self).samples@.last().1 == duration_micros,
    {
        if self.stack.len() == 0 {
            return;
        }
        let mut parts: Vec<Vec<char>> = Vec::new();
        let mut i: usize = 0;
        while i < self.stack.len()
            invariant
                i <= self.stack@.len(),
                parts@.len() == i,
                forall|j: int| 0 <= j < i ==> #[trigger] parts@[j]@ == self.stack@[j]@,
            decreases self.stack@.len() - i,
        {
            parts.push(chars_of(self.stack[i].as_str()));
            i = i + 1;
        }
        assert(parts@.map_values(|x: Vec<char>| x@) =~= views(self.stack@));
        let mut out: Vec<char> = Vec::new();
        join_into(&mut out, &parts, ";");
        self.samples.push((string_of(out.as_slice()), duration_micros));
        assert(self.samples@.drop_last() =~= old(self).samples@);
    }
}

/// Stepping modes of the debugger.
#[derive(Debug, Clone, Copy, PartialEq, Eq)]
pub enum StepMode {
    /// Stop at the next step of the same pipeline.
    StepOver,
    /// Stop at the next step, entering nested pipelines.
    StepIn,
    /// Stop on return to the parent pipeline.
    StepOut,
}

/// What the cache middleware decided for a request.
#[derive(Clone, Debug)]
pub struct CachePolicy {
    pub enabled: bool,
    pub ttl: u64,
    pub key_template: Option<String>,
}

/// What the log middleware was configured with.
#[derive(Clone, Debug)]
pub struct LogConfig {
    pub level: String,
    pub include_body: bool,
    pub include_headers: bool,
}

/// The rate limiter's verdict on a request.
#[derive(Clone, Debug)]
pub struct RateLimitStatus {
    pub allowed: bool,
    pub current_count: u64,
    pub limit: u64,
    pub retry_after_secs: u64,
    /// The key the request was counted under.
    pub key: String,
    /// The scope of the limit (`route`, `global`, ...), when named.
    pub scope: Option<String>,
}

/// Metadata that middleware leave for one another during a request.
#[derive(Default)]
pub struct RequestMetadata {
    pub cache_policy: Option<CachePolicy>,
    pub log_config: Option<LogConfig>,
    pub rate_limit_status: Option<RateLimitStatus>,
}

/// An optional string as JSON (`null` when absent).
pub open spec fn opt_str(s: Option<String>) -> Json {
    match s {
        Some(x) => Json::Str(x@),
        None => Json::Null,
    }
}

/// The JSON form of a cache policy.
pub open spec fn cache_json(c: CachePolicy) -> Json {
    Json::Object(seq![
        ("enabled"@, Json::Bool(c.enabled)),
        ("key_template"@, opt_str(c.key_template)),
        ("ttl"@, Json::Int(c.ttl as int)),
    ])
}

/// The JSON form of a log configuration.
pub open spec fn log_json(l: LogConfig) -> Json {
    Json::Object(seq![
        ("include_body"@, Json::Bool(l.include_body)),
        ("include_headers"@, Json::Bool(l.include_headers)),
        ("level"@, Json::Str(l.level@)),
    ])
}

/// The JSON form of a rate-limit status; `remaining` is the limit less the
/// count, never below zero.
pub open spec fn rate_json(r: RateLimitStatus) -> Json {
    Json::Object(seq![
        ("allowed"@, Json::Bool(r.allowed)),
        ("key"@, Json::Str(r.key@)),
        ("limit"@, Json::Int(r.limit as int)),
        ("remaining"@, Json::Int(if r.limit >= r.current_count { r.limit - r.current_count } else { 0 })),
        ("retry_after"@, Json::Int(r.retry_after_secs as int)),
        ("scope"@, opt_str(r.scope)),
    ])
}

/// The JSON form of the request metadata.
pub open spec fn metadata_json(m: RequestMetadata) -> Json {
    Json::Object(seq![
        ("cache"@, match m.cache_policy { Some(c) => cache_json(c), None => Json::Null }),
        ("log"@, match m.log_config { Some(l) => log_json(l), None => Json::Null }),
        ("rate_limit"@, match m.rate_limit_status { Some(r) => rate_json(r), None => Json::Null }),
    ])
}

/// A key and value.
fn kv(k: &str, v: JsonValue) -> (r: (String, JsonValue))
    ensures
        r.0@ == k@,
        r.1 == v,
{
    (string_of(chars_of(k).as_slice()), v)
}

/// An optional string as JSON.
fn opt_string(s: &Option<String>) -> (r: JsonValue)
    ensures
        jv(r) == opt_str(*s),
{
    match s {
        Some(x) => JsonValue::Str(string_of(chars_of(x.as_str()).as_slice())),
        None => JsonValue::Null,
    }
}

impl RequestMetadata {
    /// The metadata as JSON, for the `$context` of later steps.
    pub fn to_value(&self) -> (r: JsonValue)
        ensures
            jv(r) == metadata_json(*self),
    {
        let cache = match &self.cache_policy {
            Some(c) => {
                let mut e: Vec<(String, JsonValue)> = Vec::new();
                e.push(kv("enabled", JsonValue::Bool(c.enabled)));
                e.push(kv("key_template", opt_string(&c.key_template)));
                e.push(kv("ttl", json_uint(c.ttl)));
                proof { lemma_jv_entries(e@); }
                assert(jv_entries(e@) =~= seq![
                    ("enabled"@, Json::Bool(c.enabled)),
                    ("key_template"@, opt_str(c.key_template)),
                    ("ttl"@, Json::Int(c.ttl as int)),
                ]);
                JsonValue::Object(e)
            },
            None => JsonValue::Null,
        };
        let log = match &self.log_config {
            Some(l) => {
                let mut e: Vec<(String, JsonValue)> = Vec::new();
                e.push(kv("include_body", JsonValue::Bool(l.include_body)));
                e.push(kv("include_headers", JsonValue::Bool(l.include_headers)));
                e.push(kv("level", json_str(string_of(chars_of(l.level.as_str()).as_slice()))));
                proof { lemma_jv_entries(e@); }
                assert(jv_entries(e@) =~= seq![
                    ("include_body"@, Json::Bool(l.include_body)),
                    ("include_headers"@, Json::Bool(l.include_headers)),
                    ("level"@, Json::Str(l.level@)),
                ]);
                JsonValue::Object(e)
            },
            None => JsonValue::Null,
        };
        let rate = match &self.rate_limit_status {
            Some(r) => {
                let remaining: u64 = if r.limit >= r.current_count { r.limit - r.current_count } else { 0 };
                let mut e: Vec<(String, JsonValue)> = Vec::new();
                e.push(kv("allowed", JsonValue::Bool(r.allowed)));
                e.push(kv("key", json_str(string_of(chars_of(r.key.as_str()).as_slice()))));
                e.push(kv("limit", json_uint(r.limit)));
                e.push(kv("remaining", json_uint(remaining)));
                e.push(kv("retry_after", json_uint(r.retry_after_secs)));
                e.push(kv("scope", opt_string(&r.scope)));
                proof { lemma_jv_entries(e@); }
                assert(jv_entries(e@) =~= seq![
                    ("allowed"@, Json::Bool(r.allowed)),
                    ("key"@, Json::Str(r.key@)),
                    ("limit"@, Json::Int(r.limit as int)),
                    ("remaining"@, Json::Int(remaining as int)),
                    ("retry_after"@, Json::Int(r.retry_after_secs as int)),
                    ("scope"@, opt_str(r.scope)),
                ]);
                JsonValue::Object(e)
            },
            None => JsonValue::Null,
        };
        let ghost jc = jv(cache);
        let ghost jl = jv(log);
        let ghost jr = jv(rate);
        assert(jc == match self.cache_policy { Some(c) => cache_json(c), None => Json::Null });
        assert(jl == match self.log_config { Some(l) => log_json(l), None => Json::Null });
        assert(jr == match self.rate_limit_status { Some(r) => rate_json(r), None => Json::Null });
        let mut top: Vec<(String, JsonValue)> = Vec::new();
        top.push(kv("cache", cache));
        top.push(kv("log", log));
        top.push(kv("rate_limit", rate));
        proof { lemma_jv_entries(top@); }
        assert(jv_entries(top@) =~= seq![("cache"@, jc), ("log"@, jl), ("rate_limit"@, jr)]);
        let r = JsonValue::Object(top);
        assert(jv(r) == Json::Object(jv_entries(top@)));
        assert(seq![("cache"@, jc), ("log"@, jl), ("rate_limit"@, jr)] =~= seq![
            ("cache"@, match self.cache_policy { Some(c) => cache_json(c), None => Json::Null }),
            ("log"@, match self.log_config { Some(l) => log_json(l), None => Json::Null }),
            ("rate_limit"@, match self.rate_limit_status { Some(r) => rate_json(r), None => Json::Null }),
        ]);
        r
    }
}


/// Law: leaving a frame right after entering it gives back the stack as
/// it was.
pub proof fn law_push_then_pop(stack: Seq<String>, name: Seq<char>)
    ensures
        ({
            let pushed = views(stack).push(name);
            if pushed.len() == 0 { Seq::<Seq<char>>::empty() } else { pushed.drop_last() }
        }) == views(stack),
{
    assert(views(stack).push(name).drop_last() =~= views(stack));
}

} // verus!
