//! Small decisions of the built-in middleware: how the `jq` filter and its
//! input are framed, what counts as true for a guard, the `debug` label,
//! and the modes of `stdin`.

use vstd::prelude::*;
use crate::json::{JsonValue, Json, jv, jv_seq, lemma_jv_seq, jv_entries, lemma_jv_entries};
use crate::error::WebPipeError;
use crate::printer::strip_cr;
use crate::text::{trim, char_index, chars_of, string_of, trim_chars, append_str, str_eq, scan_to_char, slice_chars,
    lemma_char_index};

verus! {

broadcast use vstd::std_specs::vec::group_vec_axioms;

/// The `js` middleware; its connections and stores live with the server.
#[derive(Debug)]
pub struct JsMiddleware;

impl JsMiddleware {
    /// The middleware.
    pub fn new() -> (r: Self) {
        JsMiddleware
    }
}

/// The `lua` middleware; its interpreter lives with the server.
#[derive(Debug)]
pub struct LuaMiddleware;

impl LuaMiddleware {
    /// The middleware.
    pub fn new() -> (r: Self) {
        LuaMiddleware
    }
}

/// The `jq` middleware.
#[derive(Debug)]
pub struct JqMiddleware;

impl JqMiddleware {
    /// The middleware.
    pub fn new() -> (r: Self) {
        JqMiddleware
    }
}

/// The `debug` middleware.
#[derive(Debug)]
pub struct DebugMiddleware;

/// The `stdin` middleware.
#[derive(Debug)]
pub struct StdinMiddleware;

/// The `gramgraph` middleware.
#[derive(Debug)]
pub struct GramGraphMiddleware;

impl GramGraphMiddleware {
    /// The middleware.
    pub fn new() -> (r: Self) {
        GramGraphMiddleware
    }
}

/// The `algraf` middleware.
#[derive(Debug)]
pub struct AlgrafMiddleware;

impl AlgrafMiddleware {
    /// The middleware.
    pub fn new() -> (r: Self) {
        AlgrafMiddleware
    }
}

/// A jq result counts as true unless it is `false` or `null`.
pub open spec fn truthy(j: Json) -> bool {
    match j {
        Json::Bool(b) => b,
        Json::Null => false,
        _ => true,
    }
}

/// Whether a jq result counts as true (the rule of `@guard`).
pub fn jq_truthy(v: &JsonValue) -> (b: bool)
    ensures
        b == truthy(jv(*v)),
{
    match v {
        JsonValue::Bool(b) => *b,
        JsonValue::Null => false,
        _ => true,
    }
}

/// The filter a `jq` step runs: its configuration applied to the state,
/// with the request context bound to `$context`.
pub fn jq_filter(config: &str) -> (r: String)
    ensures
        r@ == ".context as $context | .state | "@ + config@,
{
    let mut v: Vec<char> = chars_of(".context as $context | .state | ");
    append_str(&mut v, config);
    string_of(v.as_slice())
}

/// The expression a `gramgraph` argument is evaluated with: the argument,
/// bracketed, applied to the state with `$context` bound.
pub fn gramgraph_options_expr(arg: &str) -> (r: String)
    ensures
        r@ == ".context as $context | .state | ("@ + arg@ + ")"@,
{
    let mut v: Vec<char> = chars_of(".context as $context | .state | (");
    append_str(&mut v, arg);
    append_str(&mut v, ")");
    string_of(v.as_slice())
}

/// The input a `jq` step's filter reads: `{"context": ..., "state": ...}`.
pub fn jq_input(state: JsonValue, context: JsonValue) -> (r: JsonValue)
    ensures
        jv(r) == Json::Object(seq![("context"@, jv(context)), ("state"@, jv(state))]),
{
    let mut e: Vec<(String, JsonValue)> = Vec::new();
    e.push((string_of(chars_of("context").as_slice()), context));
    e.push((string_of(chars_of("state").as_slice()), state));
    proof {
        lemma_jv_entries(e@);
        assert(jv_entries(e@) =~= seq![("context"@, jv(context)), ("state"@, jv(state))]);
    }
    JsonValue::Object(e)
}

/// The label a `debug` step prints: its trimmed configuration, or `debug`.
pub open spec fn debug_label_text(config: Seq<char>) -> Seq<char> {
    if trim(config).len() == 0 {
        "debug"@
    } else {
        trim(config)
    }
}

impl DebugMiddleware {
    /// The label printed before the state.
    pub fn label(config: &str) -> (r: String)
        ensures
            r@ == debug_label_text(config@),
    {
        let t = trim_chars(chars_of(config).as_slice());
        if t.len() == 0 {
            string_of(chars_of("debug").as_slice())
        } else {
            string_of(t.as_slice())
        }
    }
}

/// How `stdin` reads the input of a script.
#[derive(Debug, Clone, Copy, PartialEq, Eq, Structural)]
pub enum StdinMode {
    /// The whole input as one string.
    Text,
    /// The input parsed as JSON.
    Json,
    /// The input's lines as an array of strings.
    Lines,
}

/// The message of an unknown `stdin` mode.
pub open spec fn unknown_mode_message(mode: Seq<char>) -> Seq<char> {
    "unknown stdin mode '"@ + mode + "', expected text, json, or lines"@
}

impl StdinMiddleware {
    /// The mode a `stdin` step reads in: its trimmed configuration, `text`
    /// when empty. Only scripts have an input to read.
    pub fn mode(config: &str, in_script: bool) -> (r: Result<StdinMode, WebPipeError>)
        ensures
            !in_script ==> (r matches Err(WebPipeError::MiddlewareExecutionError(m))
                && m@ == "stdin is only available in script mode"@),
            in_script ==> match r {
                Ok(StdinMode::Text) => trim(config@).len() == 0 || trim(config@) == "text"@,
                Ok(StdinMode::Json) => trim(config@) == "json"@,
                Ok(StdinMode::Lines) => trim(config@) == "lines"@,
                Err(e) => trim(config@).len() > 0 && trim(config@) != "text"@ && trim(config@) != "json"@
                    && trim(config@) != "lines"@ && (e matches WebPipeError::MiddlewareExecutionError(m)
                    && m@ == unknown_mode_message(trim(config@))),
            },
    {
        proof {
            reveal_strlit("text");
            reveal_strlit("json");
            reveal_strlit("lines");
        }
        if !in_script {
            return Err(WebPipeError::MiddlewareExecutionError(
                string_of(chars_of("stdin is only available in script mode").as_slice()),
            ));
        }
        let t = trim_chars(chars_of(config).as_slice());
        let ts = string_of(t.as_slice());
        if t.len() == 0 || str_eq(ts.as_str(), "text") {
            Ok(StdinMode::Text)
        } else if str_eq(ts.as_str(), "json") {
            Ok(StdinMode::Json)
        } else if str_eq(ts.as_str(), "lines") {
            Ok(StdinMode::Lines)
        } else {
            let mut m: Vec<char> = chars_of("unknown stdin mode '");
            append_str(&mut m, ts.as_str());
            append_str(&mut m, "', expected text, json, or lines");
            Err(WebPipeError::MiddlewareExecutionError(string_of(m.as_slice())))
        }
    }
}

/// The lines of a text as `str::lines` splits it: at each line feed, with
/// a carriage return before it dropped; a last line without a line feed
/// counts when it is not empty.
pub open spec fn lines_of(s: Seq<char>) -> Seq<Seq<char>>
    decreases s.len(),
{
    match char_index(s, '\n') {
        Some(k) => if 0 <= k < s.len() {
            seq![strip_cr(s.take(k))] + lines_of(s.skip(k + 1))
        } else {
            Seq::empty()
        },
        None => if s.len() == 0 {
            Seq::empty()
        } else {
            seq![s]
        },
    }
}

/// The input of a `lines` read: an array of its lines.
pub fn stdin_lines(text: &str) -> (r: JsonValue)
    ensures
        jv(r) == Json::Array(lines_of(text@).map_values(|l: Seq<char>| Json::Str(l))),
{
    let t = chars_of(text);
    let mut out: Vec<JsonValue> = Vec::new();
    let ghost base = lines_of(t@);
    let mut start: usize = 0;
    assert(t@.skip(0) =~= t@);
    while start < t.len()
        invariant
            start <= t@.len(),
            t@ == text@,
            jv_seq(out@) + lines_of(t@.skip(start as int)).map_values(|l: Seq<char>| Json::Str(l))
                == lines_of(t@).map_values(|l: Seq<char>| Json::Str(l)),
        decreases t@.len() - start,
    {
        let ghost rest = t@.skip(start as int);
        let ghost before = jv_seq(out@);
        let nl = scan_to_char(t.as_slice(), '\n', start);
        proof { lemma_jv_seq(out@); }
        if nl < t.len() {
            let mut e = nl;
            if e > start && t[e - 1] == '\r' {
                e = e - 1;
            }
            let line = slice_chars(t.as_slice(), start, e);
            out.push(JsonValue::Str(string_of(line.as_slice())));
            proof {
                lemma_jv_seq(out@);
                assert(jv_seq(out@) =~= before.push(Json::Str(line@)));
                assert(rest.take(nl - start) =~= t@.subrange(start as int, nl as int));
                assert(strip_cr(rest.take(nl - start)) =~= line@);
                assert(rest.skip(nl - start + 1) =~= t@.skip(nl + 1));
                let ls = lines_of(rest);
                assert(ls == seq![line@] + lines_of(t@.skip(nl + 1)));
                assert(ls.map_values(|l: Seq<char>| Json::Str(l)) =~= seq![Json::Str(line@)] + lines_of(t@.skip(nl + 1)).map_values(|l: Seq<char>| Json::Str(l)));
                assert(jv_seq(out@) + lines_of(t@.skip(nl + 1)).map_values(|l: Seq<char>| Json::Str(l)) =~= before + ls.map_values(|l: Seq<char>| Json::Str(l)));
            }
            start = nl + 1;
        } else {
            let line = slice_chars(t.as_slice(), start, t.len());
            out.push(JsonValue::Str(string_of(line.as_slice())));
            proof {
                lemma_jv_seq(out@);
                assert(jv_seq(out@) =~= before.push(Json::Str(line@)));
                assert(rest =~= line@);
                assert(t@.skip(t@.len() as int) =~= Seq::<char>::empty());
                let ls = lines_of(rest);
                assert(ls == seq![line@]);
                assert(lines_of(t@.skip(t@.len() as int)) =~= Seq::<Seq<char>>::empty());
                assert(jv_seq(out@) + lines_of(t@.skip(t@.len() as int)).map_values(|l: Seq<char>| Json::Str(l)) =~= before + ls.map_values(|l: Seq<char>| Json::Str(l)));
            }
            start = t.len();
        }
    }
    proof {
        assert(t@.skip(start as int) =~= Seq::<char>::empty());
        assert(lines_of(t@.skip(start as int)) =~= Seq::<Seq<char>>::empty());
        assert(jv_seq(out@) =~= jv_seq(out@) + lines_of(t@.skip(start as int)).map_values(|l: Seq<char>| Json::Str(l)));
    }
    JsonValue::Array(out)
}


/// How a chart variable's value is written into the chart text: a string
/// as itself, `null` as nothing, anything else as its JSON text.
pub open spec fn variable_text(j: Json) -> Seq<char> {
    match j {
        Json::Str(s) => s,
        Json::Null => Seq::empty(),
        _ => crate::json::json_text(j),
    }
}

/// The chart variables as text, in order.
pub fn variables_to_strings(variables: &Vec<(String, JsonValue)>) -> (r: Vec<(String, String)>)
    ensures
        r@.len() == variables@.len(),
        forall|i: int| 0 <= i < variables@.len() ==> (#[trigger] r@[i]).0@ == variables@[i].0@
            && r@[i].1@ == variable_text(jv(variables@[i].1)),
{
    let mut out: Vec<(String, String)> = Vec::new();
    let mut i: usize = 0;
    while i < variables.len()
        invariant
            i <= variables@.len(),
            out@.len() == i,
            forall|k: int| 0 <= k < i ==> (#[trigger] out@[k]).0@ == variables@[k].0@
                && out@[k].1@ == variable_text(jv(variables@[k].1)),
        decreases variables@.len() - i,
    {
        let v = &variables[i].1;
        let t = match v {
            JsonValue::Str(s) => s.clone(),
            JsonValue::Null => {
                let e = string_of(chars_of("").as_slice());
                proof { reveal_strlit(""); }
                assert(e@ =~= Seq::<char>::empty());
                e
            },
            _ => {
                let mut w: Vec<char> = Vec::new();
                crate::json::write_json(v, &mut w);
                string_of(w.as_slice())
            },
        };
        out.push((variables[i].0.clone(), t));
        i = i + 1;
    }
    out
}

/// The output format of a chart.
#[derive(Debug, Clone, Copy, PartialEq, Eq)]
pub enum ChartFormat {
    Svg,
    Png,
}

/// The content type a chart is served with.
pub fn chart_content_type(format: ChartFormat) -> (r: &'static str)
    ensures
        r@ == match format {
            ChartFormat::Svg => "image/svg+xml"@,
            ChartFormat::Png => "image/png"@,
        },
{
    match format {
        ChartFormat::Svg => "image/svg+xml",
        ChartFormat::Png => "image/png",
    }
}

} // verus!
