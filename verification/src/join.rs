//! The `join` step: the names of the `@async` tasks it waits for.

use vstd::prelude::*;
use crate::error::WebPipeError;
use crate::json::{JsonValue, Json, jv, get, jv_seq, lemma_jv_seq, jv_entries, lemma_jv_entries};
use crate::text::{trim, split_char, trim_chars, split_at_char, chars_of, string_of, join, join_into, append_str};

verus! {

/// The `join` middleware.
#[derive(Debug)]
pub struct JoinMiddleware;

/// The strings of a JSON array of strings, as `serde_json` reads it from
/// `text` (`None` when the text is not such an array).
pub uninterp spec fn string_array(text: Seq<char>) -> Option<Seq<Seq<char>>>;

/// Reads a JSON array of strings with `serde_json::from_str::<Vec<String>>`.
#[verifier::external_body]
fn parse_string_array(text: &str) -> (r: Option<Vec<String>>)
    ensures
        match r {
            Some(v) => string_array(text@) == Some(v@.map_values(|s: String| s@)),
            None => string_array(text@) is None,
        },
{
    serde_json::from_str::<Vec<String>>(text).ok()
}

/// The trimmed pieces that are not empty.
pub open spec fn nonempty_trimmed(parts: Seq<Seq<char>>) -> Seq<Seq<char>>
    decreases parts.len(),
{
    if parts.len() == 0 {
        Seq::empty()
    } else {
        nonempty_trimmed(parts.drop_last()) + if trim(parts.last()).len() > 0 {
            seq![trim(parts.last())]
        } else {
            Seq::empty()
        }
    }
}

/// The task names of a `join` configuration: a JSON array of strings when
/// it starts with `[`, else a comma-separated list (each name trimmed,
/// empty ones dropped), which must name at least one task.
pub open spec fn join_names(config: Seq<char>) -> Result<Seq<Seq<char>>, Seq<char>> {
    let t = trim(config);
    if t.len() > 0 && t[0] == '[' {
        match string_array(t) {
            Some(v) => Ok(v),
            None => Err("Invalid JSON array for join config"@),
        }
    } else if nonempty_trimmed(split_char(t, ',')).len() == 0 {
        Err("join config must specify at least one task name"@)
    } else {
        Ok(nonempty_trimmed(split_char(t, ',')))
    }
}

/// Reads the task names of a `join` configuration.
pub fn parse_join_task_names(config: &str) -> (r: Result<Vec<String>, WebPipeError>)
    ensures
        match r {
            Ok(v) => join_names(config@) == Ok::<Seq<Seq<char>>, Seq<char>>(v@.map_values(|s: String| s@)),
            Err(e) => e matches WebPipeError::ConfigError(m) && join_names(config@) == Err::<Seq<Seq<char>>, Seq<char>>(m@),
        },
{
    let t = trim_chars(chars_of(config).as_slice());
    if t.len() > 0 && t[0] == '[' {
        let ts = string_of(t.as_slice());
        return match parse_string_array(ts.as_str()) {
            Some(v) => Ok(v),
            None => Err(WebPipeError::ConfigError(string_of(chars_of("Invalid JSON array for join config").as_slice()))),
        };
    }
    let parts = split_at_char(t.as_slice(), ',');
    let ghost ps = parts@.map_values(|x: Vec<char>| x@);
    let mut names: Vec<String> = Vec::new();
    let mut k: usize = 0;
    while k < parts.len()
        invariant
            ps == parts@.map_values(|x: Vec<char>| x@),
            ps == split_char(t@, ','),
            k <= parts@.len(),
            names@.map_values(|s: String| s@) == nonempty_trimmed(ps.take(k as int)),
        decreases parts@.len() - k,
    {
        let piece = trim_chars(parts[k].as_slice());
        let ghost before = names@.map_values(|s: String| s@);
        proof {
            assert(ps.take(k + 1).drop_last() =~= ps.take(k as int));
            assert(ps.take(k + 1).last() == parts@[k as int]@);
        }
        if piece.len() > 0 {
            names.push(string_of(piece.as_slice()));
            assert(names@.map_values(|s: String| s@) =~= before + seq![piece@]);
        } else {
            assert(before + Seq::<Seq<char>>::empty() =~= before);
        }
        k = k + 1;
    }
    assert(ps.take(parts@.len() as int) =~= ps);
    if names.len() == 0 {
        return Err(WebPipeError::ConfigError(string_of(chars_of("join config must specify at least one task name").as_slice())));
    }
    Ok(names)
}

/// The names as a JSON array of strings.
pub open spec fn names_json(names: Seq<Seq<char>>) -> Json {
    Json::Array(names.map_values(|s: Seq<char>| Json::Str(s)))
}

/// `nm` is the metadata object `meta` (empty when absent) with
/// `join_tasks` set to the names.
pub open spec fn joined_meta(meta: Option<Json>, names: Seq<Seq<char>>, nm: Json) -> bool {
    &&& nm is Object
    &&& get(nm, "join_tasks"@) == Some(names_json(names))
    &&& forall|k: Seq<char>| k != "join_tasks"@ ==> #[trigger] get(nm, k) == match meta {
        Some(m) => get(m, k),
        None => None,
    }
}

impl JoinMiddleware {
    /// The configuration's task names (as for [`parse_join_task_names`]).
    pub fn parse_join_config(&self, config: &str) -> (r: Result<Vec<String>, WebPipeError>)
        ensures
            match r {
                Ok(v) => join_names(config@) == Ok::<Seq<Seq<char>>, Seq<char>>(v@.map_values(|s: String| s@)),
                Err(e) => e matches WebPipeError::ConfigError(m) && join_names(config@) == Err::<Seq<Seq<char>>, Seq<char>>(m@),
            },
    {
        parse_join_task_names(config)
    }

    /// Records the task names under `_metadata.join_tasks` of an object
    /// input (creating `_metadata` when missing); other inputs, and inputs
    /// whose `_metadata` is not an object, are returned unchanged.
    pub fn apply(&self, config: &str, input: &JsonValue) -> (r: Result<JsonValue, WebPipeError>)
        ensures
            match r {
                Err(e) => e matches WebPipeError::ConfigError(m) && join_names(config@) == Err::<Seq<Seq<char>>, Seq<char>>(m@),
                Ok(out) => join_names(config@) is Ok && {
                    let names = join_names(config@)->Ok_0;
                    let meta = get(jv(*input), "_metadata"@);
                    if !(jv(*input) is Object) || (meta is Some && !(meta->0 is Object)) {
                        jv(out) == jv(*input)
                    } else {
                        jv(out) is Object
                        && (forall|k: Seq<char>| k != "_metadata"@ ==> #[trigger] get(jv(out), k) == get(jv(*input), k))
                        && get(jv(out), "_metadata"@) is Some
                        && joined_meta(meta, names, get(jv(out), "_metadata"@)->0)
                    }
                },
            },
    {
        let names = match parse_join_task_names(config) {
            Ok(v) => v,
            Err(e) => {
                return Err(e);
            },
        };
        let mut result = input.copy();
        if !result.is_object() {
            return Ok(result);
        }
        let mut meta = match input.get("_metadata") {
            Some(m) => m.copy(),
            None => {
                let o = JsonValue::Object(Vec::new());
                assert(jv(o) == Json::Object(Seq::empty()));
                o
            },
        };
        if !meta.is_object() {
            return Ok(result);
        }
        let mut arr: Vec<JsonValue> = Vec::new();
        let mut k: usize = 0;
        while k < names.len()
            invariant
                k <= names@.len(),
                arr@.len() == k,
                forall|i: int| 0 <= i < k ==> jv(#[trigger] arr@[i]) == Json::Str(names@[i]@),
            decreases names@.len() - k,
        {
            arr.push(JsonValue::Str(string_of(chars_of(names[k].as_str()).as_slice())));
            k = k + 1;
        }
        proof {
            lemma_jv_seq(arr@);
            assert(jv_seq(arr@) =~= names@.map_values(|s: String| s@).map_values(|s: Seq<char>| Json::Str(s)));
        }
        let ghost old_meta = meta;
        meta.set(string_of(chars_of("join_tasks").as_slice()), JsonValue::Array(arr));
        let ghost new_meta = jv(meta);
        let ghost old_result = result;
        result.set(string_of(chars_of("_metadata").as_slice()), meta);
        proof {
            assert(get(jv(result), "_metadata"@) == Some(new_meta));
            assert forall|k: Seq<char>| k != "join_tasks"@ implies #[trigger] get(new_meta, k) == match get(jv(*input), "_metadata"@) {
                Some(m) => get(m, k),
                None => None,
            } by {
                assert(get(new_meta, k) == get(jv(old_meta), k));
            }
        }
        Ok(result)
    }
}


/// The profiler stack a sample of an awaited task is recorded under: the
/// joining step's stack (when not empty), then `async:<task>`, then the
/// task's own stack, separated by `;`.
pub open spec fn async_sample_text(stack: Seq<Seq<char>>, task: Seq<char>, async_stack: Seq<char>) -> Seq<char> {
    if stack.len() == 0 {
        "async:"@ + task + ";"@ + async_stack
    } else {
        join(stack, ";"@) + ";async:"@ + task + ";"@ + async_stack
    }
}

/// Builds the stack text of an awaited task's sample.
pub fn async_sample_stack(stack: &Vec<String>, task: &str, async_stack: &str) -> (r: String)
    ensures
        r@ == async_sample_text(stack@.map_values(|s: String| s@), task@, async_stack@),
{
    let mut out: Vec<char> = Vec::new();
    if stack.len() == 0 {
        append_str(&mut out, "async:");
    } else {
        let mut parts: Vec<Vec<char>> = Vec::new();
        let mut i: usize = 0;
        while i < stack.len()
            invariant
                i <= stack@.len(),
                parts@.len() == i,
                forall|k: int| 0 <= k < i ==> (#[trigger] parts@[k])@ == stack@[k]@,
            decreases stack@.len() - i,
        {
            parts.push(chars_of(stack[i].as_str()));
            i = i + 1;
        }
        assert(parts@.map_values(|x: Vec<char>| x@) =~= stack@.map_values(|s: String| s@));
        join_into(&mut out, &parts, ";");
        append_str(&mut out, ";async:");
    }
    append_str(&mut out, task);
    append_str(&mut out, ";");
    append_str(&mut out, async_stack);
    proof { reveal_strlit(";"); reveal_strlit("async:"); reveal_strlit(";async:"); }
    assert(out@ =~= async_sample_text(stack@.map_values(|s: String| s@), task@, async_stack@));
    string_of(out.as_slice())
}

/// The result a failed task leaves: `{"error": message}`.
pub fn task_error_value(message: &str) -> (r: JsonValue)
    ensures
        jv(r) == Json::Object(seq![("error"@, Json::Str(message@))]),
{
    let mut e: Vec<(String, JsonValue)> = Vec::new();
    e.push((string_of(chars_of("error").as_slice()), JsonValue::Str(string_of(chars_of(message).as_slice()))));
    proof { lemma_jv_entries(e@); }
    assert(jv_entries(e@) =~= seq![("error"@, Json::Str(message@))]);
    JsonValue::Object(e)
}

/// The value a task's name gets among the results: the last result given
/// for it.
pub open spec fn task_result(rs: Seq<(Seq<char>, Json)>, k: Seq<char>) -> Option<Json>
    decreases rs.len(),
{
    if rs.len() == 0 {
        None
    } else if rs.last().0 == k {
        Some(rs.last().1)
    } else {
        task_result(rs.drop_last(), k)
    }
}

/// The state after a `join`: an object input gets `async` set to the
/// awaited tasks' results by name; any other input is kept.
pub fn join_state(input: &JsonValue, results: &Vec<(String, JsonValue)>) -> (r: JsonValue)
    ensures
        !(jv(*input) is Object) ==> jv(r) == jv(*input),
        jv(*input) is Object ==> jv(r) is Object
            && (get(jv(r), "async"@) matches Some(a) && a is Object
                && forall|k: Seq<char>| #[trigger] get(a, k) == task_result(jv_entries(results@), k))
            && forall|k: Seq<char>| k != "async"@ ==> #[trigger] get(jv(r), k) == get(jv(*input), k),
{
    let mut out = input.copy();
    if !out.is_object() {
        return out;
    }
    proof { lemma_jv_entries(results@); }
    let ghost rs = jv_entries(results@);
    let mut a = JsonValue::Object(Vec::new());
    assert(jv_entries(Seq::<(String, JsonValue)>::empty()) =~= Seq::<(Seq<char>, Json)>::empty());
    let mut i: usize = 0;
    while i < results.len()
        invariant
            i <= results@.len(),
            rs == jv_entries(results@),
            rs.len() == results@.len(),
            forall|m: int| 0 <= m < results@.len() ==> #[trigger] rs[m] == (results@[m].0@, jv(results@[m].1)),
            jv(a) is Object,
            forall|k: Seq<char>| #[trigger] get(jv(a), k) == task_result(rs.take(i as int), k),
        decreases results@.len() - i,
    {
        a.set(results[i].0.clone(), results[i].1.copy());
        proof {
            assert(rs.take(i + 1).drop_last() =~= rs.take(i as int));
            assert(rs.take(i + 1).last() == rs[i as int]);
        }
        i = i + 1;
    }
    assert(rs.take(rs.len() as int) =~= rs);
    proof { reveal_strlit("async"); }
    let ghost aj = jv(a);
    out.set(string_of(chars_of("async").as_slice()), a);
    assert(get(jv(out), "async"@) == Some(aj));
    out
}

} // verus!
