//! Step-level decisions of the executor: display names, execution modes
//! and the cache middleware's stop signal.

use vstd::prelude::*;
use crate::ast::{PipelineStep, TagExpr, SourceLocation, DispatchBranch, step_location};
use crate::json::{JsonValue, Json, jv, get, as_bool, as_str};
use crate::tags::{get_async_from_tag_expr, named_arg, TagContext, expr_holds, should_execute_step};
use crate::text::{trim, chars_of, trim_chars, string_of, append, append_str, str_eq};
use crate::error::WebPipeError;

verus! {

/// The last segment of `s` (the characters after its last `/`).
pub open spec fn last_segment(s: Seq<char>) -> Seq<char>
    decreases s.len(),
{
    if s.len() == 0 || s.last() == '/' {
        Seq::empty()
    } else {
        last_segment(s.drop_last()).push(s.last())
    }
}

/// The final component of a path (`Path::file_name`): trailing slashes and
/// `.` components are skipped; a final `..` or no component gives `None`.
pub open spec fn file_name(s: Seq<char>) -> Option<Seq<char>>
    decreases s.len(),
{
    if s.len() == 0 {
        None
    } else if s.last() == '/' {
        file_name(s.drop_last())
    } else {
        let seg = last_segment(s);
        if seg == seq!['.'] {
            file_name(s.take(s.len() - 1))
        } else if seg == seq!['.', '.'] {
            None
        } else {
            Some(seg)
        }
    }
}

proof fn lemma_last_segment(s: Seq<char>)
    ensures
        last_segment(s).len() <= s.len(),
        last_segment(s) == s.skip(s.len() - last_segment(s).len()),
        forall|i: int| 0 <= i < last_segment(s).len() ==> last_segment(s)[i] != '/',
        last_segment(s).len() < s.len() ==> s[s.len() - last_segment(s).len() - 1] == '/',
    decreases s.len(),
{
    if s.len() > 0 && s.last() != '/' {
        lemma_last_segment(s.drop_last());
        let t = last_segment(s.drop_last());
        assert(s.drop_last().skip(s.drop_last().len() - t.len()).push(s.last()) =~= s.skip(s.len() - t.len() - 1));
    } else {
        assert(s.skip(s.len() as int) =~= Seq::<char>::empty());
    }
}

/// Index where the last segment of `v[..end]` starts.
fn segment_start(v: &Vec<char>, end: usize) -> (k: usize)
    requires
        end <= v@.len(),
    ensures
        k <= end,
        v@.subrange(k as int, end as int) == last_segment(v@.take(end as int)),
{
    let mut k = end;
    proof {
        assert(v@.subrange(end as int, end as int) =~= Seq::<char>::empty());
    }
    while k > 0 && v[k - 1] != '/'
        invariant
            k <= end <= v@.len(),
            last_segment(v@.take(end as int)) == last_segment(v@.take(k as int)) + v@.subrange(k as int, end as int),
        decreases k,
    {
        assert(v@.take(k as int).drop_last() =~= v@.take(k - 1));
        assert(v@.subrange(k - 1, end as int) =~= seq![v@[k - 1]] + v@.subrange(k as int, end as int));
        assert(last_segment(v@.take(k as int)) == last_segment(v@.take(k - 1)).push(v@[k - 1]));
        k = k - 1;
    }
    assert(last_segment(v@.take(k as int)) =~= Seq::<char>::empty());
    assert(last_segment(v@.take(end as int)) =~= v@.subrange(k as int, end as int));
    k
}

/// `Path::file_name` on the characters of a path.
pub fn path_file_name(path: &str) -> (r: Option<String>)
    ensures
        match r {
            Some(s) => file_name(path@) == Some(s@),
            None => file_name(path@) is None,
        },
{
    let v = chars_of(path);
    let mut end = v.len();
    assert(v@.take(end as int) =~= path@);
    loop
        invariant
            end <= v@.len(),
            v@ == path@,
            file_name(path@) == file_name(v@.take(end as int)),
        decreases end,
    {
        if end == 0 {
            return None;
        }
        if v[end - 1] == '/' {
            assert(v@.take(end as int).drop_last() =~= v@.take(end - 1));
            end = end - 1;
        } else {
            let k = segment_start(&v, end);
            let seg = crate::text::slice_chars(&v, k, end);
            proof {
                lemma_last_segment(v@.take(end as int));
            }
            if seg.len() == 1 && seg[0] == '.' {
                assert(seg@ =~= seq!['.']);
                assert(v@.take(end as int).take(end - 1) =~= v@.take(end - 1));
                end = end - 1;
            } else if seg.len() == 2 && seg[0] == '.' && seg[1] == '.' {
                assert(seg@ =~= seq!['.', '.']);
                return None;
            } else {
                assert(seg@ != seq!['.']);
                assert(seg@ != seq!['.', '.']);
                return Some(string_of(seg.as_slice()));
            }
        }
    }
}

/// The display name of a step without its file: the middleware name,
/// `pipeline:<name>` for pipeline calls, or the control keyword.
pub open spec fn base_step_name(step: PipelineStep) -> Seq<char> {
    match step {
        PipelineStep::Regular { name, config, .. } => if name@ == "pipeline"@ {
            "pipeline:"@ + trim(config@)
        } else {
            name@
        },
        PipelineStep::If { .. } => "if"@,
        PipelineStep::Result { .. } => "result"@,
        PipelineStep::Dispatch { .. } => "dispatch"@,
        PipelineStep::Foreach { .. } => "foreach"@,
    }
}

/// The display name of a step used by the profiler and the debugger:
/// the base name, followed by `@<file name>` when the step's file is known.
pub open spec fn step_name(step: PipelineStep) -> Seq<char> {
    match step_location(step).file_path {
        Some(p) => match file_name(p@) {
            Some(f) => base_step_name(step) + "@"@ + f,
            None => base_step_name(step) + "@"@ + p@,
        },
        None => base_step_name(step),
    }
}

/// The display name of a step.
pub fn determine_step_name(step: &PipelineStep) -> (r: String)
    ensures
        r@ == step_name(*step),
{
    let mut base: Vec<char> = Vec::new();
    match step {
        PipelineStep::Regular { name, config, .. } => {
            if str_eq(name.as_str(), "pipeline") {
                append_str(&mut base, "pipeline:");
                let c = chars_of(config.as_str());
                let t = trim_chars(c.as_slice());
                append(&mut base, t.as_slice());
            } else {
                append_str(&mut base, name.as_str());
            }
        },
        PipelineStep::If { .. } => append_str(&mut base, "if"),
        PipelineStep::Result { .. } => append_str(&mut base, "result"),
        PipelineStep::Dispatch { .. } => append_str(&mut base, "dispatch"),
        PipelineStep::Foreach { .. } => append_str(&mut base, "foreach"),
    }
    assert(base@ =~= base_step_name(*step));
    let location = step.location();
    match &location.file_path {
        Some(p) => {
            append_str(&mut base, "@");
            match path_file_name(p.as_str()) {
                Some(f) => append_str(&mut base, f.as_str()),
                None => append_str(&mut base, p.as_str()),
            }
        },
        None => {},
    }
    string_of(base.as_slice())
}

/// How a step runs.
#[derive(Debug)]
pub enum ExecutionMode {
    /// Ordinary middleware call.
    Standard,
    /// Spawned as the named background task.
    Async(String),
    /// Waits for background tasks.
    Join,
    /// Calls a named pipeline.
    Recursive,
}

/// The background task name a step's condition asks for.
pub open spec fn async_of(condition: Option<TagExpr>) -> Option<Seq<char>> {
    match condition {
        Some(e) => named_arg(e, "async"@),
        None => None,
    }
}

/// A step tagged `@async(name)` runs in the background; `join` waits for
/// tasks; `pipeline` calls another pipeline; anything else is standard.
pub fn detect_execution_mode(name: &str, condition: &Option<TagExpr>) -> (m: ExecutionMode)
    ensures
        match async_of(*condition) {
            Some(t) => m matches ExecutionMode::Async(n) && n@ == t,
            None => if name@ == "join"@ {
                m is Join
            } else if name@ == "pipeline"@ {
                m is Recursive
            } else {
                m is Standard
            },
        },
{
    match condition {
        Some(e) => {
            match get_async_from_tag_expr(e) {
                Some(n) => return ExecutionMode::Async(n),
                None => {},
            }
        },
        None => {},
    }
    if str_eq(name, "join") {
        ExecutionMode::Join
    } else if str_eq(name, "pipeline") {
        ExecutionMode::Recursive
    } else {
        ExecutionMode::Standard
    }
}

/// The cache middleware asks the pipeline to stop with a stored response
/// by setting `_control.stop` to `true` and `_control.value` to the
/// response; `_control.content_type` optionally gives its MIME type.
pub open spec fn cache_stop_signal(input: Json) -> Option<(Json, Option<Seq<char>>)> {
    match get(input, "_control"@) {
        Some(c) => if get(c, "stop"@).is_some() && as_bool(get(c, "stop"@).unwrap()) == Some(true) {
            match get(c, "value"@) {
                Some(v) => Some((v, match get(c, "content_type"@) {
                    Some(ct) => as_str(ct),
                    None => None,
                })),
                None => None,
            }
        } else {
            None
        },
        None => None,
    }
}

/// Reads the cache middleware's stop signal from a step's output.
pub fn check_cache_control_signal(input: &JsonValue) -> (r: Option<(JsonValue, Option<String>)>)
    ensures
        match r {
            Some((v, ct)) => cache_stop_signal(jv(*input)) == Some((jv(v), match ct {
                Some(s) => Some(s@),
                None => None,
            })),
            None => cache_stop_signal(jv(*input)) is None,
        },
{
    let c = match input.get("_control") {
        Some(c) => c,
        None => return None,
    };
    let stop = match c.get("stop") {
        Some(s) => match s.as_bool() {
            Some(b) => b,
            None => false,
        },
        None => false,
    };
    if !stop {
        return None;
    }
    let value = match c.get("value") {
        Some(v) => v.copy(),
        None => return None,
    };
    let ct = match c.get("content_type") {
        Some(x) => match x.as_str() {
            Some(s) => Some(s.clone()),
            None => None,
        },
        None => None,
    };
    Some((value, ct))
}


/// Whether a step's result is stored under `.data.<target>` rather than
/// merged: for the data-fetching middleware `pg`, `fetch` and `graphql`
/// when a target name was given.
pub fn should_wrap_result(name: &str, target_name: &Option<String>) -> (b: bool)
    ensures
        b == (target_name is Some && (name@ == "pg"@ || name@ == "fetch"@ || name@ == "graphql"@)),
{
    target_name.is_some() && (str_eq(name, "pg") || str_eq(name, "fetch") || str_eq(name, "graphql"))
}

/// The object `data` entry of a state, or an empty object.
pub open spec fn data_object(state: Json) -> Json {
    match get(state, "data"@) {
        Some(Json::Object(e)) => Json::Object(e),
        _ => Json::Object(Seq::empty()),
    }
}

/// `out` is the state with `value` stored under `.data.<target>`: an
/// object state keeps its other keys and the other entries of its `data`
/// object; any other state becomes `{"data": {target: value}}`.
pub open spec fn data_wrapped(out: Json, state: Json, value: Json, target: Seq<char>) -> bool {
    &&& out is Object
    &&& state is Object ==> forall|k: Seq<char>| k != "data"@ ==> #[trigger] get(out, k) == get(state, k)
    &&& !(state is Object) ==> forall|k: Seq<char>| k != "data"@ ==> #[trigger] get(out, k) is None
    &&& get(out, "data"@) is Some
    &&& get(out, "data"@)->0 is Object
    &&& forall|k: Seq<char>| #[trigger] get(get(out, "data"@)->0, k) == if k == target {
        Some(value)
    } else if state is Object {
        get(data_object(state), k)
    } else {
        None
    }
}

/// Stores a data-fetching step's result under `.data.<target>`.
pub fn apply_data_wrap(state: JsonValue, value: JsonValue, target: &str) -> (r: JsonValue)
    ensures
        data_wrapped(jv(r), jv(state), jv(value), target@),
{
    proof { reveal_strlit("data"); }
    let ghost vj = jv(value);
    let ghost sj = jv(state);
    let mut out = if state.is_object() {
        state
    } else {
        let e = JsonValue::Object(Vec::new());
        assert(crate::json::jv_entries(Seq::<(String, JsonValue)>::empty()) =~= Seq::<(Seq<char>, Json)>::empty());
        e
    };
    assert(forall|k: Seq<char>| !(sj is Object) ==> #[trigger] get(jv(out), k) is None);
    let mut data = match out.get("data") {
        Some(d) => {
            if d.is_object() {
                d.copy()
            } else {
                let e = JsonValue::Object(Vec::new());
                assert(crate::json::jv_entries(Seq::<(String, JsonValue)>::empty()) =~= Seq::<(Seq<char>, Json)>::empty());
                e
            }
        },
        None => {
            let e = JsonValue::Object(Vec::new());
            assert(crate::json::jv_entries(Seq::<(String, JsonValue)>::empty()) =~= Seq::<(Seq<char>, Json)>::empty());
            e
        },
    };
    assert(sj is Object ==> jv(data) == data_object(sj));
    assert(!(sj is Object) ==> forall|k: Seq<char>| #[trigger] get(jv(data), k) is None);
    data.set(string_of(chars_of(target).as_slice()), value);
    let ghost dj = jv(data);
    out.set(string_of(chars_of("data").as_slice()), data);
    assert(get(jv(out), "data"@) == Some(dj));
    out
}

/// Whether a step's content type becomes the response's: a non-JSON
/// content type from `pipeline`, `handlebars` or `gg`, or any content type
/// of the last step.
pub fn takes_content_type(name: &str, content_type: &str, is_last_step: bool) -> (b: bool)
    ensures
        b == ((content_type@ != "application/json"@ || is_last_step)
            && (name@ == "pipeline"@ || is_last_step || name@ == "handlebars"@ || name@ == "gg"@)),
{
    (!str_eq(content_type, "application/json") || is_last_step)
        && (str_eq(name, "pipeline") || is_last_step || str_eq(name, "handlebars") || str_eq(name, "gg"))
}

/// Whether a step after index `i` of `steps` will run: a regular step whose
/// condition holds, or any control-flow step.
pub open spec fn runs_later(steps: Seq<PipelineStep>, i: int, ctx: TagContext) -> bool {
    exists|j: int| i < j < steps.len() && match #[trigger] steps[j] {
        PipelineStep::Regular { condition, .. } => match condition {
            None => true,
            Some(e) => expr_holds(ctx, e),
        },
        _ => true,
    }
}

/// Whether the step at `current_idx` is the last that will run.
pub fn is_effectively_last_step(current_idx: usize, steps: &Vec<PipelineStep>, ctx: &TagContext) -> (b: bool)
    ensures
        b == !runs_later(steps@, current_idx as int, *ctx),
{
    let mut j = current_idx;
    while j < steps.len() && j + 1 < steps.len()
        invariant
            current_idx <= j,
            forall|m: int| current_idx < m <= j && m < steps@.len() ==> !match #[trigger] steps@[m] {
                PipelineStep::Regular { condition, .. } => match condition {
                    None => true,
                    Some(e) => expr_holds(*ctx, e),
                },
                _ => true,
            },
        decreases steps@.len() - j,
    {
        let next = j + 1;
        let runs = match &steps[next] {
            PipelineStep::Regular { condition, .. } => should_execute_step(condition, ctx),
            _ => true,
        };
        if runs {
            return false;
        }
        j = next;
    }
    true
}


/// What a result branch's output becomes: cookies the state carried
/// before the branch are kept when the branch's object result sets none.
pub fn restore_cookies(result: JsonValue, inherited: Option<JsonValue>) -> (r: JsonValue)
    ensures
        match inherited {
            Some(c) => if jv(result) is Object && get(jv(result), "setCookies"@) is None {
                jv(r) is Object && get(jv(r), "setCookies"@) == Some(jv(c))
                    && forall|k: Seq<char>| k != "setCookies"@ ==> #[trigger] get(jv(r), k) == get(jv(result), k)
            } else {
                r == result
            },
            None => r == result,
        },
{
    match inherited {
        Some(c) => {
            if result.is_object() && result.get("setCookies").is_none() {
                let mut out = result;
                proof { reveal_strlit("setCookies"); }
                out.set(string_of(chars_of("setCookies").as_slice()), c);
                out
            } else {
                result
            }
        },
        None => result,
    }
}

/// The content type a result branch answers with: the branch's own unless
/// it is plain JSON, in which case the one already chosen.
pub fn branch_content_type(branch_ct: String, current: String) -> (r: String)
    ensures
        r@ == if branch_ct@ != "application/json"@ { branch_ct@ } else { current@ },
{
    if !str_eq(branch_ct.as_str(), "application/json") {
        branch_ct
    } else {
        current
    }
}

/// Whether an `if` step's condition result takes the `then` branch: a
/// boolean as itself, `null` as false, any other value as true.
pub open spec fn if_truthy(j: Json) -> bool {
    match j {
        Json::Bool(b) => b,
        Json::Null => false,
        _ => true,
    }
}

/// Decides an `if` step from its condition pipeline's result.
pub fn condition_holds(v: &JsonValue) -> (b: bool)
    ensures
        b == if_truthy(jv(*v)),
{
    match v {
        JsonValue::Bool(b) => *b,
        JsonValue::Null => false,
        _ => true,
    }
}

/// The branch a `dispatch` step runs: the first whose tag condition holds;
/// `None` leaves the default (if any) to run.
pub fn select_dispatch(branches: &Vec<DispatchBranch>, ctx: &TagContext) -> (r: Option<usize>)
    ensures
        match r {
            Some(i) => i < branches@.len() && expr_holds(*ctx, branches@[i as int].condition)
                && forall|j: int| 0 <= j < i ==> !expr_holds(*ctx, #[trigger] branches@[j].condition),
            None => forall|j: int| 0 <= j < branches@.len() ==> !expr_holds(*ctx, #[trigger] branches@[j].condition),
        },
{
    let mut i: usize = 0;
    while i < branches.len()
        invariant
            i <= branches@.len(),
            forall|j: int| 0 <= j < i ==> !expr_holds(*ctx, #[trigger] branches@[j].condition),
        decreases branches@.len() - i,
    {
        if crate::tags::check_tag_expr(&branches[i].condition, ctx) {
            return Some(i);
        }
        i = i + 1;
    }
    None
}

/// What a `foreach` step does with the value at its path: an array gives
/// the items that the inner pipeline runs on, one by one; anything else,
/// or nothing, fails with "foreach: path '<path>' is not an array or does
/// not exist".
pub fn foreach_items(found: Option<JsonValue>, selector: &str) -> (r: Result<Vec<JsonValue>, WebPipeError>)
    ensures
        match found {
            Some(JsonValue::Array(items)) => r == Ok::<Vec<JsonValue>, WebPipeError>(items),
            _ => r matches Err(e) && e matches WebPipeError::MiddlewareExecutionError(m)
                && m@ == "foreach: path '"@ + selector@ + "' is not an array or does not exist"@,
        },
{
    match found {
        Some(JsonValue::Array(items)) => Ok(items),
        _ => {
            let mut m: Vec<char> = chars_of("foreach: path '");
            append_str(&mut m, selector);
            append_str(&mut m, "' is not an array or does not exist");
            Err(WebPipeError::MiddlewareExecutionError(string_of(m.as_slice())))
        },
    }
}

/// A regular step about to run: its middleware, arguments, configuration,
/// tag condition, the task names of a `join`, and its place in the source.
pub struct RegularStepExecutor<'a> {
    pub name: &'a str,
    pub args: &'a [String],
    pub config: &'a str,
    pub condition: &'a Option<TagExpr>,
    pub parsed_join_targets: Option<&'a Vec<String>>,
    pub location: &'a SourceLocation,
}

impl<'a> RegularStepExecutor<'a> {
    /// A step to run.
    pub fn new(
        name: &'a str,
        args: &'a [String],
        config: &'a str,
        condition: &'a Option<TagExpr>,
        parsed_join_targets: Option<&'a Vec<String>>,
        location: &'a SourceLocation,
    ) -> (r: Self)
        ensures
            r.name == name && r.args == args && r.config == config && r.condition == condition
                && r.parsed_join_targets == parsed_join_targets && r.location == location,
    {
        RegularStepExecutor { name, args, config, condition, parsed_join_targets, location }
    }

    /// How the step runs: in the background, as a join, as a call of
    /// another pipeline, or as a middleware.
    pub fn mode(&self) -> (m: ExecutionMode)
        ensures
            match async_of(*self.condition) {
                Some(t) => m matches ExecutionMode::Async(n) && n@ == t,
                None => if self.name@ == "join"@ {
                    m is Join
                } else if self.name@ == "pipeline"@ {
                    m is Recursive
                } else {
                    m is Standard
                },
            },
    {
        detect_execution_mode(self.name, self.condition)
    }

    /// Whether the step's result is stored under `.data.<target>`.
    pub fn wraps_result(&self, target_name: &Option<String>) -> (b: bool)
        ensures
            b == (target_name is Some && (self.name@ == "pg"@ || self.name@ == "fetch"@ || self.name@ == "graphql"@)),
    {
        should_wrap_result(self.name, target_name)
    }

    /// Whether the step's content type becomes the response's.
    pub fn sets_content_type(&self, content_type: &str, is_last_step: bool) -> (b: bool)
        ensures
            b == ((content_type@ != "application/json"@ || is_last_step)
                && (self.name@ == "pipeline"@ || is_last_step || self.name@ == "handlebars"@ || self.name@ == "gg"@)),
    {
        takes_content_type(self.name, content_type, is_last_step)
    }
}

} // verus!
