//! Decisions of the step debugger: when a request pauses, what a resume
//! command does, and how a pipeline state is shown as variables.

use vstd::prelude::*;
use crate::json::{JsonValue, JsonNumber, Json, jv, jv_seq, jv_entries, lemma_jv_seq, lemma_jv_entries, json_text,
    write_json};
use crate::context::StepMode;
use crate::text::{dec, append, append_str, chars_of, string_of, u64_to_chars, starts_with};
use crate::schema::{parse_usize, parse_usize_spec};

verus! {

broadcast use vstd::std_specs::vec::group_vec_axioms;

/// How a thread that is stepping decides where to pause next.
#[derive(Debug, Clone, Copy)]
pub enum SteppingMode {
    /// Pause at the next step.
    StepInto,
    /// Pause at the next step whose stack depth is at most `target_depth`.
    StepOver { target_depth: usize },
    /// Pause at the next step whose stack depth is below `target_depth`.
    StepOut { target_depth: usize },
}

/// How execution proceeds after a debugger hook.
#[derive(Debug, Clone, Copy)]
pub enum StepAction {
    Continue,
    StepOver,
    StepIn,
    StepOut,
}

/// A resume command from the debugging client, with the state to continue
/// with when the client edited it.
#[derive(Debug)]
pub enum StepCommand {
    Continue(Option<JsonValue>),
    StepOver(Option<JsonValue>),
    StepIn(Option<JsonValue>),
    StepOut(Option<JsonValue>),
}

/// Whether a thread stepping in `mode` pauses at a step of stack depth
/// `depth`.
pub open spec fn pauses(mode: SteppingMode, depth: int) -> bool {
    match mode {
        SteppingMode::StepInto => true,
        SteppingMode::StepOver { target_depth } => depth <= target_depth,
        SteppingMode::StepOut { target_depth } => depth < target_depth,
    }
}

/// Whether a thread pauses for stepping: only when it is stepping, and
/// then as its mode says.
pub fn should_pause_step(mode: Option<SteppingMode>, stack_depth: usize) -> (b: bool)
    ensures
        b == match mode {
            Some(m) => pauses(m, stack_depth as int),
            None => false,
        },
{
    match mode {
        Some(SteppingMode::StepInto) => true,
        Some(SteppingMode::StepOver { target_depth }) => stack_depth <= target_depth,
        Some(SteppingMode::StepOut { target_depth }) => stack_depth < target_depth,
        None => false,
    }
}

/// Why a step pauses.
#[derive(Debug, Clone, Copy, PartialEq, Eq, Structural)]
pub enum PauseReason {
    Breakpoint,
    Step,
}

/// Whether and why a thread pauses before a step: a breakpoint on the
/// step's line comes first, then stepping.
pub fn pause_reason(at_breakpoint: bool, mode: Option<SteppingMode>, stack_depth: usize) -> (r: Option<PauseReason>)
    ensures
        r == if at_breakpoint {
            Some(PauseReason::Breakpoint)
        } else if mode is Some && pauses(mode->0, stack_depth as int) {
            Some(PauseReason::Step)
        } else {
            None
        },
{
    if at_breakpoint {
        Some(PauseReason::Breakpoint)
    } else if should_pause_step(mode, stack_depth) {
        Some(PauseReason::Step)
    } else {
        None
    }
}

/// The word a pause reason is reported with.
pub fn reason_text(r: PauseReason) -> (s: String)
    ensures
        s@ == match r {
            PauseReason::Breakpoint => "breakpoint"@,
            PauseReason::Step => "step"@,
        },
{
    match r {
        PauseReason::Breakpoint => string_of(chars_of("breakpoint").as_slice()),
        PauseReason::Step => string_of(chars_of("step").as_slice()),
    }
}

/// The action a resume command asks for, and the state it carries.
pub fn resume(cmd: StepCommand) -> (r: (StepAction, Option<JsonValue>))
    ensures
        match cmd {
            StepCommand::Continue(s) => r.0 is Continue && r.1 == s,
            StepCommand::StepOver(s) => r.0 is StepOver && r.1 == s,
            StepCommand::StepIn(s) => r.0 is StepIn && r.1 == s,
            StepCommand::StepOut(s) => r.0 is StepOut && r.1 == s,
        },
{
    match cmd {
        StepCommand::Continue(s) => (StepAction::Continue, s),
        StepCommand::StepOver(s) => (StepAction::StepOver, s),
        StepCommand::StepIn(s) => (StepAction::StepIn, s),
        StepCommand::StepOut(s) => (StepAction::StepOut, s),
    }
}

/// The stepping mode a request keeps after a hook answered `action`:
/// none after `Continue`, else the matching mode.
pub fn step_mode_after(action: StepAction) -> (m: Option<StepMode>)
    ensures
        match action {
            StepAction::Continue => m is None,
            StepAction::StepOver => m == Some(StepMode::StepOver),
            StepAction::StepIn => m == Some(StepMode::StepIn),
            StepAction::StepOut => m == Some(StepMode::StepOut),
        },
{
    match action {
        StepAction::Continue => None,
        StepAction::StepOver => Some(StepMode::StepOver),
        StepAction::StepIn => Some(StepMode::StepIn),
        StepAction::StepOut => Some(StepMode::StepOut),
    }
}

/// The span of variable references a thread owns.
pub const VAR_REF_STRIDE: i64 = 100000;

/// The variable references of a thread: `[id * stride, (id + 1) * stride - 1]`.
pub fn thread_var_range(thread_id: u64) -> (r: (i64, i64))
    requires
        (thread_id as int + 1) * 100000 <= i64::MAX,
    ensures
        r.0 == thread_id as int * 100000,
        r.1 == r.0 + 100000 - 1,
{
    let start = (thread_id as i64) * VAR_REF_STRIDE;
    (start, start + VAR_REF_STRIDE - 1)
}

/// The JSON Pointer text of one character of a key: `~` is `~0`, `/` is
/// `~1`.
pub open spec fn pointer_char(c: char) -> Seq<char> {
    if c == '~' {
        seq!['~', '0']
    } else if c == '/' {
        seq!['~', '1']
    } else {
        seq![c]
    }
}

/// A key escaped for a JSON Pointer (RFC 6901).
pub open spec fn escape_pointer(s: Seq<char>) -> Seq<char>
    decreases s.len(),
{
    if s.len() == 0 {
        Seq::empty()
    } else {
        escape_pointer(s.drop_last()) + pointer_char(s.last())
    }
}

/// Escapes a key for a JSON Pointer.
pub fn escape_json_pointer(key: &str) -> (r: String)
    ensures
        r@ == escape_pointer(key@),
{
    let v = chars_of(key);
    let mut out: Vec<char> = Vec::new();
    let mut k: usize = 0;
    while k < v.len()
        invariant
            k <= v@.len(),
            out@ == escape_pointer(v@.take(k as int)),
        decreases v@.len() - k,
    {
        if v[k] == '~' {
            out.push('~');
            out.push('0');
        } else if v[k] == '/' {
            out.push('~');
            out.push('1');
        } else {
            out.push(v[k]);
        }
        assert(v@.take(k + 1).drop_last() =~= v@.take(k as int));
        k = k + 1;
        assert(out@ =~= escape_pointer(v@.take(k as int)));
    }
    assert(v@.take(v@.len() as int) =~= key@);
    string_of(out.as_slice())
}

/// Whether a value has children to expand (an object or an array).
pub open spec fn complex(j: Json) -> bool {
    j is Object || j is Array
}

/// The type a value is shown with.
pub open spec fn type_label(j: Json) -> Seq<char> {
    match j {
        Json::Null => "null"@,
        Json::Bool(_) => "boolean"@,
        Json::Int(_) => "number"@,
        Json::Float(_) => "number"@,
        Json::Str(_) => "string"@,
        Json::Array(_) => "array"@,
        Json::Object(_) => "object"@,
    }
}

/// The one-line preview of a value: `{...}` for an object, the item count
/// of an array, a string in quotes (unescaped), else its JSON text.
pub open spec fn preview(j: Json) -> Seq<char> {
    match j {
        Json::Object(_) => "{...}"@,
        Json::Array(a) => "["@ + dec(a.len()) + " items]"@,
        Json::Str(s) => "\""@ + s + "\""@,
        _ => json_text(j),
    }
}

/// Whether a value is an object or an array.
pub fn is_complex(v: &JsonValue) -> (b: bool)
    ensures
        b == complex(jv(*v)),
{
    match v {
        JsonValue::Object(_) | JsonValue::Array(_) => true,
        _ => false,
    }
}

/// The type a value is shown with.
pub fn json_type_name(v: &JsonValue) -> (s: String)
    ensures
        s@ == type_label(jv(*v)),
{
    proof {
        reveal_strlit("null");
        reveal_strlit("boolean");
        reveal_strlit("number");
        reveal_strlit("string");
        reveal_strlit("array");
        reveal_strlit("object");
    }
    let t = match v {
        JsonValue::Null => "null",
        JsonValue::Bool(_) => "boolean",
        JsonValue::Number(_) => "number",
        JsonValue::Str(_) => "string",
        JsonValue::Array(_) => "array",
        JsonValue::Object(_) => "object",
    };
    string_of(chars_of(t).as_slice())
}

/// The one-line preview of a value.
pub fn format_preview(v: &JsonValue) -> (s: String)
    ensures
        s@ == preview(jv(*v)),
{
    proof {
        reveal_strlit("{...}");
        reveal_strlit("[");
        reveal_strlit(" items]");
        reveal_strlit("\"");
    }
    let mut out: Vec<char> = Vec::new();
    match v {
        JsonValue::Object(_) => {
            append_str(&mut out, "{...}");
        },
        JsonValue::Array(a) => {
            proof { lemma_jv_seq(a@); }
            append_str(&mut out, "[");
            let d = u64_to_chars(a.len() as u64);
            append(&mut out, d.as_slice());
            append_str(&mut out, " items]");
        },
        JsonValue::Str(s) => {
            append_str(&mut out, "\"");
            append_str(&mut out, s.as_str());
            append_str(&mut out, "\"");
        },
        _ => {
            write_json(v, &mut out);
        },
    }
    assert(out@ =~= preview(jv(*v)));
    string_of(out.as_slice())
}

/// A variable as the debugging client shows it.
#[derive(Debug)]
pub struct DebugVariable {
    pub name: String,
    pub value: String,
    pub type_: String,
    /// The reference to expand the variable with; 0 when it has no children.
    pub variables_reference: i64,
    /// The number of entries of a non-empty object.
    pub named_variables: Option<i64>,
    /// The number of items of a non-empty array.
    pub indexed_variables: Option<i64>,
}

/// A value kept to be expanded later, under its reference, with its JSON
/// Pointer from the root.
#[derive(Debug)]
pub struct CachedValue {
    pub reference: i64,
    pub value: JsonValue,
    pub pointer: String,
}

/// The model of a debug variable.
pub struct VarModel {
    pub name: Seq<char>,
    pub value: Seq<char>,
    pub type_: Seq<char>,
    pub reference: int,
    pub named: Option<int>,
    pub indexed: Option<int>,
}

/// The model of a `DebugVariable`.
pub open spec fn var_model(v: DebugVariable) -> VarModel {
    VarModel {
        name: v.name@,
        value: v.value@,
        type_: v.type_@,
        reference: v.variables_reference as int,
        named: match v.named_variables {
            Some(n) => Some(n as int),
            None => None,
        },
        indexed: match v.indexed_variables {
            Some(n) => Some(n as int),
            None => None,
        },
    }
}

/// The model of a `CachedValue`.
pub open spec fn cached_model(c: CachedValue) -> (int, Json, Seq<char>) {
    (c.reference as int, jv(c.value), c.pointer@)
}

/// The variable for a child named `name` with value `j` and reference `r`.
pub open spec fn child_var(name: Seq<char>, j: Json, r: int) -> VarModel {
    VarModel {
        name,
        value: preview(j),
        type_: type_label(j),
        reference: r,
        named: match j {
            Json::Object(e) => if 0 < e.len() <= i64::MAX { Some(e.len() as int) } else { None },
            _ => None,
        },
        indexed: match j {
            Json::Array(a) => if 0 < a.len() <= i64::MAX { Some(a.len() as int) } else { None },
            _ => None,
        },
    }
}

/// The children of a value: (shown name, pointer segment, value); the
/// entries of an object by key, the items of an array by `[index]`.
pub open spec fn kids(j: Json) -> Seq<(Seq<char>, Seq<char>, Json)> {
    match j {
        Json::Object(e) => Seq::new(e.len(), |i: int| (e[i].0, escape_pointer(e[i].0), e[i].1)),
        Json::Array(a) => Seq::new(a.len(), |i: int| ("["@ + dec(i as nat) + "]"@, dec(i as nat), a[i])),
        _ => Seq::empty(),
    }
}

/// The variables and cache entries of the first `n` children, with the
/// counter after them: each object or array child takes the next counter
/// value, and its reference is `base` plus that value.
pub open spec fn kids_upto(ks: Seq<(Seq<char>, Seq<char>, Json)>, n: int, base: int, c0: int, parent: Seq<char>) -> (
    Seq<VarModel>,
    Seq<(int, Json, Seq<char>)>,
    int,
)
    decreases n,
{
    if n <= 0 || n > ks.len() {
        (Seq::empty(), Seq::empty(), c0)
    } else {
        let (vs, cache, c) = kids_upto(ks, n - 1, base, c0, parent);
        let k = ks[n - 1];
        if complex(k.2) {
            (
                vs.push(child_var(k.0, k.2, base + c + 1)),
                cache.push((base + c + 1, k.2, parent + "/"@ + k.1)),
                c + 1,
            )
        } else {
            (vs.push(child_var(k.0, k.2, 0)), cache, c)
        }
    }
}

/// The variables a value shows: its children when it is an object or an
/// array, else one variable `value`.
pub open spec fn variables_of(j: Json, base: int, c0: int, parent: Seq<char>) -> (
    Seq<VarModel>,
    Seq<(int, Json, Seq<char>)>,
    int,
) {
    if complex(j) {
        kids_upto(kids(j), kids(j).len() as int, base, c0, parent)
    } else {
        (seq![VarModel {
            name: "value"@,
            value: preview(j),
            type_: type_label(j),
            reference: 0,
            named: None,
            indexed: None,
        }], Seq::empty(), c0)
    }
}

/// The counter never decreases, and grows by at most the number of
/// children.
proof fn lemma_kids_counter(ks: Seq<(Seq<char>, Seq<char>, Json)>, n: int, base: int, c0: int, parent: Seq<char>)
    requires
        0 <= n <= ks.len(),
    ensures
        c0 <= kids_upto(ks, n, base, c0, parent).2 <= c0 + n,
    decreases n,
{
    if n > 0 {
        lemma_kids_counter(ks, n - 1, base, c0, parent);
    }
}

fn child_variable(name: String, v: &JsonValue, r: i64) -> (d: DebugVariable)
    ensures
        var_model(d) == child_var(name@, jv(*v), r as int),
{
    let named = match v {
        JsonValue::Object(e) => {
            proof { lemma_jv_entries(e@); }
            if e.len() > 0 && (e.len() as u64) <= 9223372036854775807u64 {
                Some(e.len() as i64)
            } else {
                None
            }
        },
        _ => None,
    };
    let indexed = match v {
        JsonValue::Array(a) => {
            proof { lemma_jv_seq(a@); }
            if a.len() > 0 && (a.len() as u64) <= 9223372036854775807u64 {
                Some(a.len() as i64)
            } else {
                None
            }
        },
        _ => None,
    };
    DebugVariable {
        name,
        value: format_preview(v),
        type_: json_type_name(v),
        variables_reference: r,
        named_variables: named,
        indexed_variables: indexed,
    }
}

/// The variables a value shows in the debugger, and the object and array
/// children to keep for later expansion. Each such child takes the next
/// value of `var_ref_counter`; its reference is the thread's base
/// (`thread_id * 100000`) plus that value, and its pointer is
/// `parent_ptr`, `/`, and the escaped key or the index.
pub fn json_to_variables_cached(value: &JsonValue, thread_id: u64, parent_ptr: &str, var_ref_counter: &mut i64) -> (r: (
    Vec<DebugVariable>,
    Vec<CachedValue>,
))
    requires
        0 <= *old(var_ref_counter),
        thread_id as int * 100000 + *old(var_ref_counter) + kids(jv(*value)).len() <= i64::MAX,
    ensures
        r.0@.map_values(|d: DebugVariable| var_model(d)) == variables_of(
            jv(*value),
            thread_id as int * 100000,
            *old(var_ref_counter) as int,
            parent_ptr@,
        ).0,
        r.1@.map_values(|c: CachedValue| cached_model(c)) == variables_of(
            jv(*value),
            thread_id as int * 100000,
            *old(var_ref_counter) as int,
            parent_ptr@,
        ).1,
        *final(var_ref_counter) as int == variables_of(
            jv(*value),
            thread_id as int * 100000,
            *old(var_ref_counter) as int,
            parent_ptr@,
        ).2,
{
    proof {
        reveal_strlit("value");
        reveal_strlit("[");
        reveal_strlit("]");
        reveal_strlit("/");
    }
    let ghost j = jv(*value);
    let ghost base = thread_id as int * 100000;
    let ghost c0 = *var_ref_counter as int;
    let mut vars: Vec<DebugVariable> = Vec::new();
    let mut cache: Vec<CachedValue> = Vec::new();
    match value {
        JsonValue::Object(entries) => {
            proof { lemma_jv_entries(entries@); }
            let ghost ks = kids(j);
            let mut k: usize = 0;
            while k < entries.len()
                invariant
                    j == jv(*value),
                    *value == JsonValue::Object(*entries),
                    ks == kids(j),
                    ks.len() == entries@.len(),
                    jv_entries(entries@).len() == entries@.len(),
                    forall|i: int| 0 <= i < entries@.len() ==> #[trigger] jv_entries(entries@)[i] == (entries@[i].0@, jv(entries@[i].1)),
                    k <= entries@.len(),
                    base == thread_id as int * 100000,
                    base + c0 + ks.len() <= i64::MAX,
                    0 <= c0,
                    vars@.map_values(|d: DebugVariable| var_model(d)) == kids_upto(ks, k as int, base, c0, parent_ptr@).0,
                    cache@.map_values(|c: CachedValue| cached_model(c)) == kids_upto(ks, k as int, base, c0, parent_ptr@).1,
                    *var_ref_counter as int == kids_upto(ks, k as int, base, c0, parent_ptr@).2,
                decreases entries@.len() - k,
            {
                proof { lemma_kids_counter(ks, k as int, base, c0, parent_ptr@); }
                let (key, v) = (&entries[k].0, &entries[k].1);
                assert(ks[k as int] == (key@, escape_pointer(key@), jv(*v)));
                let ghost vs0 = vars@.map_values(|d: DebugVariable| var_model(d));
                let ghost cs0 = cache@.map_values(|c: CachedValue| cached_model(c));
                if is_complex(v) {
                    *var_ref_counter = *var_ref_counter + 1;
                    let ref_id = (thread_id as i64) * VAR_REF_STRIDE + *var_ref_counter;
                    let mut ptr: Vec<char> = chars_of(parent_ptr);
                    append_str(&mut ptr, "/");
                    let esc = escape_json_pointer(key.as_str());
                    append_str(&mut ptr, esc.as_str());
                    cache.push(CachedValue { reference: ref_id, value: v.copy(), pointer: string_of(ptr.as_slice()) });
                    vars.push(child_variable(key.clone(), v, ref_id));
                } else {
                    vars.push(child_variable(key.clone(), v, 0));
                }
                assert(vars@.map_values(|d: DebugVariable| var_model(d)) =~= kids_upto(ks, k + 1, base, c0, parent_ptr@).0);
                assert(cache@.map_values(|c: CachedValue| cached_model(c)) =~= kids_upto(ks, k + 1, base, c0, parent_ptr@).1);
                k = k + 1;
            }
        },
        JsonValue::Array(items) => {
            proof { lemma_jv_seq(items@); }
            let ghost ks = kids(j);
            let mut k: usize = 0;
            while k < items.len()
                invariant
                    j == jv(*value),
                    *value == JsonValue::Array(*items),
                    ks == kids(j),
                    ks.len() == items@.len(),
                    jv_seq(items@).len() == items@.len(),
                    forall|i: int| 0 <= i < items@.len() ==> #[trigger] jv_seq(items@)[i] == jv(items@[i]),
                    k <= items@.len(),
                    base == thread_id as int * 100000,
                    base + c0 + ks.len() <= i64::MAX,
                    0 <= c0,
                    vars@.map_values(|d: DebugVariable| var_model(d)) == kids_upto(ks, k as int, base, c0, parent_ptr@).0,
                    cache@.map_values(|c: CachedValue| cached_model(c)) == kids_upto(ks, k as int, base, c0, parent_ptr@).1,
                    *var_ref_counter as int == kids_upto(ks, k as int, base, c0, parent_ptr@).2,
                decreases items@.len() - k,
            {
                proof { lemma_kids_counter(ks, k as int, base, c0, parent_ptr@); }
                let v = &items[k];
                let idx = u64_to_chars(k as u64);
                let mut name: Vec<char> = chars_of("[");
                append(&mut name, idx.as_slice());
                append_str(&mut name, "]");
                assert(ks[k as int] == (name@, idx@, jv(*v)));
                if is_complex(v) {
                    *var_ref_counter = *var_ref_counter + 1;
                    let ref_id = (thread_id as i64) * VAR_REF_STRIDE + *var_ref_counter;
                    let mut ptr: Vec<char> = chars_of(parent_ptr);
                    append_str(&mut ptr, "/");
                    append(&mut ptr, idx.as_slice());
                    cache.push(CachedValue { reference: ref_id, value: v.copy(), pointer: string_of(ptr.as_slice()) });
                    vars.push(child_variable(string_of(name.as_slice()), v, ref_id));
                } else {
                    vars.push(child_variable(string_of(name.as_slice()), v, 0));
                }
                assert(vars@.map_values(|d: DebugVariable| var_model(d)) =~= kids_upto(ks, k + 1, base, c0, parent_ptr@).0);
                assert(cache@.map_values(|c: CachedValue| cached_model(c)) =~= kids_upto(ks, k + 1, base, c0, parent_ptr@).1);
                k = k + 1;
            }
        },
        _ => {
            vars.push(DebugVariable {
                name: string_of(chars_of("value").as_slice()),
                value: format_preview(value),
                type_: json_type_name(value),
                variables_reference: 0,
                named_variables: None,
                indexed_variables: None,
            });
            assert(vars@.map_values(|d: DebugVariable| var_model(d)) =~= variables_of(j, base, c0, parent_ptr@).0);
            assert(cache@.map_values(|c: CachedValue| cached_model(c)) =~= variables_of(j, base, c0, parent_ptr@).1);
        },
    }
    (vars, cache)
}


proof fn lemma_kids_refs(ks: Seq<(Seq<char>, Seq<char>, Json)>, n: int, base: int, c0: int, parent: Seq<char>)
    requires
        0 <= n <= ks.len(),
    ensures
        ({
            let (vs, cache, c) = kids_upto(ks, n, base, c0, parent);
            &&& c == c0 + cache.len()
            &&& vs.len() == n
            &&& forall|i: int| 0 <= i < cache.len() ==> (#[trigger] cache[i]).0 == base + c0 + i + 1
        }),
    decreases n,
{
    if n > 0 {
        lemma_kids_refs(ks, n - 1, base, c0, parent);
    }
}

/// Law: the references handed out while listing a value are consecutive,
/// starting right after the counter: the `i`-th cached child gets
/// `base + counter + i + 1`, and the counter ends at the last one. With the
/// thread's base, no two children ever share a reference.
pub proof fn law_references_fresh(j: Json, base: int, c0: int, parent: Seq<char>)
    ensures
        ({
            let (vs, cache, c) = variables_of(j, base, c0, parent);
            &&& c == c0 + cache.len()
            &&& forall|i: int| 0 <= i < cache.len() ==> (#[trigger] cache[i]).0 == base + c0 + i + 1
        }),
{
    if complex(j) {
        lemma_kids_refs(kids(j), kids(j).len() as int, base, c0, parent);
    }
}


/// The last position before `n` at which `line` stands, or -1.
pub open spec fn last_at(lines: Seq<usize>, line: usize, n: int) -> int
    decreases n,
{
    if n <= 0 {
        -1
    } else if lines[n - 1] == line {
        n - 1
    } else {
        last_at(lines, line, n - 1)
    }
}

/// A line found at `i` is found last at or after `i`.
proof fn lemma_last_at(lines: Seq<usize>, i: int, n: int)
    requires
        0 <= i < n <= lines.len(),
    ensures
        i <= last_at(lines, lines[i], n) < n,
        lines[last_at(lines, lines[i], n)] == lines[i],
    decreases n,
{
    if lines[n - 1] != lines[i] {
        lemma_last_at(lines, i, n - 1);
    }
}

/// The last position of `line` in `lines` (which holds it).
fn last_index(lines: &Vec<usize>, line: usize) -> (r: usize)
    requires
        last_at(lines@, line, lines@.len() as int) >= 0,
    ensures
        r as int == last_at(lines@, line, lines@.len() as int),
{
    let mut k = lines.len();
    while k > 0 && lines[k - 1] != line
        invariant
            k <= lines@.len(),
            last_at(lines@, line, lines@.len() as int) == last_at(lines@, line, k as int),
        decreases k,
    {
        k = k - 1;
    }
    k - 1
}

/// Breakpoint ids for the lines of a `setBreakpoints` request: the ids
/// `next_id`, `next_id + 1`, ... are handed out in order, one per line, and
/// a line given twice answers with the later id. The second result is the
/// next free id.
pub fn assign_breakpoint_ids(lines: &Vec<usize>, next_id: i64) -> (r: (Vec<(usize, i64)>, i64))
    requires
        lines@.len() <= i64::MAX,
        next_id + lines@.len() <= i64::MAX,
    ensures
        r.0@.len() == lines@.len(),
        forall|i: int| 0 <= i < lines@.len() ==> #[trigger] r.0@[i] == (lines@[i], (next_id + last_at(lines@, lines@[i], lines@.len() as int)) as i64),
        r.1 == next_id + lines@.len(),
{
    let mut out: Vec<(usize, i64)> = Vec::new();
    let mut i: usize = 0;
    while i < lines.len()
        invariant
            i <= lines@.len(),
            lines@.len() <= i64::MAX,
            next_id + lines@.len() <= i64::MAX,
            out@.len() == i,
            forall|k: int| 0 <= k < i ==> #[trigger] out@[k] == (lines@[k], (next_id + last_at(lines@, lines@[k], lines@.len() as int)) as i64),
        decreases lines@.len() - i,
    {
        proof { lemma_last_at(lines@, i as int, lines@.len() as int); }
        let j = last_index(lines, lines[i]);
        out.push((lines[i], next_id + j as i64));
        i = i + 1;
    }
    (out, next_id + lines.len() as i64)
}

/// One frame of a paused thread's stack trace.
#[derive(Debug)]
pub struct FrameInfo {
    /// `thread_id * 10000 + index`.
    pub id: i64,
    pub name: String,
    pub line: i64,
    pub column: i64,
    /// Only the top frame names the source file.
    pub has_source: bool,
    /// Parent frames are shown de-emphasized.
    pub label: bool,
}

/// The stack trace of a paused thread: the innermost step first. The top
/// frame carries the step's line and column and the source file; the
/// frames of the enclosing pipelines carry none and are de-emphasized.
pub fn stack_frames(stack: &Vec<String>, thread_id: u64, line: i64, column: i64) -> (r: Vec<FrameInfo>)
    requires
        thread_id as int * 10000 + stack@.len() <= i64::MAX,
    ensures
        r@.len() == stack@.len(),
        forall|i: int| 0 <= i < stack@.len() ==> {
            let f = #[trigger] r@[i];
            &&& f.id == thread_id as int * 10000 + i
            &&& f.name@ == stack@[stack@.len() - 1 - i]@
            &&& i == 0 ==> f.line == line && f.column == column && f.has_source && !f.label
            &&& i > 0 ==> f.line == 0 && f.column == 0 && !f.has_source && f.label
        },
{
    let n = stack.len();
    let base = (thread_id as i64) * 10000;
    let mut out: Vec<FrameInfo> = Vec::new();
    let mut i: usize = 0;
    while i < n
        invariant
            n == stack@.len(),
            i <= n,
            base == thread_id as int * 10000,
            base + n <= i64::MAX,
            out@.len() == i,
            forall|k: int| 0 <= k < i ==> {
                let f = #[trigger] out@[k];
                &&& f.id == thread_id as int * 10000 + k
                &&& f.name@ == stack@[n - 1 - k]@
                &&& k == 0 ==> f.line == line && f.column == column && f.has_source && !f.label
                &&& k > 0 ==> f.line == 0 && f.column == 0 && !f.has_source && f.label
            },
        decreases n - i,
    {
        let name = stack[n - 1 - i].clone();
        let top = i == 0;
        out.push(FrameInfo {
            id: base + i as i64,
            name,
            line: if top { line } else { 0 },
            column: if top { column } else { 0 },
            has_source: top,
            label: !top,
        });
        i = i + 1;
    }
    out
}

/// The JSON Pointer of the child `name` of the container at `parent`.
pub fn child_pointer(parent: &str, name: &str) -> (r: String)
    ensures
        r@ == parent@ + "/"@ + escape_pointer(name@),
{
    let mut out: Vec<char> = Vec::new();
    append_str(&mut out, parent);
    out.push('/');
    let e = escape_json_pointer(name);
    append_str(&mut out, e.as_str());
    proof { reveal_strlit("/"); }
    assert(out@ =~= parent@ + "/"@ + escape_pointer(name@));
    string_of(out.as_slice())
}

/// A square bracket.
pub open spec fn is_bracket(c: char) -> bool {
    c == '[' || c == ']'
}

/// `s` without its leading and trailing brackets (`trim_matches`).
pub open spec fn trim_brackets(s: Seq<char>) -> Seq<char> {
    let a = lead_brackets(s, 0);
    let b = trail_brackets(s, s.len() as int, a);
    s.subrange(a, b)
}

/// The first position at or after `i` that is not a bracket.
pub open spec fn lead_brackets(s: Seq<char>, i: int) -> int
    decreases s.len() - i,
{
    if 0 <= i < s.len() && is_bracket(s[i]) {
        lead_brackets(s, i + 1)
    } else {
        i
    }
}

/// The end, at most `j` and at least `a`, after dropping trailing brackets.
pub open spec fn trail_brackets(s: Seq<char>, j: int, a: int) -> int
    decreases j - a,
{
    if a < j <= s.len() && is_bracket(s[j - 1]) {
        trail_brackets(s, j - 1, a)
    } else {
        j
    }
}

/// The array index a variable's name gives: the name without its brackets,
/// read as a `usize`.
pub open spec fn name_index(name: Seq<char>) -> Option<usize> {
    parse_usize_spec(trim_brackets(name))
}

/// Reads the array index a variable's name gives: `[3]` or `3`.
pub fn array_index_of(name: &str) -> (r: Option<usize>)
    ensures
        r == name_index(name@),
{
    let v = chars_of(name);
    let mut a: usize = 0;
    while a < v.len() && (v[a] == '[' || v[a] == ']')
        invariant
            a <= v@.len(),
            lead_brackets(v@, 0) == lead_brackets(v@, a as int),
        decreases v@.len() - a,
    {
        a = a + 1;
    }
    let mut b: usize = v.len();
    while b > a && (v[b - 1] == '[' || v[b - 1] == ']')
        invariant
            a <= b <= v@.len(),
            a as int == lead_brackets(v@, 0),
            trail_brackets(v@, v@.len() as int, a as int) == trail_brackets(v@, b as int, a as int),
        decreases b - a,
    {
        b = b - 1;
    }
    let t = crate::text::slice_chars(v.as_slice(), a, b);
    parse_usize(t.as_slice())
}

/// What the cached container of a set variable becomes: an object gets
/// the key `name` set to the new value; an array gets the item at the index
/// the name gives replaced, when it is in range; anything else is kept.
pub open spec fn updated_container(c: Json, name: Seq<char>, v: Json) -> Json {
    match c {
        Json::Object(_) => c,
        Json::Array(items) => match name_index(name) {
            Some(i) => if i < items.len() {
                Json::Array(items.update(i as int, v))
            } else {
                c
            },
            None => c,
        },
        _ => c,
    }
}

/// Updates the cached container of a variable that was set.
pub fn update_cached_container(container: &mut JsonValue, name: &str, new_val: JsonValue)
    ensures
        jv(*old(container)) is Object ==> jv(*final(container)) is Object && forall|k: Seq<char>| #[trigger] crate::json::get(jv(*final(container)), k) == if k == name@ {
            Some(jv(new_val))
        } else {
            crate::json::get(jv(*old(container)), k)
        },
        !(jv(*old(container)) is Object) ==> jv(*final(container)) == updated_container(jv(*old(container)), name@, jv(new_val)),
{
    match container {
        JsonValue::Object(_) => {
            container.set(string_of(chars_of(name).as_slice()), new_val);
        },
        JsonValue::Array(items) => {
            proof { lemma_jv_seq(items@); }
            match array_index_of(name) {
                Some(i) => {
                    if i < items.len() {
                        let ghost before = items@;
                        let ghost nv = jv(new_val);
                        items.set(i, new_val);
                        proof {
                            lemma_jv_seq(items@);
                            assert(jv_seq(items@) =~= jv_seq(before).update(i as int, nv));
                        }
                    }
                },
                None => {},
            }
        },
        _ => {},
    }
}

/// The jq filter an evaluated expression stands for: as written when it
/// starts with `.`, else with `.` in front.
pub fn jq_expression(expr: &str) -> (r: String)
    ensures
        r@ == if expr@.len() > 0 && expr@[0] == '.' { expr@ } else { seq!['.'] + expr@ },
{
    let v = chars_of(expr);
    if v.len() > 0 && v[0] == '.' {
        string_of(v.as_slice())
    } else {
        let mut out: Vec<char> = Vec::new();
        out.push('.');
        append(&mut out, v.as_slice());
        string_of(out.as_slice())
    }
}

/// The reply for a value that was evaluated or set: its preview, type and
/// counts as a child variable shows them; an object or array also takes the
/// next value of `counter`, and its reference is the thread's base plus
/// that value, while any other value has reference 0.
pub fn value_reply(value: &JsonValue, thread_id: u64, counter: &mut i64) -> (r: DebugVariable)
    requires
        0 <= *old(counter),
        thread_id as int * 100000 + *old(counter) + 1 <= i64::MAX,
    ensures
        complex(jv(*value)) ==> *final(counter) == *old(counter) + 1
            && var_model(r) == child_var(Seq::empty(), jv(*value), thread_id as int * 100000 + *old(counter) + 1),
        !complex(jv(*value)) ==> *final(counter) == *old(counter) && var_model(r) == child_var(Seq::empty(), jv(*value), 0),
{
    proof { reveal_strlit(""); }
    let empty = string_of(chars_of("").as_slice());
    assert(empty@ =~= Seq::<char>::empty());
    if is_complex(value) {
        *counter = *counter + 1;
        let r = (thread_id as i64) * VAR_REF_STRIDE + *counter;
        child_variable(empty, value, r)
    } else {
        child_variable(empty, value, 0)
    }
}

} // verus!
