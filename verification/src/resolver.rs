//! Resolution of step configuration references and selection of result
//! branches.

use vstd::prelude::*;
use crate::ast::{Variable, SourceLocation, TagExpr, ResultBranch, ResultBranchType};
use crate::json::{JsonValue, Json, jv, get, as_str, lemma_jv_seq};
use crate::modules::{ModuleRegistry, ModuleMetadata, import_target};
use crate::tags::{get_result_from_tag_expr, named_arg};
use crate::text::{chars_of, find, find_chars, sub_string, str_eq, trim, trim_chars, string_of};

verus! {

/// `alias::name` splits at the first `::`; anything else is a local name.
pub open spec fn scoped_ref(config: Seq<char>) -> (Option<Seq<char>>, Seq<char>) {
    match find(config, "::"@) {
        Some(i) => (Some(config.take(i)), config.skip(i + 2)),
        None => (None, config),
    }
}

/// Parses a scoped reference `namespace::name` or a plain `name`.
pub fn parse_scoped_ref(config: &str) -> (r: (Option<String>, String))
    ensures
        scoped_ref(config@) == (match r.0 {
            Some(s) => Some(s@),
            None => None::<Seq<char>>,
        }, r.1@),
{
    let v = chars_of(config);
    let sep = chars_of("::");
    let f = find_chars(v.as_slice(), sep.as_slice());
    proof {
        assert(sep@.len() == 2) by {
            reveal_strlit("::");
        }
    }
    match f {
        Some(i) => {
            assert(crate::text::occurs_at(v@, sep@, i as int));
            let n = v.len();
            assert(i + 2 <= n);
            let ns = sub_string(v.as_slice(), 0, i);
            let name = sub_string(v.as_slice(), i + 2, v.len());
            assert(ns@ =~= config@.take(i as int));
            assert(name@ =~= config@.skip(i + 2));
            (Some(ns), name)
        },
        None => {
            (None, sub_string(v.as_slice(), 0, v.len()))
        },
    }
}

/// A variable declared in a module, registered for the middleware that
/// reads it (its declaration kind, e.g. `pg`).
pub struct ScopedVariable {
    pub module_id: Option<usize>,
    pub middleware: String,
    pub variable: Variable,
}

/// The first variable registered under `(module_id, middleware, name)`.
pub open spec fn find_var(vars: Seq<ScopedVariable>, module_id: Option<usize>, middleware: Seq<char>, name: Seq<char>) -> Option<Variable>
    decreases vars.len(),
{
    if vars.len() == 0 {
        None
    } else if vars[0].module_id == module_id && vars[0].middleware@ == middleware && vars[0].variable.name@ == name {
        Some(vars[0].variable)
    } else {
        find_var(vars.drop_first(), module_id, middleware, name)
    }
}

/// The variable a step's configuration refers to. `alias::name` is looked up
/// in the module that the step's module imports as `alias`; a plain name in
/// the step's own module, then among variables registered without a module.
pub open spec fn resolve_variable(modules: Seq<ModuleMetadata>, vars: Seq<ScopedVariable>, module_id: Option<usize>, middleware: Seq<char>, config: Seq<char>) -> Option<Variable> {
    let (alias, name) = scoped_ref(config);
    match alias {
        Some(a) => match module_id {
            Some(mid) => if mid < modules.len() {
                match import_target(modules[mid as int].import_map@, a) {
                    Some(t) => find_var(vars, Some(t), middleware, name),
                    None => None,
                }
            } else {
                None
            },
            None => None,
        },
        None => match find_var(vars, module_id, middleware, name) {
            Some(v) => Some(v),
            None => if module_id is Some { find_var(vars, None, middleware, name) } else { None },
        },
    }
}

/// The input with `resultName` set to `name`, when it is an object without
/// one.
pub open spec fn auto_names(input: Json) -> bool {
    input is Object && get(input, "resultName"@) is None
}

fn lookup_var<'a>(vars: &'a Vec<ScopedVariable>, module_id: Option<usize>, middleware: &str, name: &str) -> (r: Option<&'a Variable>)
    ensures
        match r {
            Some(v) => find_var(vars@, module_id, middleware@, name@) == Some(*v),
            None => find_var(vars@, module_id, middleware@, name@) is None,
        },
{
    let mut i: usize = 0;
    assert(vars@.subrange(0, vars@.len() as int) =~= vars@);
    while i < vars.len()
        invariant
            i <= vars@.len(),
            find_var(vars@, module_id, middleware@, name@) == find_var(vars@.subrange(i as int, vars@.len() as int), module_id, middleware@, name@),
        decreases vars@.len() - i,
    {
        assert(vars@.subrange(i as int, vars@.len() as int).drop_first() =~= vars@.subrange(i + 1, vars@.len() as int));
        assert(vars@.subrange(i as int, vars@.len() as int)[0] == vars@[i as int]);
        let e = &vars[i];
        if e.module_id == module_id && str_eq(e.middleware.as_str(), middleware) && str_eq(e.variable.name.as_str(), name) {
            return Some(&e.variable);
        }
        i = i + 1;
    }
    None
}

/// Resolves a step's configuration: when it names a variable, returns the
/// variable's value and the input with `resultName` set to the variable's
/// name (if the input is an object without one), and whether that name was
/// added; otherwise returns the configuration and the input unchanged.
pub fn resolve_config_and_autoname(
    registry: &ModuleRegistry,
    variables: &Vec<ScopedVariable>,
    step_location: &SourceLocation,
    middleware_name: &str,
    step_config: &str,
    input: &JsonValue,
) -> (r: (String, JsonValue, bool))
    requires
        registry.wf(),
    ensures
        match resolve_variable(registry.spec_modules(), variables@, step_location.module_id, middleware_name@, step_config@) {
            Some(v) => {
                &&& r.0@ == v.value@
                &&& r.2 == auto_names(jv(*input))
                &&& r.2 ==> jv(r.1) is Object && forall|k: Seq<char>| #[trigger] get(jv(r.1), k) == if k == "resultName"@ {
                    Some(Json::Str(v.name@))
                } else {
                    get(jv(*input), k)
                }
                &&& !r.2 ==> jv(r.1) == jv(*input)
            },
            None => r.0@ == step_config@ && jv(r.1) == jv(*input) && !r.2,
        },
{
    let (alias, var_name) = parse_scoped_ref(step_config);
    let found: Option<&Variable> = match alias {
        Some(a) => {
            match step_location.module_id {
                Some(mid) => match registry.get_module(mid) {
                    Some(m) => match m.import(a.as_str()) {
                        Some(t) => lookup_var(variables, Some(t), middleware_name, var_name.as_str()),
                        None => None,
                    },
                    None => None,
                },
                None => None,
            }
        },
        None => {
            match lookup_var(variables, step_location.module_id, middleware_name, var_name.as_str()) {
                Some(v) => Some(v),
                None => {
                    if step_location.module_id.is_some() {
                        lookup_var(variables, None, middleware_name, var_name.as_str())
                    } else {
                        None
                    }
                },
            }
        },
    };
    match found {
        Some(var) => {
            let mut new_input = input.copy();
            let mut auto_named = false;
            if new_input.is_object() && new_input.get("resultName").is_none() {
                new_input.set(String::from_str("resultName"), JsonValue::Str(var.name.clone()));
                auto_named = true;
            }
            (var.value.clone(), new_input, auto_named)
        },
        None => {
            let c = chars_of(step_config);
            (sub_string(c.as_slice(), 0, c.len()), input.copy(), false)
        },
    }
}

/// The `type` of the first entry of an `errors` array.
pub open spec fn error_type_of(input: Json) -> Option<Seq<char>> {
    match get(input, "errors"@) {
        Some(Json::Array(items)) => if items.len() > 0 {
            match get(items[0], "type"@) {
                Some(t) => as_str(t),
                None => None,
            }
        } else {
            None
        },
        _ => None,
    }
}

/// The error type an input carries: `errors[0].type`.
pub fn extract_error_type(input: &JsonValue) -> (r: Option<String>)
    ensures
        match r {
            Some(s) => error_type_of(jv(*input)) == Some(s@),
            None => error_type_of(jv(*input)) is None,
        },
{
    let errors = match input.get("errors") {
        Some(e) => e,
        None => return None,
    };
    let items = match errors.as_array() {
        Some(a) => a,
        None => return None,
    };
    proof {
        lemma_jv_seq(items@);
    }
    if items.len() == 0 {
        return None;
    }
    match items[0].get("type") {
        Some(t) => match t.as_str() {
            Some(s) => Some(s.clone()),
            None => None,
        },
        None => None,
    }
}

/// The name a step's result is stored under: an `@result(name)` tag wins
/// (and the state's `resultName` stays), then the state's `resultName`
/// (removed afterwards when it was added automatically).
pub open spec fn target_name(condition: Option<TagExpr>, state: Json, auto_named: bool) -> (Option<Seq<char>>, bool) {
    match (match condition { Some(e) => named_arg(e, "result"@), None => None }) {
        Some(n) => (Some(n), false),
        None => match get(state, "resultName"@) {
            Some(v) => match as_str(v) {
                Some(s) => (Some(s), auto_named),
                None => (None, false),
            },
            None => (None, false),
        },
    }
}

/// Determines the result target name and whether to remove `resultName`.
pub fn determine_target_name(condition: &Option<TagExpr>, state: &JsonValue, auto_named: bool) -> (r: (Option<String>, bool))
    ensures
        target_name(*condition, jv(*state), auto_named) == (match r.0 {
            Some(s) => Some(s@),
            None => None::<Seq<char>>,
        }, r.1),
{
    match condition {
        Some(e) => match get_result_from_tag_expr(e) {
            Some(n) => return (Some(n), false),
            None => {},
        },
        None => {},
    }
    match state.get("resultName") {
        Some(v) => match v.as_str() {
            Some(s) => (Some(s.clone()), auto_named),
            None => (None, false),
        },
        None => (None, false),
    }
}

/// A branch of kind `Custom(error_type)`, `Success` or `Default`.
pub open spec fn branch_is_custom(b: ResultBranch, t: Seq<char>) -> bool {
    b.branch_type matches ResultBranchType::Custom(n) && n@ == t
}

/// The index of the first branch satisfying `p`.
pub open spec fn first_index(bs: Seq<ResultBranch>, p: spec_fn(ResultBranch) -> bool) -> Option<int> {
    if exists|i: int| 0 <= i < bs.len() && p(bs[i]) {
        Some(choose|i: int| 0 <= i < bs.len() && p(bs[i]) && forall|j: int| 0 <= j < i ==> !p(bs[j]))
    } else {
        None
    }
}

/// The branch a result step takes: with an error type, the first custom
/// branch of that name; without one, the first `ok` branch; failing that,
/// the first `default` branch.
pub open spec fn selected_branch(bs: Seq<ResultBranch>, error_type: Option<Seq<char>>) -> Option<int> {
    let preferred = match error_type {
        Some(t) => first_index(bs, |b: ResultBranch| branch_is_custom(b, t)),
        None => first_index(bs, |b: ResultBranch| b.branch_type is Success),
    };
    match preferred {
        Some(i) => Some(i),
        None => first_index(bs, |b: ResultBranch| b.branch_type is Default),
    }
}

proof fn lemma_first_index(bs: Seq<ResultBranch>, p: spec_fn(ResultBranch) -> bool, i: int)
    requires
        0 <= i < bs.len(),
        p(bs[i]),
        forall|j: int| 0 <= j < i ==> !p(bs[j]),
    ensures
        first_index(bs, p) == Some(i),
{
    let w = choose|k: int| 0 <= k < bs.len() && p(bs[k]) && forall|j: int| 0 <= j < k ==> !p(bs[j]);
    assert(w == i) by {
        if w < i {
            assert(!p(bs[w]));
        } else if w > i {
            assert(!p(bs[i]));
        }
    }
}

fn find_branch(branches: &[ResultBranch], want: u8, error_type: &String) -> (r: Option<usize>)
    requires
        want < 3,
    ensures
        ({
            let p = if want == 0 {
                |b: ResultBranch| branch_is_custom(b, error_type@)
            } else if want == 1 {
                |b: ResultBranch| b.branch_type is Success
            } else {
                |b: ResultBranch| b.branch_type is Default
            };
            match r {
                Some(i) => i < branches@.len() && first_index(branches@, p) == Some(i as int),
                None => first_index(branches@, p) is None,
            }
        }),
{
    let ghost p = if want == 0 {
        |b: ResultBranch| branch_is_custom(b, error_type@)
    } else if want == 1 {
        |b: ResultBranch| b.branch_type is Success
    } else {
        |b: ResultBranch| b.branch_type is Default
    };
    let mut i: usize = 0;
    while i < branches.len()
        invariant
            want < 3,
            p == (if want == 0 {
                |b: ResultBranch| branch_is_custom(b, error_type@)
            } else if want == 1 {
                |b: ResultBranch| b.branch_type is Success
            } else {
                |b: ResultBranch| b.branch_type is Default
            }),
            i <= branches@.len(),
            forall|j: int| 0 <= j < i ==> !p(branches@[j]),
        decreases branches@.len() - i,
    {
        let hit = match &branches[i].branch_type {
            ResultBranchType::Custom(n) => want == 0 && str_eq(n.as_str(), error_type.as_str()),
            ResultBranchType::Success => want == 1,
            ResultBranchType::Default => want == 2,
        };
        if hit {
            proof {
                lemma_first_index(branches@, p, i as int);
            }
            return Some(i);
        }
        i = i + 1;
    }
    None
}

/// Chooses the branch a result step takes for the given error type.
pub fn select_branch<'a>(branches: &'a [ResultBranch], error_type: &Option<String>) -> (r: Option<&'a ResultBranch>)
    ensures
        match selected_branch(branches@, match error_type { Some(t) => Some(t@), None => None }) {
            Some(i) => r == Some(&branches@[i]),
            None => r is None,
        },
{
    let empty = String::new();
    let preferred = match error_type {
        Some(t) => find_branch(branches, 0, t),
        None => find_branch(branches, 1, &empty),
    };
    match preferred {
        Some(i) => Some(&branches[i]),
        None => match find_branch(branches, 2, &empty) {
            Some(i) => Some(&branches[i]),
            None => None,
        },
    }
}


/// The module a `pipeline:` step's reference names, and the pipeline's
/// name in it: `alias::name` looks the alias up in the imports of the
/// step's module (nothing when the step has no module or the alias is not
/// imported); a plain name stays in the step's module.
pub open spec fn pipeline_target(modules: Seq<ModuleMetadata>, config: Seq<char>, step_module: Option<usize>) -> (Option<usize>, Seq<char>) {
    let (alias, name) = scoped_ref(trim(config));
    match alias {
        Some(a) => (match step_module {
            Some(id) => if id < modules.len() {
                import_target(modules[id as int].import_map@, a)
            } else {
                None
            },
            None => None,
        }, name),
        None => (step_module, name),
    }
}

/// Resolves the pipeline a `pipeline:` step (or an async one) calls.
pub fn resolve_pipeline_ref(registry: &ModuleRegistry, config: &str, step_module: Option<usize>) -> (r: (Option<usize>, String))
    requires
        registry.wf(),
    ensures
        pipeline_target(registry.spec_modules(), config@, step_module) == (r.0, r.1@),
{
    let t = string_of(trim_chars(chars_of(config).as_slice()).as_slice());
    let (alias, name) = parse_scoped_ref(t.as_str());
    match alias {
        Some(a) => {
            let m = match step_module {
                Some(id) => match registry.get_module(id) {
                    Some(md) => md.import(a.as_str()),
                    None => None,
                },
                None => None,
            };
            (m, name)
        },
        None => (step_module, name),
    }
}

/// The input a called pipeline receives from its argument's value: when
/// both the step's input and the value are objects, the input's members
/// with the value's members set over them; else the value itself.
pub open spec fn merged_input(out: Json, input: Json, arg: Json) -> bool {
    if input is Object && arg is Object {
        &&& out is Object
        &&& forall|k: Seq<char>| #[trigger] get(out, k) == match get(arg, k) {
            Some(v) => Some(v),
            None => get(input, k),
        }
    } else {
        out == arg
    }
}

/// Merges a pipeline argument's value into the step's input.
pub fn merge_pipeline_input(input: &JsonValue, arg: JsonValue) -> (r: JsonValue)
    ensures
        merged_input(jv(r), jv(*input), jv(arg)),
{
    match (input, &arg) {
        (JsonValue::Object(_), JsonValue::Object(entries)) => {
            let mut merged = input.copy();
            let ghost e = crate::json::jv_entries(entries@);
            proof { crate::json::lemma_jv_entries(entries@); }
            let mut j: usize = entries.len();
            assert(e.skip(e.len() as int) =~= Seq::<(Seq<char>, Json)>::empty());
            while j > 0
                invariant
                    jv(merged) is Object,
                    jv(*input) is Object,
                    jv(arg) == Json::Object(e),
                    arg == JsonValue::Object(*entries),
                    e.len() == entries@.len(),
                    forall|m: int| 0 <= m < entries@.len() ==> #[trigger] e[m] == (entries@[m].0@, jv(entries@[m].1)),
                    j <= entries@.len(),
                    forall|k: Seq<char>| #[trigger] get(jv(merged), k) == match crate::json::lookup(e.skip(j as int), k) {
                        Some(v) => Some(v),
                        None => get(jv(*input), k),
                    },
                decreases j,
            {
                let ghost before = jv(merged);
                let key = entries[j - 1].0.clone();
                let val = entries[j - 1].1.copy();
                merged.set(key, val);
                proof {
                    assert(e.skip(j - 1).drop_first() =~= e.skip(j as int));
                    assert(e.skip(j - 1)[0] == e[j - 1]);
                    assert forall|k: Seq<char>| #[trigger] get(jv(merged), k) == match crate::json::lookup(e.skip(j - 1), k) {
                        Some(v) => Some(v),
                        None => get(jv(*input), k),
                    } by {
                        assert(get(before, k) == match crate::json::lookup(e.skip(j as int), k) {
                            Some(v) => Some(v),
                            None => get(jv(*input), k),
                        });
                    }
                }
                j = j - 1;
            }
            assert(e.skip(0) =~= e);
            merged
        },
        _ => arg,
    }
}

} // verus!
