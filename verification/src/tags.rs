//! Evaluation of step conditions (tag expressions) and extraction of the
//! tags that change how a step runs.

use vstd::prelude::*;
use crate::ast::{Tag, TagExpr};
use crate::text::str_eq;

verus! {

/// What a request offers to the evaluation of tags: the deployment
/// environment, the request's feature flags and transient conditions, and
/// the truthiness of each `@guard` filter on the step's input.
///
/// A guard filter without an entry in `guard_results` is one whose
/// evaluation failed.
pub struct TagContext {
    pub environment: Option<String>,
    pub feature_flags: Vec<(String, bool)>,
    pub conditions: Vec<(String, bool)>,
    pub guard_results: Vec<(String, bool)>,
}

/// The value stored under `k` in an association list (first match).
pub open spec fn assoc(s: Seq<(String, bool)>, k: Seq<char>) -> Option<bool>
    decreases s.len(),
{
    if s.len() == 0 {
        None
    } else if s[0].0@ == k {
        Some(s[0].1)
    } else {
        assoc(s.drop_first(), k)
    }
}

/// A flag or condition is set when it is present and true (fail closed).
pub open spec fn is_set(s: Seq<(String, bool)>, k: Seq<char>) -> bool {
    assoc(s, k) == Some(true)
}

/// Every argument is set (or, for a negated tag, every argument is unset).
pub open spec fn all_match(table: Seq<(String, bool)>, args: Seq<String>, negated: bool) -> bool {
    forall|i: int| 0 <= i < args.len() ==> is_set(table, (#[trigger] args[i])@) != negated
}

/// Whether a single tag lets its step run.
pub open spec fn tag_holds(ctx: TagContext, t: Tag) -> bool {
    if t.name@ == "env"@ {
        if t.args.len() != 1 {
            true
        } else {
            match ctx.environment {
                Some(e) => (e@ == t.args[0]@) != t.negated,
                None => !t.negated,
            }
        }
    } else if t.name@ == "flag"@ {
        t.args.len() == 0 || all_match(ctx.feature_flags@, t.args@, t.negated)
    } else if t.name@ == "when"@ {
        t.args.len() == 0 || all_match(ctx.conditions@, t.args@, t.negated)
    } else if t.name@ == "guard"@ {
        if t.args.len() == 0 {
            true
        } else {
            match assoc(ctx.guard_results@, t.args[0]@) {
                Some(b) => b != t.negated,
                None => false,
            }
        }
    } else {
        true
    }
}

/// Whether a tag expression lets its step run: `and` is conjunction,
/// `or` is disjunction.
pub open spec fn expr_holds(ctx: TagContext, e: TagExpr) -> bool
    decreases e,
{
    match e {
        TagExpr::Tag(t) => tag_holds(ctx, t),
        TagExpr::And(l, r) => expr_holds(ctx, *l) && expr_holds(ctx, *r),
        TagExpr::Or(l, r) => expr_holds(ctx, *l) || expr_holds(ctx, *r),
    }
}

/// Looks `k` up in an association list.
pub fn assoc_get(s: &Vec<(String, bool)>, k: &str) -> (r: Option<bool>)
    ensures
        r == assoc(s@, k@),
{
    let mut i: usize = 0;
    assert(s@.subrange(0, s@.len() as int) =~= s@);
    while i < s.len()
        invariant
            i <= s@.len(),
            assoc(s@, k@) == assoc(s@.subrange(i as int, s@.len() as int), k@),
        decreases s@.len() - i,
    {
        assert(s@.subrange(i as int, s@.len() as int).drop_first() =~= s@.subrange(i + 1, s@.len() as int));
        if str_eq(s[i].0.as_str(), k) {
            return Some(s[i].1);
        }
        i = i + 1;
    }
    None
}

/// All arguments of a `@flag`/`@when` tag match the table.
fn check_all(table: &Vec<(String, bool)>, args: &Vec<String>, negated: bool) -> (b: bool)
    ensures
        b == all_match(table@, args@, negated),
{
    let mut i: usize = 0;
    while i < args.len()
        invariant
            i <= args@.len(),
            forall|j: int| 0 <= j < i ==> is_set(table@, (#[trigger] args@[j])@) != negated,
        decreases args@.len() - i,
    {
        let v = assoc_get(table, args[i].as_str());
        let set = match v {
            Some(x) => x,
            None => false,
        };
        if set == negated {
            return false;
        }
        i = i + 1;
    }
    true
}

/// `@env(name)`: runs when the environment is (or, negated, is not) `name`;
/// with no environment set only non-negated tags run; a tag without
/// exactly one argument never stops a step.
pub fn check_env_tag(tag: &Tag, environment: &Option<String>) -> (b: bool)
    ensures
        tag.args@.len() != 1 ==> b,
        tag.args@.len() == 1 ==> b == match environment {
            Some(e) => (e@ == tag.args@[0]@) != tag.negated,
            None => !tag.negated,
        },
{
    if tag.args.len() != 1 {
        return true;
    }
    match environment {
        Some(e) => {
            let matches = str_eq(e.as_str(), tag.args[0].as_str());
            if tag.negated { !matches } else { matches }
        },
        None => !tag.negated,
    }
}

/// `@flag(a, b)`: runs when every flag is enabled (negated: every flag is
/// disabled); a missing flag counts as disabled; no arguments never stops
/// a step.
pub fn check_flag_tag(tag: &Tag, feature_flags: &Vec<(String, bool)>) -> (b: bool)
    ensures
        b == (tag.args@.len() == 0 || all_match(feature_flags@, tag.args@, tag.negated)),
{
    if tag.args.len() == 0 {
        return true;
    }
    check_all(feature_flags, &tag.args, tag.negated)
}

/// `@when(a, b)`: like `@flag`, against the request's transient conditions.
pub fn check_when_tag(tag: &Tag, conditions: &Vec<(String, bool)>) -> (b: bool)
    ensures
        b == (tag.args@.len() == 0 || all_match(conditions@, tag.args@, tag.negated)),
{
    if tag.args.len() == 0 {
        return true;
    }
    check_all(conditions, &tag.args, tag.negated)
}

/// `@guard(filter)`: runs when the filter's result on the input is truthy
/// (negated: falsy); a filter that failed to evaluate stops the step; no
/// argument never stops a step.
pub fn check_guard_tag(tag: &Tag, guard_results: &Vec<(String, bool)>, negated: bool) -> (b: bool)
    ensures
        tag.args@.len() == 0 ==> b,
        tag.args@.len() > 0 ==> b == match assoc(guard_results@, tag.args@[0]@) {
            Some(r) => r != negated,
            None => false,
        },
{
    if tag.args.len() == 0 {
        return true;
    }
    match assoc_get(guard_results, tag.args[0].as_str()) {
        Some(r) => if negated { !r } else { r },
        None => false,
    }
}

/// Whether one tag lets its step run.
pub fn check_tag(tag: &Tag, ctx: &TagContext) -> (b: bool)
    ensures
        b == tag_holds(*ctx, *tag),
{
    if str_eq(tag.name.as_str(), "env") {
        check_env_tag(tag, &ctx.environment)
    } else if str_eq(tag.name.as_str(), "flag") {
        check_flag_tag(tag, &ctx.feature_flags)
    } else if str_eq(tag.name.as_str(), "when") {
        check_when_tag(tag, &ctx.conditions)
    } else if str_eq(tag.name.as_str(), "guard") {
        check_guard_tag(tag, &ctx.guard_results, tag.negated)
    } else {
        true
    }
}

/// Whether a tag expression lets its step run.
pub fn check_tag_expr(expr: &TagExpr, ctx: &TagContext) -> (b: bool)
    ensures
        b == expr_holds(*ctx, *expr),
    decreases expr,
{
    match expr {
        TagExpr::Tag(t) => check_tag(t, ctx),
        TagExpr::And(l, r) => check_tag_expr(l, ctx) && check_tag_expr(r, ctx),
        TagExpr::Or(l, r) => check_tag_expr(l, ctx) || check_tag_expr(r, ctx),
    }
}

/// A step without a condition always runs.
pub fn should_execute_step(condition: &Option<TagExpr>, ctx: &TagContext) -> (b: bool)
    ensures
        b == match condition {
            None => true,
            Some(e) => expr_holds(*ctx, *e),
        },
{
    match condition {
        None => true,
        Some(e) => check_tag_expr(e, ctx),
    }
}

/// The single argument of the leftmost non-negated `@name(arg)` tag.
pub open spec fn named_arg(e: TagExpr, name: Seq<char>) -> Option<Seq<char>>
    decreases e,
{
    match e {
        TagExpr::Tag(t) => if t.name@ == name && !t.negated && t.args.len() == 1 {
            Some(t.args[0]@)
        } else {
            None
        },
        TagExpr::And(l, r) => match named_arg(*l, name) {
            Some(x) => Some(x),
            None => named_arg(*r, name),
        },
        TagExpr::Or(l, r) => match named_arg(*l, name) {
            Some(x) => Some(x),
            None => named_arg(*r, name),
        },
    }
}

fn find_named_arg(expr: &TagExpr, name: &str) -> (r: Option<String>)
    ensures
        match r {
            Some(s) => named_arg(*expr, name@) == Some(s@),
            None => named_arg(*expr, name@) is None,
        },
    decreases expr,
{
    match expr {
        TagExpr::Tag(t) => {
            if str_eq(t.name.as_str(), name) && !t.negated && t.args.len() == 1 {
                Some(t.args[0].clone())
            } else {
                None
            }
        },
        TagExpr::And(l, r) => match find_named_arg(l, name) {
            Some(x) => Some(x),
            None => find_named_arg(r, name),
        },
        TagExpr::Or(l, r) => match find_named_arg(l, name) {
            Some(x) => Some(x),
            None => find_named_arg(r, name),
        },
    }
}

/// The task name of the leftmost `@async(name)` tag.
pub fn get_async_from_tag_expr(expr: &TagExpr) -> (r: Option<String>)
    ensures
        match r {
            Some(s) => named_arg(*expr, "async"@) == Some(s@),
            None => named_arg(*expr, "async"@) is None,
        },
{
    find_named_arg(expr, "async")
}

/// The target name of the leftmost `@result(name)` tag.
pub fn get_result_from_tag_expr(expr: &TagExpr) -> (r: Option<String>)
    ensures
        match r {
            Some(s) => named_arg(*expr, "result"@) == Some(s@),
            None => named_arg(*expr, "result"@) is None,
        },
{
    find_named_arg(expr, "result")
}

/// The filters of all `@guard` tags in an expression, left to right: the
/// filters whose results a `TagContext` needs.
pub open spec fn guard_filters(e: TagExpr) -> Seq<Seq<char>>
    decreases e,
{
    match e {
        TagExpr::Tag(t) => if t.name@ == "guard"@ && t.args.len() > 0 {
            seq![t.args[0]@]
        } else {
            Seq::empty()
        },
        TagExpr::And(l, r) => guard_filters(*l) + guard_filters(*r),
        TagExpr::Or(l, r) => guard_filters(*l) + guard_filters(*r),
    }
}

/// Collects the `@guard` filters of an expression.
pub fn collect_guard_filters(expr: &TagExpr, out: &mut Vec<String>)
    ensures
        final(out)@.map_values(|s: String| s@) == old(out)@.map_values(|s: String| s@) + guard_filters(*expr),
    decreases expr,
{
    match expr {
        TagExpr::Tag(t) => {
            if str_eq(t.name.as_str(), "guard") && t.args.len() > 0 {
                let ghost before = out@;
                out.push(t.args[0].clone());
                assert(out@.map_values(|s: String| s@) =~= before.map_values(|s: String| s@) + guard_filters(*expr));
            } else {
                assert(out@.map_values(|s: String| s@) =~= out@.map_values(|s: String| s@) + guard_filters(*expr));
            }
        },
        TagExpr::And(l, r) => {
            collect_guard_filters(l, out);
            collect_guard_filters(r, out);
            assert(guard_filters(*expr) == guard_filters(**l) + guard_filters(**r));
            assert(out@.map_values(|s: String| s@) =~= old(out)@.map_values(|s: String| s@) + guard_filters(*expr));
        },
        TagExpr::Or(l, r) => {
            collect_guard_filters(l, out);
            collect_guard_filters(r, out);
            assert(guard_filters(*expr) == guard_filters(**l) + guard_filters(**r));
            assert(out@.map_values(|s: String| s@) =~= old(out)@.map_values(|s: String| s@) + guard_filters(*expr));
        },
    }
}

/// The tag with its negation flipped.
pub open spec fn negate(t: Tag) -> Tag {
    Tag { name: t.name, negated: !t.negated, args: t.args }
}

/// Law: for a one-argument `@env`, `@flag`, `@when` or `@guard` tag, the
/// negated tag runs exactly when the plain one does not, provided the
/// environment is set (for `@env`) and the guard filter evaluated (for
/// `@guard`).
pub proof fn law_negation_flips(ctx: TagContext, t: Tag)
    requires
        t.args.len() == 1,
        t.name@ == "env"@ || t.name@ == "flag"@ || t.name@ == "when"@ || t.name@ == "guard"@,
        t.name@ == "env"@ ==> ctx.environment is Some,
        t.name@ == "guard"@ ==> assoc(ctx.guard_results@, t.args[0]@) is Some,
    ensures
        tag_holds(ctx, negate(t)) == !tag_holds(ctx, t),
{
    let n = negate(t);
    assert(n.args@ == t.args@);
    if t.name@ == "flag"@ || t.name@ == "when"@ {
        let table = if t.name@ == "flag"@ { ctx.feature_flags@ } else { ctx.conditions@ };
        assert(all_match(table, t.args@, t.negated) == (is_set(table, t.args@[0]@) != t.negated));
        assert(all_match(table, n.args@, n.negated) == (is_set(table, t.args@[0]@) != n.negated));
    }
}

/// Law: `a and b` runs exactly when both run; `a or b` when either runs.
pub proof fn law_connectives(ctx: TagContext, a: TagExpr, b: TagExpr)
    ensures
        expr_holds(ctx, TagExpr::And(Box::new(a), Box::new(b))) == (expr_holds(ctx, a) && expr_holds(ctx, b)),
        expr_holds(ctx, TagExpr::Or(Box::new(a), Box::new(b))) == (expr_holds(ctx, a) || expr_holds(ctx, b)),
{
}

/// Law: tags the runtime does not interpret (`@async`, `@needs`, `@result`,
/// unknown names) never stop a step.
pub proof fn law_other_tags_run(ctx: TagContext, t: Tag)
    requires
        t.name@ != "env"@,
        t.name@ != "flag"@,
        t.name@ != "when"@,
        t.name@ != "guard"@,
    ensures
        tag_holds(ctx, t),
{
}


/// Law: a `@flag` tag with arguments lets its step run exactly when every
/// listed flag is enabled (a flag missing from the table counts as
/// disabled); `@!flag(..)` exactly when every listed flag is disabled. So a
/// single flag that goes the other way stops the step: `@flag(a,b)` with
/// `a` on and `b` off does not run.
pub proof fn law_flag_needs_every_flag(ctx: TagContext, t: Tag)
    requires
        t.name@ == "flag"@,
        t.args.len() > 0,
    ensures
        tag_holds(ctx, t) <==> forall|i: int| 0 <= i < t.args@.len()
            ==> (assoc(ctx.feature_flags@, (#[trigger] t.args@[i])@) == Some(true)) != t.negated,
        forall|i: int| 0 <= i < t.args@.len()
            && (assoc(ctx.feature_flags@, (#[trigger] t.args@[i])@) == Some(true)) == t.negated
            ==> !tag_holds(ctx, t),
{
    reveal_strlit("flag");
    reveal_strlit("env");
    assert("flag"@ != "env"@) by {
        assert("flag"@[0] != "env"@[0]);
    }
}

/// Law: a `@when` tag with arguments lets its step run exactly when every
/// listed condition is set for the request (a missing one counts as
/// unset); `@!when(..)` exactly when every listed condition is unset.
pub proof fn law_when_needs_every_condition(ctx: TagContext, t: Tag)
    requires
        t.name@ == "when"@,
        t.args.len() > 0,
    ensures
        tag_holds(ctx, t) <==> forall|i: int| 0 <= i < t.args@.len()
            ==> (assoc(ctx.conditions@, (#[trigger] t.args@[i])@) == Some(true)) != t.negated,
        forall|i: int| 0 <= i < t.args@.len()
            && (assoc(ctx.conditions@, (#[trigger] t.args@[i])@) == Some(true)) == t.negated
            ==> !tag_holds(ctx, t),
{
    reveal_strlit("when");
    reveal_strlit("env");
    reveal_strlit("flag");
    assert("when"@ != "env"@ && "when"@ != "flag"@) by {
        assert("when"@[0] != "env"@[0] && "when"@[0] != "flag"@[0]);
    }
}


/// Law: `@env(name)` lets its step run exactly when the environment is
/// `name` (`@!env(name)`: when it is not); with no environment set, the
/// plain tag runs and the negated one does not.
pub proof fn law_env_matches_environment(ctx: TagContext, t: Tag)
    requires
        t.name@ == "env"@,
        t.args.len() == 1,
    ensures
        ctx.environment matches Some(e) ==> (tag_holds(ctx, t) <==> (e@ == t.args@[0]@) != t.negated),
        ctx.environment is None ==> (tag_holds(ctx, t) <==> !t.negated),
{
}

/// Law: `@guard(filter)` lets its step run exactly when the filter's
/// result was recorded as true (`@!guard(filter)`: as false); a filter
/// with no recorded result stops the step either way.
pub proof fn law_guard_needs_its_result(ctx: TagContext, t: Tag)
    requires
        t.name@ == "guard"@,
        t.args.len() > 0,
    ensures
        tag_holds(ctx, t) <==> (assoc(ctx.guard_results@, t.args@[0]@) == Some(!t.negated)),
{
    reveal_strlit("guard");
    reveal_strlit("env");
    reveal_strlit("flag");
    reveal_strlit("when");
    assert("guard"@ != "env"@ && "guard"@ != "flag"@ && "guard"@ != "when"@) by {
        assert("guard"@[0] != "env"@[0] && "guard"@[0] != "flag"@[0] && "guard"@[0] != "when"@[0]);
    }
}

} // verus!
