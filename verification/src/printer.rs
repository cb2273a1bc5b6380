//! Printing a syntax tree back as `.wp` text.
//!
//! Each kind of node has a spec function giving its text; the printers
//! append exactly that text to a buffer.

use vstd::prelude::*;
use crate::ast::{Program, Config, ConfigProperty, ConfigValue, NamedPipeline, Variable, Route, PipelineRef, Pipeline,
    ConfigType, LetValueFormat, Tag, TagExpr, PipelineStep, DispatchBranch, ResultBranch, ResultBranchType, Describe,
    Mock, It, When, Condition, ConditionType, DomAssertType, GraphQLSchema, QueryResolver, MutationResolver,
    TypeResolver};
use crate::text::{dec, dec_int, join, replace_char, char_index, append, append_str, u64_to_chars, i64_to_chars,
    string_of, chars_of, str_eq, replace_char_exec, scan_to_char, slice_chars, lemma_char_index, lemma_join_push};

verus! {

broadcast use vstd::std_specs::vec::group_vec_axioms;

/// What `char::is_alphanumeric` answers for `c`.
pub uninterp spec fn alphanumeric(c: char) -> bool;

/// `char::is_alphanumeric`: alphabetic or numeric in Unicode's sense. The
/// contract names the answer, and states the ASCII part: ASCII letters and
/// digits are alphanumeric, other ASCII characters are not.
#[verifier::external_body]
fn is_alphanumeric(c: char) -> (b: bool)
    ensures
        b == alphanumeric(c),
        crate::text::is_alnum(c) ==> b,
        (c as u32) < 128 && !crate::text::is_alnum(c) ==> !b,
{
    c.is_alphanumeric()
}

/// `s` in double quotes.
pub open spec fn quoted(s: Seq<char>) -> Seq<char> {
    "\""@ + s + "\""@
}

/// `s` in backticks.
pub open spec fn ticked(s: Seq<char>) -> Seq<char> {
    "`"@ + s + "`"@
}

/// The text of a config value.
pub open spec fn config_value_text(v: ConfigValue) -> Seq<char> {
    match v {
        ConfigValue::String(s) => quoted(s@),
        ConfigValue::EnvVar { var, default } => match default {
            Some(d) => "$"@ + var@ + " || "@ + quoted(d@),
            None => "$"@ + var@,
        },
        ConfigValue::Boolean(b) => if b { "true"@ } else { "false"@ },
        ConfigValue::Number(n) => dec_int(n as int),
    }
}

/// The text of the first `n` properties of a config block, one per line.
pub open spec fn props_text(ps: Seq<ConfigProperty>, n: int) -> Seq<char>
    decreases n,
{
    if n <= 0 || n > ps.len() {
        Seq::empty()
    } else {
        props_text(ps, n - 1) + "  "@ + ps[n - 1].key@ + ": "@ + config_value_text(ps[n - 1].value) + "\n"@
    }
}

/// The text of a config block.
pub open spec fn config_text(c: Config) -> Seq<char> {
    "config "@ + c.name@ + " {\n"@ + props_text(c.properties@, c.properties@.len() as int) + "}"@
}

/// A character a tag argument may hold without backticks: a letter or
/// digit (for ASCII, `a`-`z`, `A`-`Z` and `0`-`9`; beyond ASCII, what
/// Unicode counts as alphanumeric), `_` or `-`.
pub open spec fn bare_arg_char(c: char) -> bool {
    if (c as u32) < 128 {
        crate::text::is_alnum(c) || c == '_' || c == '-'
    } else {
        alphanumeric(c)
    }
}

/// A tag argument is written in backticks when it holds a character that
/// is neither alphanumeric nor `_` nor `-`.
pub open spec fn arg_text(a: Seq<char>) -> Seq<char> {
    if exists|i: int| 0 <= i < a.len() && !bare_arg_char(#[trigger] a[i]) {
        ticked(a)
    } else {
        a
    }
}

/// The text of a tag: `@`, `!` when negated, the name, and its arguments
/// in brackets separated by commas.
pub open spec fn tag_text(t: Tag) -> Seq<char> {
    "@"@ + (if t.negated { "!"@ } else { Seq::empty() }) + t.name@ + if t.args@.len() == 0 {
        Seq::empty()
    } else {
        "("@ + join(t.args@.map_values(|a: String| arg_text(a@)), ","@) + ")"@
    }
}

/// The text of a tag expression; an `or` inside an `and` is bracketed.
pub open spec fn expr_text(e: TagExpr) -> Seq<char>
    decreases e,
{
    match e {
        TagExpr::Tag(t) => tag_text(t),
        TagExpr::And(l, r) => (if *l is Or {
            "("@ + expr_text(*l) + ")"@
        } else {
            expr_text(*l)
        }) + " and "@ + (if *r is Or {
            "("@ + expr_text(*r) + ")"@
        } else {
            expr_text(*r)
        }),
        TagExpr::Or(l, r) => expr_text(*l) + " or "@ + expr_text(*r),
    }
}

/// Appends the text of a config value.
pub fn config_value_into(out: &mut Vec<char>, v: &ConfigValue)
    ensures
        final(out)@ == old(out)@ + config_value_text(*v),
{
    proof {
        reveal_strlit("\"");
        reveal_strlit("$");
        reveal_strlit(" || ");
        reveal_strlit("true");
        reveal_strlit("false");
    }
    match v {
        ConfigValue::String(s) => {
            append_str(out, "\"");
            append_str(out, s.as_str());
            append_str(out, "\"");
        },
        ConfigValue::EnvVar { var, default } => {
            append_str(out, "$");
            append_str(out, var.as_str());
            match default {
                Some(d) => {
                    append_str(out, " || ");
                    append_str(out, "\"");
                    append_str(out, d.as_str());
                    append_str(out, "\"");
                },
                None => {},
            }
        },
        ConfigValue::Boolean(b) => {
            if *b {
                append_str(out, "true");
            } else {
                append_str(out, "false");
            }
        },
        ConfigValue::Number(n) => {
            let d = i64_to_chars(*n);
            append(out, d.as_slice());
        },
    }
    proof {
        assert(final(out)@ =~= old(out)@ + config_value_text(*v));
    }
}

/// Appends the text of a config block.
pub fn config_into(out: &mut Vec<char>, c: &Config)
    ensures
        final(out)@ == old(out)@ + config_text(*c),
{
    proof {
        reveal_strlit("config ");
        reveal_strlit(" {\n");
        reveal_strlit("  ");
        reveal_strlit(": ");
        reveal_strlit("\n");
        reveal_strlit("}");
    }
    let ghost base = out@;
    append_str(out, "config ");
    append_str(out, c.name.as_str());
    append_str(out, " {\n");
    let ghost head = out@;
    let mut k: usize = 0;
    while k < c.properties.len()
        invariant
            k <= c.properties@.len(),
            out@ == head + props_text(c.properties@, k as int),
        decreases c.properties@.len() - k,
    {
        let ghost before = out@;
        append_str(out, "  ");
        append_str(out, c.properties[k].key.as_str());
        append_str(out, ": ");
        config_value_into(out, &c.properties[k].value);
        append_str(out, "\n");
        k = k + 1;
        assert(out@ =~= head + props_text(c.properties@, k as int));
    }
    append_str(out, "}");
    assert(out@ =~= base + config_text(*c));
}

/// Whether a tag argument needs backticks.
fn needs_ticks(a: &String) -> (b: bool)
    ensures
        b == exists|i: int| 0 <= i < a@.len() && !bare_arg_char(#[trigger] a@[i]),
{
    let v = chars_of(a.as_str());
    let mut k: usize = 0;
    while k < v.len()
        invariant
            v@ == a@,
            k <= v@.len(),
            forall|i: int| 0 <= i < k ==> bare_arg_char(#[trigger] v@[i]),
        decreases v@.len() - k,
    {
        let c = v[k];
        let bare = is_alphanumeric(c) || c == '_' || c == '-';
        assert(bare == bare_arg_char(c)) by {
            if (c as u32) >= 128 {
                assert(c != '_' && c != '-');
            }
        }
        if !bare {
            assert(!bare_arg_char(a@[k as int]));
            return true;
        }
        k = k + 1;
    }
    false
}

/// Appends the text of a tag.
pub fn tag_into(out: &mut Vec<char>, t: &Tag)
    ensures
        final(out)@ == old(out)@ + tag_text(*t),
{
    proof {
        reveal_strlit("@");
        reveal_strlit("!");
        reveal_strlit("(");
        reveal_strlit(")");
        reveal_strlit(",");
        reveal_strlit("`");
    }
    let ghost base = out@;
    append_str(out, "@");
    if t.negated {
        append_str(out, "!");
    }
    append_str(out, t.name.as_str());
    if t.args.len() > 0 {
        append_str(out, "(");
        let ghost parts = t.args@.map_values(|a: String| arg_text(a@));
        let ghost head = out@;
        let mut k: usize = 0;
        while k < t.args.len()
            invariant
                k <= t.args@.len(),
                parts == t.args@.map_values(|a: String| arg_text(a@)),
                out@ == head + join(parts.take(k as int), ","@),
            decreases t.args@.len() - k,
        {
            proof { lemma_join_push(parts.take(k as int), parts[k as int], ","@); }
            if k > 0 {
                append_str(out, ",");
            }
            if needs_ticks(&t.args[k]) {
                append_str(out, "`");
                append_str(out, t.args[k].as_str());
                append_str(out, "`");
            } else {
                append_str(out, t.args[k].as_str());
            }
            assert(parts.take(k + 1) =~= parts.take(k as int).push(parts[k as int]));
            k = k + 1;
            assert(out@ =~= head + join(parts.take(k as int), ","@));
        }
        assert(parts.take(t.args@.len() as int) =~= parts);
        append_str(out, ")");
    }
    assert(out@ =~= base + tag_text(*t));
}

/// Appends the text of a tag expression.
pub fn expr_into(out: &mut Vec<char>, e: &TagExpr)
    ensures
        final(out)@ == old(out)@ + expr_text(*e),
    decreases e,
{
    proof {
        reveal_strlit("(");
        reveal_strlit(")");
        reveal_strlit(" and ");
        reveal_strlit(" or ");
    }
    let ghost base = out@;
    match e {
        TagExpr::Tag(t) => {
            tag_into(out, t);
        },
        TagExpr::And(l, r) => {
            let lo = matches!(**l, TagExpr::Or(_, _));
            if lo {
                append_str(out, "(");
                expr_into(out, l);
                append_str(out, ")");
            } else {
                expr_into(out, l);
            }
            append_str(out, " and ");
            let ro = matches!(**r, TagExpr::Or(_, _));
            if ro {
                append_str(out, "(");
                expr_into(out, r);
                append_str(out, ")");
            } else {
                expr_into(out, r);
            }
        },
        TagExpr::Or(l, r) => {
            expr_into(out, l);
            append_str(out, " or ");
            expr_into(out, r);
        },
    }
    assert(out@ =~= base + expr_text(*e));
}


/// A step configuration as it was written: in backticks, in quotes, or
/// bare.
pub open spec fn config_as_written(config: Seq<char>, t: ConfigType) -> Seq<char> {
    match t {
        ConfigType::Backtick => ticked(config),
        ConfigType::Quoted => quoted(config),
        ConfigType::Identifier => config,
    }
}

/// The name a result branch is written with.
pub open spec fn branch_name(t: ResultBranchType) -> Seq<char> {
    match t {
        ResultBranchType::Success => "ok"@,
        ResultBranchType::Custom(name) => name@,
        ResultBranchType::Default => "default"@,
    }
}

/// Without one trailing carriage return.
pub open spec fn strip_cr(l: Seq<char>) -> Seq<char> {
    if l.len() > 0 && l.last() == '\r' {
        l.drop_last()
    } else {
        l
    }
}

/// Every line of `s` (as `str::lines` splits it) indented by four spaces
/// and ended by a line feed.
pub open spec fn indent_lines(s: Seq<char>) -> Seq<char>
    decreases s.len(),
{
    match char_index(s, '\n') {
        Some(k) => if 0 <= k < s.len() {
            "    "@ + strip_cr(s.take(k)) + "\n"@ + indent_lines(s.skip(k + 1))
        } else {
            Seq::empty()
        },
        None => if s.len() == 0 {
            Seq::empty()
        } else {
            "    "@ + s + "\n"@
        },
    }
}

/// The text of a step.
pub open spec fn step_text(s: PipelineStep) -> Seq<char>
    decreases s,
{
    match s {
        PipelineStep::Regular { name, args, config, config_type, condition, .. } => "  |> "@ + name@ + (if args@.len()
            == 0 {
            Seq::empty()
        } else {
            "("@ + join(args@.map_values(|a: String| a@), ", "@) + ")"@
        }) + ": "@ + config_as_written(config@, config_type) + match condition {
            Some(c) => " "@ + expr_text(c),
            None => Seq::empty(),
        },
        PipelineStep::Result { branches, .. } => "  |> result\n"@ + result_branches_text(
            branches@,
            branches@.len() as int,
        ),
        PipelineStep::If { condition, then_branch, else_branch, .. } => "  |> if\n"@ + steps_lines(
            condition.steps@,
            condition.steps@.len() as int,
            "  "@,
        ) + "    then:\n"@ + steps_lines(then_branch.steps@, then_branch.steps@.len() as int, "    "@)
            + match else_branch {
            Some(e) => "    else:\n"@ + steps_lines(e.steps@, e.steps@.len() as int, "    "@),
            None => Seq::empty(),
        },
        PipelineStep::Dispatch { branches, default, .. } => "  |> dispatch\n"@ + dispatch_text(
            branches@,
            branches@.len() as int,
        ) + match default {
            Some(d) => "    default:\n"@ + steps_lines(d.steps@, d.steps@.len() as int, "    "@),
            None => Seq::empty(),
        },
        PipelineStep::Foreach { selector, pipeline, .. } => "  |> foreach "@ + selector@ + "\n"@ + steps_lines(
            pipeline.steps@,
            pipeline.steps@.len() as int,
            "  "@,
        ) + "  end"@,
    }
}

/// The first `n` steps, each after `indent` and before a line feed.
pub open spec fn steps_lines(steps: Seq<PipelineStep>, n: int, indent: Seq<char>) -> Seq<char>
    decreases steps,
{
    if n <= 0 || n > steps.len() {
        Seq::empty()
    } else {
        steps_lines(steps.take(n - 1), n - 1, indent) + indent + step_text(steps[n - 1]) + "\n"@
    }
}

/// The first `n` steps joined by line feeds.
pub open spec fn steps_joined(steps: Seq<PipelineStep>, n: int) -> Seq<char>
    decreases steps,
{
    if n <= 0 || n > steps.len() {
        Seq::empty()
    } else if n == 1 {
        step_text(steps[0])
    } else {
        steps_joined(steps.take(n - 1), n - 1) + "\n"@ + step_text(steps[n - 1])
    }
}

/// The first `n` branches of a result step.
pub open spec fn result_branches_text(bs: Seq<ResultBranch>, n: int) -> Seq<char>
    decreases bs,
{
    if n <= 0 || n > bs.len() {
        Seq::empty()
    } else {
        result_branches_text(bs.take(n - 1), n - 1) + "    "@ + branch_name(bs[n - 1].branch_type) + "("@ + dec(
            bs[n - 1].status_code as nat,
        ) + "):\n"@ + indent_lines(steps_joined(bs[n - 1].pipeline.steps@, bs[n - 1].pipeline.steps@.len() as int))
    }
}

/// The first `n` cases of a dispatch step; a case of one step is written on
/// its line.
pub open spec fn dispatch_text(bs: Seq<DispatchBranch>, n: int) -> Seq<char>
    decreases bs,
{
    if n <= 0 || n > bs.len() {
        Seq::empty()
    } else {
        dispatch_text(bs.take(n - 1), n - 1) + "    case "@ + expr_text(bs[n - 1].condition) + ": "@ + if bs[n
            - 1].pipeline.steps@.len() == 1 {
            step_text(bs[n - 1].pipeline.steps@[0]) + "\n"@
        } else {
            "\n"@ + steps_lines(bs[n - 1].pipeline.steps@, bs[n - 1].pipeline.steps@.len() as int, "    "@)
        }
    }
}

/// The text of a pipeline: its steps, one per line.
pub open spec fn pipeline_text(p: Pipeline) -> Seq<char> {
    steps_joined(p.steps@, p.steps@.len() as int)
}


/// Appends every line of `t` indented by four spaces.
fn indent_lines_into(out: &mut Vec<char>, t: &[char])
    ensures
        final(out)@ == old(out)@ + indent_lines(t@),
{
    proof {
        reveal_strlit("    ");
        reveal_strlit("\n");
    }
    let ghost base = out@;
    let mut start: usize = 0;
    assert(t@.skip(0) =~= t@);
    while start < t.len()
        invariant
            start <= t@.len(),
            out@ + indent_lines(t@.skip(start as int)) == base + indent_lines(t@),
        decreases t@.len() - start,
    {
        let ghost rest = t@.skip(start as int);
        let ghost before = out@;
        let nl = scan_to_char(t, '\n', start);
        append_str(out, "    ");
        if nl < t.len() {
            let mut e = nl;
            if e > start && t[e - 1] == '\r' {
                e = e - 1;
            }
            let line = slice_chars(t, start, e);
            append(out, line.as_slice());
            append_str(out, "\n");
            proof {
                assert(rest.take(nl - start) =~= t@.subrange(start as int, nl as int));
                assert(strip_cr(rest.take(nl - start)) =~= line@);
                assert(rest.skip(nl - start + 1) =~= t@.skip(nl + 1));
                assert(out@ =~= before + ("    "@ + strip_cr(rest.take(nl - start)) + "\n"@));
            }
            start = nl + 1;
        } else {
            let line = slice_chars(t, start, t.len());
            append(out, line.as_slice());
            append_str(out, "\n");
            proof {
                assert(rest =~= line@);
                assert(t@.skip(t@.len() as int) =~= Seq::<char>::empty());
                assert(out@ =~= before + ("    "@ + rest + "\n"@));
            }
            start = t.len();
        }
    }
    proof {
        assert(t@.skip(start as int) =~= Seq::<char>::empty());
    }
}

/// Appends a step configuration as it was written.
fn config_as_written_into(out: &mut Vec<char>, config: &String, t: &ConfigType)
    ensures
        final(out)@ == old(out)@ + config_as_written(config@, *t),
{
    proof {
        reveal_strlit("`");
        reveal_strlit("\"");
    }
    match t {
        ConfigType::Backtick => {
            append_str(out, "`");
            append_str(out, config.as_str());
            append_str(out, "`");
        },
        ConfigType::Quoted => {
            append_str(out, "\"");
            append_str(out, config.as_str());
            append_str(out, "\"");
        },
        ConfigType::Identifier => {
            append_str(out, config.as_str());
        },
    }
    assert(final(out)@ =~= old(out)@ + config_as_written(config@, *t));
}

/// Appends the arguments of a step, `(a, b)`, when it has any.
fn step_args_into(out: &mut Vec<char>, args: &Vec<String>)
    ensures
        final(out)@ == old(out)@ + if args@.len() == 0 {
            Seq::empty()
        } else {
            "("@ + join(args@.map_values(|a: String| a@), ", "@) + ")"@
        },
{
    proof {
        reveal_strlit("(");
        reveal_strlit(")");
        reveal_strlit(", ");
    }
    if args.len() == 0 {
        assert(out@ =~= out@ + Seq::<char>::empty());
        return;
    }
    let ghost base = out@;
    append_str(out, "(");
    let ghost parts = args@.map_values(|a: String| a@);
    let ghost head = out@;
    let mut k: usize = 0;
    while k < args.len()
        invariant
            k <= args@.len(),
            parts == args@.map_values(|a: String| a@),
            out@ == head + join(parts.take(k as int), ", "@),
        decreases args@.len() - k,
    {
        proof { lemma_join_push(parts.take(k as int), parts[k as int], ", "@); }
        if k > 0 {
            append_str(out, ", ");
        }
        append_str(out, args[k].as_str());
        assert(parts.take(k + 1) =~= parts.take(k as int).push(parts[k as int]));
        k = k + 1;
    }
    assert(parts.take(args@.len() as int) =~= parts);
    append_str(out, ")");
    assert(out@ =~= base + ("("@ + join(parts, ", "@) + ")"@));
}

/// The text of a step's source-independent parts, appended.
pub fn step_into(out: &mut Vec<char>, s: &PipelineStep)
    ensures
        final(out)@ == old(out)@ + step_text(*s),
    decreases s,
{
    proof {
        reveal_strlit("  |> ");
        reveal_strlit(": ");
        reveal_strlit(" ");
        reveal_strlit("  |> result\n");
        reveal_strlit("  |> if\n");
        reveal_strlit("  ");
        reveal_strlit("    ");
        reveal_strlit("    then:\n");
        reveal_strlit("    else:\n");
        reveal_strlit("  |> dispatch\n");
        reveal_strlit("    default:\n");
        reveal_strlit("  |> foreach ");
        reveal_strlit("\n");
        reveal_strlit("  end");
    }
    let ghost base = out@;
    match s {
        PipelineStep::Regular { name, args, config, config_type, condition, .. } => {
            append_str(out, "  |> ");
            append_str(out, name.as_str());
            step_args_into(out, args);
            append_str(out, ": ");
            config_as_written_into(out, config, config_type);
            match condition {
                Some(c) => {
                    append_str(out, " ");
                    expr_into(out, c);
                },
                None => {},
            }
        },
        PipelineStep::Result { branches, .. } => {
            append_str(out, "  |> result\n");
            result_branches_into(out, branches);
        },
        PipelineStep::If { condition, then_branch, else_branch, .. } => {
            append_str(out, "  |> if\n");
            steps_lines_into(out, &condition.steps, "  ");
            append_str(out, "    then:\n");
            steps_lines_into(out, &then_branch.steps, "    ");
            match else_branch {
                Some(e) => {
                    append_str(out, "    else:\n");
                    steps_lines_into(out, &e.steps, "    ");
                },
                None => {},
            }
        },
        PipelineStep::Dispatch { branches, default, .. } => {
            append_str(out, "  |> dispatch\n");
            dispatch_into(out, branches);
            match default {
                Some(d) => {
                    append_str(out, "    default:\n");
                    steps_lines_into(out, &d.steps, "    ");
                },
                None => {},
            }
        },
        PipelineStep::Foreach { selector, pipeline, .. } => {
            append_str(out, "  |> foreach ");
            append_str(out, selector.as_str());
            append_str(out, "\n");
            steps_lines_into(out, &pipeline.steps, "  ");
            append_str(out, "  end");
        },
    }
    assert(out@ =~= base + step_text(*s));
}

/// Appends the steps, each after `indent` and before a line feed.
pub fn steps_lines_into(out: &mut Vec<char>, steps: &Vec<PipelineStep>, indent: &str)
    ensures
        final(out)@ == old(out)@ + steps_lines(steps@, steps@.len() as int, indent@),
    decreases steps@,
{
    proof { reveal_strlit("\n"); }
    let ghost head = out@;
    let mut k: usize = 0;
    while k < steps.len()
        invariant
            k <= steps@.len(),
            out@ == head + steps_lines(steps@.take(k as int), k as int, indent@),
        decreases steps@.len() - k,
    {
        append_str(out, indent);
        proof {
            assert(decreases_to!(steps@ => steps@[k as int]));
        }
        step_into(out, &steps[k]);
        append_str(out, "\n");
        proof {
            let t = steps@.take(k + 1);
            assert(t.take(k as int) =~= steps@.take(k as int));
            assert(t[k as int] == steps@[k as int]);
        }
        k = k + 1;
        assert(out@ =~= head + steps_lines(steps@.take(k as int), k as int, indent@));
    }
    assert(steps@.take(steps@.len() as int) =~= steps@);
}

/// Appends the steps joined by line feeds.
pub fn steps_joined_into(out: &mut Vec<char>, steps: &Vec<PipelineStep>)
    ensures
        final(out)@ == old(out)@ + steps_joined(steps@, steps@.len() as int),
    decreases steps@,
{
    proof { reveal_strlit("\n"); }
    let ghost head = out@;
    let mut k: usize = 0;
    while k < steps.len()
        invariant
            k <= steps@.len(),
            out@ == head + steps_joined(steps@.take(k as int), k as int),
        decreases steps@.len() - k,
    {
        if k > 0 {
            append_str(out, "\n");
        }
        proof {
            assert(decreases_to!(steps@ => steps@[k as int]));
        }
        step_into(out, &steps[k]);
        proof {
            let t = steps@.take(k + 1);
            assert(t.take(k as int) =~= steps@.take(k as int));
            assert(t[k as int] == steps@[k as int]);
            if k == 0 {
                assert(t[0] == steps@[0]);
            }
        }
        k = k + 1;
        assert(out@ =~= head + steps_joined(steps@.take(k as int), k as int));
    }
    assert(steps@.take(steps@.len() as int) =~= steps@);
}

/// Appends the branches of a result step.
pub fn result_branches_into(out: &mut Vec<char>, bs: &Vec<ResultBranch>)
    ensures
        final(out)@ == old(out)@ + result_branches_text(bs@, bs@.len() as int),
    decreases bs@,
{
    proof {
        reveal_strlit("    ");
        reveal_strlit("ok");
        reveal_strlit("default");
        reveal_strlit("(");
        reveal_strlit("):\n");
    }
    let ghost head = out@;
    let mut k: usize = 0;
    while k < bs.len()
        invariant
            k <= bs@.len(),
            out@ == head + result_branches_text(bs@.take(k as int), k as int),
        decreases bs@.len() - k,
    {
        let b = &bs[k];
        append_str(out, "    ");
        match &b.branch_type {
            ResultBranchType::Success => append_str(out, "ok"),
            ResultBranchType::Custom(name) => append_str(out, name.as_str()),
            ResultBranchType::Default => append_str(out, "default"),
        }
        append_str(out, "(");
        let d = u64_to_chars(b.status_code as u64);
        append(out, d.as_slice());
        append_str(out, "):\n");
        let mut t: Vec<char> = Vec::new();
        proof {
            assert(decreases_to!(bs@ => bs@[k as int].pipeline.steps@));
        }
        steps_joined_into(&mut t, &b.pipeline.steps);
        indent_lines_into(out, t.as_slice());
        proof {
            let u = bs@.take(k + 1);
            assert(u.take(k as int) =~= bs@.take(k as int));
            assert(u[k as int] == bs@[k as int]);
        }
        k = k + 1;
        assert(out@ =~= head + result_branches_text(bs@.take(k as int), k as int));
    }
    assert(bs@.take(bs@.len() as int) =~= bs@);
}

/// Appends the cases of a dispatch step.
pub fn dispatch_into(out: &mut Vec<char>, bs: &Vec<DispatchBranch>)
    ensures
        final(out)@ == old(out)@ + dispatch_text(bs@, bs@.len() as int),
    decreases bs@,
{
    proof {
        reveal_strlit("    case ");
        reveal_strlit(": ");
        reveal_strlit("\n");
    }
    let ghost head = out@;
    let mut k: usize = 0;
    while k < bs.len()
        invariant
            k <= bs@.len(),
            out@ == head + dispatch_text(bs@.take(k as int), k as int),
        decreases bs@.len() - k,
    {
        let b = &bs[k];
        append_str(out, "    case ");
        expr_into(out, &b.condition);
        append_str(out, ": ");
        if b.pipeline.steps.len() == 1 {
            proof {
                assert(decreases_to!(bs@ => bs@[k as int].pipeline.steps@[0]));
            }
            step_into(out, &b.pipeline.steps[0]);
            append_str(out, "\n");
        } else {
            append_str(out, "\n");
            proof {
                assert(decreases_to!(bs@ => bs@[k as int].pipeline.steps@));
            }
            steps_lines_into(out, &b.pipeline.steps, "    ");
        }
        proof {
            let u = bs@.take(k + 1);
            assert(u.take(k as int) =~= bs@.take(k as int));
            assert(u[k as int] == bs@[k as int]);
        }
        k = k + 1;
        assert(out@ =~= head + dispatch_text(bs@.take(k as int), k as int));
    }
    assert(bs@.take(bs@.len() as int) =~= bs@);
}


/// The text of a `when` clause.
pub open spec fn when_text(w: When) -> Seq<char> {
    match w {
        When::CallingRoute { method, path } => "calling "@ + method@ + " "@ + path@,
        When::ExecutingPipeline { name } => "executing pipeline "@ + name@,
        When::ExecutingVariable { var_type, name } => "executing variable "@ + var_type@ + " "@ + name@,
    }
}

/// `then` or `and`.
pub open spec fn kind_text(t: ConditionType) -> Seq<char> {
    match t {
        ConditionType::Then => "then"@,
        ConditionType::And => "and"@,
    }
}

/// The text of a selector assertion after its kind word.
pub open spec fn selector_rest(c: Condition) -> Seq<char> {
    let head = " selector "@ + quoted(c.selector->0@);
    match c.dom_assert->0 {
        DomAssertType::Exists => head + " "@ + if c.comparison@ == "exists"@ {
            "exists"@
        } else {
            "does not exist"@
        },
        DomAssertType::Text => head + " text "@ + c.comparison@ + " "@ + c.value@,
        DomAssertType::Count => head + " count "@ + c.comparison@ + " "@ + c.value@,
        DomAssertType::Attribute(a) => head + " attribute "@ + quoted(a@) + " "@ + c.comparison@ + " "@ + c.value@,
    }
}

/// The text of a call assertion after its kind word; the target's dots
/// are written as spaces.
pub open spec fn call_rest(c: Condition) -> Seq<char> {
    match c.call_target {
        Some(t) => " call "@ + replace_char(t@, '.', ' ') + " "@ + c.comparison@ + " "@ + c.value@,
        None => " call "@ + c.comparison@ + " "@ + c.value@,
    }
}

/// The text of any other assertion after its kind word.
pub open spec fn plain_rest(c: Condition) -> Seq<char> {
    let field_part = match c.header_name {
        Some(h) => c.field@ + " "@ + quoted(h@),
        None => match c.jq_expr {
            Some(e) => c.field@ + " "@ + ticked(e@),
            None => c.field@,
        },
    };
    " "@ + field_part + " "@ + c.comparison@ + " "@ + c.value@
}

/// The text of an assertion.
pub open spec fn condition_text(c: Condition) -> Seq<char> {
    kind_text(c.condition_type) + if c.selector is Some && c.dom_assert is Some {
        selector_rest(c)
    } else if c.is_call_assertion {
        call_rest(c)
    } else {
        plain_rest(c)
    }
}

/// The text of a mock.
pub open spec fn mock_text(m: Mock) -> Seq<char> {
    "with mock "@ + m.target@ + " returning "@ + ticked(m.return_value@)
}

/// The first `n` mocks, each after `indent` and before a line feed.
pub open spec fn mocks_lines(ms: Seq<Mock>, n: int, indent: Seq<char>) -> Seq<char>
    decreases n,
{
    if n <= 0 || n > ms.len() {
        Seq::empty()
    } else {
        mocks_lines(ms, n - 1, indent) + indent + mock_text(ms[n - 1]) + "\n"@
    }
}

/// A binding's value as it was written.
pub open spec fn let_value_text(v: Seq<char>, f: LetValueFormat) -> Seq<char> {
    match f {
        LetValueFormat::Quoted => quoted(v),
        LetValueFormat::Backtick => ticked(v),
        LetValueFormat::Bare => v,
    }
}

/// The first `n` bindings of a test, one per line.
pub open spec fn lets_lines(vs: Seq<(String, String, LetValueFormat)>, n: int) -> Seq<char>
    decreases n,
{
    if n <= 0 || n > vs.len() {
        Seq::empty()
    } else {
        lets_lines(vs, n - 1) + "    let "@ + vs[n - 1].0@ + " = "@ + let_value_text(vs[n - 1].1@, vs[n - 1].2)
            + "\n"@
    }
}

/// A `with kind` line when the value is present.
pub open spec fn with_line(kind: Seq<char>, v: Option<String>) -> Seq<char> {
    match v {
        Some(x) => "    with "@ + kind + " "@ + ticked(x@) + "\n"@,
        None => Seq::empty(),
    }
}

/// The first `n` assertions of a test, one per line.
pub open spec fn conditions_lines(cs: Seq<Condition>, n: int) -> Seq<char>
    decreases n,
{
    if n <= 0 || n > cs.len() {
        Seq::empty()
    } else {
        conditions_lines(cs, n - 1) + "    "@ + condition_text(cs[n - 1]) + "\n"@
    }
}

/// The text of a test.
pub open spec fn it_text(t: It) -> Seq<char> {
    "it "@ + quoted(t.name@) + "\n"@ + mocks_lines(t.mocks@, t.mocks@.len() as int, "    "@) + "    when "@
        + when_text(t.when) + "\n"@ + lets_lines(t.variables@, t.variables@.len() as int) + with_line(
        "input"@,
        t.input,
    ) + with_line("body"@, t.body) + with_line("headers"@, t.headers) + with_line("cookies"@, t.cookies)
        + conditions_lines(t.conditions@, t.conditions@.len() as int)
}

/// The first `n` tests of a block, each after two spaces and before a line
/// feed.
pub open spec fn its_lines(ts: Seq<It>, n: int) -> Seq<char>
    decreases n,
{
    if n <= 0 || n > ts.len() {
        Seq::empty()
    } else {
        its_lines(ts, n - 1) + "  "@ + it_text(ts[n - 1]) + "\n"@
    }
}

/// The text of a `describe` block.
pub open spec fn describe_text(d: Describe) -> Seq<char> {
    "describe "@ + quoted(d.name@) + "\n"@ + mocks_lines(d.mocks@, d.mocks@.len() as int, "  "@) + its_lines(
        d.tests@,
        d.tests@.len() as int,
    )
}

/// Appends the text of a `when` clause.
pub fn when_into(out: &mut Vec<char>, w: &When)
    ensures
        final(out)@ == old(out)@ + when_text(*w),
{
    proof {
        reveal_strlit("calling ");
        reveal_strlit(" ");
        reveal_strlit("executing pipeline ");
        reveal_strlit("executing variable ");
    }
    match w {
        When::CallingRoute { method, path } => {
            append_str(out, "calling ");
            append_str(out, method.as_str());
            append_str(out, " ");
            append_str(out, path.as_str());
        },
        When::ExecutingPipeline { name } => {
            append_str(out, "executing pipeline ");
            append_str(out, name.as_str());
        },
        When::ExecutingVariable { var_type, name } => {
            append_str(out, "executing variable ");
            append_str(out, var_type.as_str());
            append_str(out, " ");
            append_str(out, name.as_str());
        },
    }
    assert(final(out)@ =~= old(out)@ + when_text(*w));
}

fn quoted_into(out: &mut Vec<char>, s: &str)
    ensures
        final(out)@ == old(out)@ + quoted(s@),
{
    proof { reveal_strlit("\""); }
    append_str(out, "\"");
    append_str(out, s);
    append_str(out, "\"");
    assert(final(out)@ =~= old(out)@ + quoted(s@));
}

fn ticked_into(out: &mut Vec<char>, s: &str)
    ensures
        final(out)@ == old(out)@ + ticked(s@),
{
    proof { reveal_strlit("`"); }
    append_str(out, "`");
    append_str(out, s);
    append_str(out, "`");
    assert(final(out)@ =~= old(out)@ + ticked(s@));
}

fn selector_rest_into(out: &mut Vec<char>, c: &Condition)
    requires
        c.selector is Some,
        c.dom_assert is Some,
    ensures
        final(out)@ == old(out)@ + selector_rest(*c),
{
    proof {
        reveal_strlit(" selector ");
        reveal_strlit(" ");
        reveal_strlit("exists");
        reveal_strlit("does not exist");
        reveal_strlit(" text ");
        reveal_strlit(" count ");
        reveal_strlit(" attribute ");
    }
    let ghost base = out@;
    let sel = c.selector.as_ref().unwrap();
    append_str(out, " selector ");
    quoted_into(out, sel.as_str());
    match c.dom_assert.as_ref().unwrap() {
        DomAssertType::Exists => {
            append_str(out, " ");
            if str_eq(c.comparison.as_str(), "exists") {
                append_str(out, "exists");
            } else {
                append_str(out, "does not exist");
            }
        },
        DomAssertType::Text => {
            append_str(out, " text ");
            append_str(out, c.comparison.as_str());
            append_str(out, " ");
            append_str(out, c.value.as_str());
        },
        DomAssertType::Count => {
            append_str(out, " count ");
            append_str(out, c.comparison.as_str());
            append_str(out, " ");
            append_str(out, c.value.as_str());
        },
        DomAssertType::Attribute(a) => {
            append_str(out, " attribute ");
            quoted_into(out, a.as_str());
            append_str(out, " ");
            append_str(out, c.comparison.as_str());
            append_str(out, " ");
            append_str(out, c.value.as_str());
        },
    }
    assert(out@ =~= base + selector_rest(*c));
}

fn call_rest_into(out: &mut Vec<char>, c: &Condition)
    ensures
        final(out)@ == old(out)@ + call_rest(*c),
{
    proof {
        reveal_strlit(" call ");
        reveal_strlit(" ");
    }
    let ghost base = out@;
    append_str(out, " call ");
    match &c.call_target {
        Some(t) => {
            let tv = chars_of(t.as_str());
            let r = replace_char_exec(tv.as_slice(), '.', ' ');
            append(out, r.as_slice());
            append_str(out, " ");
        },
        None => {},
    }
    append_str(out, c.comparison.as_str());
    append_str(out, " ");
    append_str(out, c.value.as_str());
    assert(out@ =~= base + call_rest(*c));
}

fn plain_rest_into(out: &mut Vec<char>, c: &Condition)
    ensures
        final(out)@ == old(out)@ + plain_rest(*c),
{
    proof { reveal_strlit(" "); }
    let ghost base = out@;
    append_str(out, " ");
    append_str(out, c.field.as_str());
    match &c.header_name {
        Some(h) => {
            append_str(out, " ");
            quoted_into(out, h.as_str());
        },
        None => match &c.jq_expr {
            Some(e) => {
                append_str(out, " ");
                ticked_into(out, e.as_str());
            },
            None => {},
        },
    }
    append_str(out, " ");
    append_str(out, c.comparison.as_str());
    append_str(out, " ");
    append_str(out, c.value.as_str());
    assert(out@ =~= base + plain_rest(*c));
}

/// Appends the text of an assertion.
pub fn condition_into(out: &mut Vec<char>, c: &Condition)
    ensures
        final(out)@ == old(out)@ + condition_text(*c),
{
    proof {
        reveal_strlit("then");
        reveal_strlit("and");
    }
    let ghost base = out@;
    match c.condition_type {
        ConditionType::Then => append_str(out, "then"),
        ConditionType::And => append_str(out, "and"),
    }
    if c.selector.is_some() && c.dom_assert.is_some() {
        selector_rest_into(out, c);
    } else if c.is_call_assertion {
        call_rest_into(out, c);
    } else {
        plain_rest_into(out, c);
    }
    assert(out@ =~= base + condition_text(*c));
}

/// Appends the text of a mock.
pub fn mock_into(out: &mut Vec<char>, m: &Mock)
    ensures
        final(out)@ == old(out)@ + mock_text(*m),
{
    proof {
        reveal_strlit("with mock ");
        reveal_strlit(" returning ");
    }
    let ghost base = out@;
    append_str(out, "with mock ");
    append_str(out, m.target.as_str());
    append_str(out, " returning ");
    ticked_into(out, m.return_value.as_str());
    assert(out@ =~= base + mock_text(*m));
}

fn mocks_lines_into(out: &mut Vec<char>, ms: &Vec<Mock>, indent: &str)
    ensures
        final(out)@ == old(out)@ + mocks_lines(ms@, ms@.len() as int, indent@),
{
    proof { reveal_strlit("\n"); }
    let ghost head = out@;
    let mut k: usize = 0;
    while k < ms.len()
        invariant
            k <= ms@.len(),
            out@ == head + mocks_lines(ms@, k as int, indent@),
        decreases ms@.len() - k,
    {
        append_str(out, indent);
        mock_into(out, &ms[k]);
        append_str(out, "\n");
        k = k + 1;
        assert(out@ =~= head + mocks_lines(ms@, k as int, indent@));
    }
}

fn with_line_into(out: &mut Vec<char>, kind: &str, v: &Option<String>)
    ensures
        final(out)@ == old(out)@ + with_line(kind@, *v),
{
    proof {
        reveal_strlit("    with ");
        reveal_strlit(" ");
        reveal_strlit("\n");
    }
    let ghost base = out@;
    match v {
        Some(x) => {
            append_str(out, "    with ");
            append_str(out, kind);
            append_str(out, " ");
            ticked_into(out, x.as_str());
            append_str(out, "\n");
        },
        None => {},
    }
    assert(out@ =~= base + with_line(kind@, *v));
}

/// Appends the text of a test.
#[verifier::spinoff_prover]
#[verifier::rlimit(30)]
pub fn it_into(out: &mut Vec<char>, t: &It)
    ensures
        final(out)@ == old(out)@ + it_text(*t),
{
    proof {
        reveal_strlit("it ");
        reveal_strlit("\n");
        reveal_strlit("    ");
        reveal_strlit("    when ");
        reveal_strlit("    let ");
        reveal_strlit(" = ");
        reveal_strlit("input");
        reveal_strlit("body");
        reveal_strlit("headers");
        reveal_strlit("cookies");
    }
    let ghost base = out@;
    append_str(out, "it ");
    quoted_into(out, t.name.as_str());
    append_str(out, "\n");
    mocks_lines_into(out, &t.mocks, "    ");
    append_str(out, "    when ");
    when_into(out, &t.when);
    append_str(out, "\n");
    let ghost head = out@;
    let mut k: usize = 0;
    while k < t.variables.len()
        invariant
            k <= t.variables@.len(),
            out@ == head + lets_lines(t.variables@, k as int),
        decreases t.variables@.len() - k,
    {
        let (name, value, format) = &t.variables[k];
        append_str(out, "    let ");
        append_str(out, name.as_str());
        append_str(out, " = ");
        match format {
            LetValueFormat::Quoted => quoted_into(out, value.as_str()),
            LetValueFormat::Backtick => ticked_into(out, value.as_str()),
            LetValueFormat::Bare => append_str(out, value.as_str()),
        }
        append_str(out, "\n");
        k = k + 1;
        assert(out@ =~= head + lets_lines(t.variables@, k as int));
    }
    with_line_into(out, "input", &t.input);
    with_line_into(out, "body", &t.body);
    with_line_into(out, "headers", &t.headers);
    with_line_into(out, "cookies", &t.cookies);
    let ghost head2 = out@;
    let mut j: usize = 0;
    while j < t.conditions.len()
        invariant
            j <= t.conditions@.len(),
            out@ == head2 + conditions_lines(t.conditions@, j as int),
        decreases t.conditions@.len() - j,
    {
        append_str(out, "    ");
        condition_into(out, &t.conditions[j]);
        append_str(out, "\n");
        j = j + 1;
        assert(out@ =~= head2 + conditions_lines(t.conditions@, j as int));
    }
    assert(out@ =~= base + it_text(*t));
}

/// Appends the text of a `describe` block.
pub fn describe_into(out: &mut Vec<char>, d: &Describe)
    ensures
        final(out)@ == old(out)@ + describe_text(*d),
{
    proof {
        reveal_strlit("describe ");
        reveal_strlit("\n");
        reveal_strlit("  ");
    }
    let ghost base = out@;
    append_str(out, "describe ");
    quoted_into(out, d.name.as_str());
    append_str(out, "\n");
    mocks_lines_into(out, &d.mocks, "  ");
    let ghost head = out@;
    let mut k: usize = 0;
    while k < d.tests.len()
        invariant
            k <= d.tests@.len(),
            out@ == head + its_lines(d.tests@, k as int),
        decreases d.tests@.len() - k,
    {
        append_str(out, "  ");
        it_into(out, &d.tests[k]);
        append_str(out, "\n");
        k = k + 1;
        assert(out@ =~= head + its_lines(d.tests@, k as int));
    }
    assert(out@ =~= base + describe_text(*d));
}


/// The text of a named pipeline.
pub open spec fn named_pipeline_text(p: NamedPipeline) -> Seq<char> {
    "pipeline "@ + p.name@ + " = "@ + pipeline_text(p.pipeline)
}

/// The text of a variable.
pub open spec fn variable_text(v: Variable) -> Seq<char> {
    v.var_type@ + " "@ + v.name@ + " = "@ + ticked(v.value@)
}

/// The text of a route's pipeline.
pub open spec fn pipeline_ref_text(r: PipelineRef) -> Seq<char> {
    match r {
        PipelineRef::Inline(p) => pipeline_text(p),
        PipelineRef::Named(name) => "  |> pipeline: "@ + name@,
    }
}

/// The text of a route.
pub open spec fn route_text(r: Route) -> Seq<char> {
    r.method@ + " "@ + r.path@ + "\n"@ + pipeline_ref_text(r.pipeline)
}

/// The text of the GraphQL schema.
pub open spec fn schema_text(g: GraphQLSchema) -> Seq<char> {
    "graphqlSchema = "@ + ticked(g.sdl@)
}

/// The text of a query resolver.
pub open spec fn query_text(q: QueryResolver) -> Seq<char> {
    "query "@ + q.name@ + " =\n"@ + pipeline_text(q.pipeline)
}

/// The text of a mutation resolver.
pub open spec fn mutation_text(m: MutationResolver) -> Seq<char> {
    "mutation "@ + m.name@ + " =\n"@ + pipeline_text(m.pipeline)
}

/// The text of a type resolver.
pub open spec fn resolver_text(r: TypeResolver) -> Seq<char> {
    "resolver "@ + r.object_type@ + "."@ + r.field_name@ + " =\n"@ + pipeline_text(r.pipeline)
}

/// The first `n` items of `xs` printed by `f`, each followed by `sep`.
pub open spec fn each_text<A>(xs: Seq<A>, n: int, f: spec_fn(A) -> Seq<char>, sep: Seq<char>) -> Seq<char>
    decreases n,
{
    if n <= 0 || n > xs.len() {
        Seq::empty()
    } else {
        each_text(xs, n - 1, f, sep) + f(xs[n - 1]) + sep
    }
}

/// All of `xs` printed by `f`, each followed by `sep`.
pub open spec fn all_text<A>(xs: Seq<A>, f: spec_fn(A) -> Seq<char>, sep: Seq<char>) -> Seq<char> {
    each_text(xs, xs.len() as int, f, sep)
}

/// The text of a program: configs, pipelines, variables, feature flags, the
/// schema, queries, mutations, resolvers, routes, then test blocks.
pub open spec fn program_text(p: Program) -> Seq<char> {
    all_text(p.configs@, |c: Config| config_text(c), "\n"@) + all_text(
        p.pipelines@,
        |x: NamedPipeline| named_pipeline_text(x),
        "\n"@,
    ) + all_text(p.variables@, |v: Variable| variable_text(v), "\n"@) + match p.feature_flags {
        Some(f) => "featureFlags =\n"@ + pipeline_text(f) + "\n"@,
        None => Seq::empty(),
    } + match p.graphql_schema {
        Some(g) => schema_text(g) + "\n\n"@,
        None => Seq::empty(),
    } + all_text(p.queries@, |q: QueryResolver| query_text(q), "\n\n"@) + all_text(
        p.mutations@,
        |m: MutationResolver| mutation_text(m),
        "\n\n"@,
    ) + all_text(p.resolvers@, |r: TypeResolver| resolver_text(r), "\n\n"@) + all_text(
        p.routes@,
        |r: Route| route_text(r),
        "\n"@,
    ) + all_text(p.describes@, |d: Describe| describe_text(d), "\n"@)
}

/// Appends the text of a pipeline.
pub fn pipeline_into(out: &mut Vec<char>, p: &Pipeline)
    ensures
        final(out)@ == old(out)@ + pipeline_text(*p),
{
    steps_joined_into(out, &p.steps);
}

fn route_into(out: &mut Vec<char>, r: &Route)
    ensures
        final(out)@ == old(out)@ + route_text(*r),
{
    proof {
        reveal_strlit(" ");
        reveal_strlit("\n");
        reveal_strlit("  |> pipeline: ");
    }
    let ghost base = out@;
    append_str(out, r.method.as_str());
    append_str(out, " ");
    append_str(out, r.path.as_str());
    append_str(out, "\n");
    match &r.pipeline {
        PipelineRef::Inline(p) => pipeline_into(out, p),
        PipelineRef::Named(name) => {
            append_str(out, "  |> pipeline: ");
            append_str(out, name.as_str());
        },
    }
    assert(out@ =~= base + route_text(*r));
}

fn titled_pipeline_into(out: &mut Vec<char>, title: &str, name: &str, p: &Pipeline)
    ensures
        final(out)@ == old(out)@ + title@ + name@ + " =\n"@ + pipeline_text(*p),
{
    proof { reveal_strlit(" =\n"); }
    let ghost base = out@;
    append_str(out, title);
    append_str(out, name);
    append_str(out, " =\n");
    pipeline_into(out, p);
    assert(out@ =~= base + title@ + name@ + " =\n"@ + pipeline_text(*p));
}

impl Pipeline {
    /// The text of this pipeline.
    pub fn to_string(&self) -> (s: String)
        ensures
            s@ == pipeline_text(*self),
    {
        let mut out: Vec<char> = Vec::new();
        pipeline_into(&mut out, self);
        string_of(out.as_slice())
    }
}

impl TagExpr {
    /// The text of this tag expression.
    pub fn to_string(&self) -> (s: String)
        ensures
            s@ == expr_text(*self),
    {
        let mut out: Vec<char> = Vec::new();
        expr_into(&mut out, self);
        string_of(out.as_slice())
    }
}

impl PipelineStep {
    /// The text of this step.
    pub fn to_string(&self) -> (s: String)
        ensures
            s@ == step_text(*self),
    {
        let mut out: Vec<char> = Vec::new();
        step_into(&mut out, self);
        string_of(out.as_slice())
    }
}

impl Condition {
    /// The text of this assertion.
    pub fn to_string(&self) -> (s: String)
        ensures
            s@ == condition_text(*self),
    {
        let mut out: Vec<char> = Vec::new();
        condition_into(&mut out, self);
        string_of(out.as_slice())
    }
}

fn configs_into(out: &mut Vec<char>, xs: &Vec<Config>)
    ensures
        final(out)@ == old(out)@ + all_text(xs@, |c: Config| config_text(c), "\n"@),
{
    proof {
        reveal_strlit("\n");
    }
    let ghost head = out@;
    let mut k: usize = 0;
    while k < xs.len()
        invariant
            k <= xs@.len(),
            out@ == head + each_text(xs@, k as int, |c: Config| config_text(c), "\n"@),
        decreases xs@.len() - k,
    {
        config_into(out, &xs[k]);
        append_str(out, "\n");
        k = k + 1;
        assert(out@ =~= head + each_text(xs@, k as int, |c: Config| config_text(c), "\n"@));
    }
}

fn pipelines_into(out: &mut Vec<char>, xs: &Vec<NamedPipeline>)
    ensures
        final(out)@ == old(out)@ + all_text(xs@, |x: NamedPipeline| named_pipeline_text(x), "\n"@),
{
    proof {
        reveal_strlit("\n");
        reveal_strlit("pipeline ");
        reveal_strlit(" = ");
    }
    let ghost head = out@;
    let mut k: usize = 0;
    while k < xs.len()
        invariant
            k <= xs@.len(),
            out@ == head + each_text(xs@, k as int, |x: NamedPipeline| named_pipeline_text(x), "\n"@),
        decreases xs@.len() - k,
    {
        append_str(out, "pipeline ");
        append_str(out, xs[k].name.as_str());
        append_str(out, " = ");
        pipeline_into(out, &xs[k].pipeline);
        append_str(out, "\n");
        k = k + 1;
        assert(out@ =~= head + each_text(xs@, k as int, |x: NamedPipeline| named_pipeline_text(x), "\n"@));
    }
}

fn variables_into(out: &mut Vec<char>, xs: &Vec<Variable>)
    ensures
        final(out)@ == old(out)@ + all_text(xs@, |v: Variable| variable_text(v), "\n"@),
{
    proof {
        reveal_strlit("\n");
        reveal_strlit(" ");
        reveal_strlit(" = ");
    }
    let ghost head = out@;
    let mut k: usize = 0;
    while k < xs.len()
        invariant
            k <= xs@.len(),
            out@ == head + each_text(xs@, k as int, |v: Variable| variable_text(v), "\n"@),
        decreases xs@.len() - k,
    {
        append_str(out, xs[k].var_type.as_str());
        append_str(out, " ");
        append_str(out, xs[k].name.as_str());
        append_str(out, " = ");
        ticked_into(out, xs[k].value.as_str());
        append_str(out, "\n");
        k = k + 1;
        assert(out@ =~= head + each_text(xs@, k as int, |v: Variable| variable_text(v), "\n"@));
    }
}

fn queries_into(out: &mut Vec<char>, xs: &Vec<QueryResolver>)
    ensures
        final(out)@ == old(out)@ + all_text(xs@, |q: QueryResolver| query_text(q), "\n\n"@),
{
    proof {
        reveal_strlit("\n\n");
        reveal_strlit("query ");
    }
    let ghost head = out@;
    let mut k: usize = 0;
    while k < xs.len()
        invariant
            k <= xs@.len(),
            out@ == head + each_text(xs@, k as int, |q: QueryResolver| query_text(q), "\n\n"@),
        decreases xs@.len() - k,
    {
        titled_pipeline_into(out, "query ", xs[k].name.as_str(), &xs[k].pipeline);
        append_str(out, "\n\n");
        k = k + 1;
        assert(out@ =~= head + each_text(xs@, k as int, |q: QueryResolver| query_text(q), "\n\n"@));
    }
}

fn mutations_into(out: &mut Vec<char>, xs: &Vec<MutationResolver>)
    ensures
        final(out)@ == old(out)@ + all_text(xs@, |m: MutationResolver| mutation_text(m), "\n\n"@),
{
    proof {
        reveal_strlit("\n\n");
        reveal_strlit("mutation ");
    }
    let ghost head = out@;
    let mut k: usize = 0;
    while k < xs.len()
        invariant
            k <= xs@.len(),
            out@ == head + each_text(xs@, k as int, |m: MutationResolver| mutation_text(m), "\n\n"@),
        decreases xs@.len() - k,
    {
        titled_pipeline_into(out, "mutation ", xs[k].name.as_str(), &xs[k].pipeline);
        append_str(out, "\n\n");
        k = k + 1;
        assert(out@ =~= head + each_text(xs@, k as int, |m: MutationResolver| mutation_text(m), "\n\n"@));
    }
}

fn resolvers_into(out: &mut Vec<char>, xs: &Vec<TypeResolver>)
    ensures
        final(out)@ == old(out)@ + all_text(xs@, |r: TypeResolver| resolver_text(r), "\n\n"@),
{
    proof {
        reveal_strlit("\n\n");
        reveal_strlit("resolver ");
        reveal_strlit(".");
    }
    let ghost head = out@;
    let mut k: usize = 0;
    while k < xs.len()
        invariant
            k <= xs@.len(),
            out@ == head + each_text(xs@, k as int, |r: TypeResolver| resolver_text(r), "\n\n"@),
        decreases xs@.len() - k,
    {
        let mut title: Vec<char> = chars_of("resolver ");
        append_str(&mut title, xs[k].object_type.as_str());
        append_str(&mut title, ".");
        let ts = string_of(title.as_slice());
        titled_pipeline_into(out, ts.as_str(), xs[k].field_name.as_str(), &xs[k].pipeline);
        append_str(out, "\n\n");
        k = k + 1;
        assert(out@ =~= head + each_text(xs@, k as int, |r: TypeResolver| resolver_text(r), "\n\n"@));
    }
}

fn routes_into(out: &mut Vec<char>, xs: &Vec<Route>)
    ensures
        final(out)@ == old(out)@ + all_text(xs@, |r: Route| route_text(r), "\n"@),
{
    proof {
        reveal_strlit("\n");
    }
    let ghost head = out@;
    let mut k: usize = 0;
    while k < xs.len()
        invariant
            k <= xs@.len(),
            out@ == head + each_text(xs@, k as int, |r: Route| route_text(r), "\n"@),
        decreases xs@.len() - k,
    {
        route_into(out, &xs[k]);
        append_str(out, "\n");
        k = k + 1;
        assert(out@ =~= head + each_text(xs@, k as int, |r: Route| route_text(r), "\n"@));
    }
}

fn describes_into(out: &mut Vec<char>, xs: &Vec<Describe>)
    ensures
        final(out)@ == old(out)@ + all_text(xs@, |d: Describe| describe_text(d), "\n"@),
{
    proof {
        reveal_strlit("\n");
    }
    let ghost head = out@;
    let mut k: usize = 0;
    while k < xs.len()
        invariant
            k <= xs@.len(),
            out@ == head + each_text(xs@, k as int, |d: Describe| describe_text(d), "\n"@),
        decreases xs@.len() - k,
    {
        describe_into(out, &xs[k]);
        append_str(out, "\n");
        k = k + 1;
        assert(out@ =~= head + each_text(xs@, k as int, |d: Describe| describe_text(d), "\n"@));
    }
}

impl Program {
    /// The text of this program.
    pub fn to_string(&self) -> (s: String)
        ensures
            s@ == program_text(*self),
    {
        proof {
            reveal_strlit("\n");
            reveal_strlit("\n\n");
            reveal_strlit("featureFlags =\n");
            reveal_strlit("graphqlSchema = ");
        }
        let mut out: Vec<char> = Vec::new();
        configs_into(&mut out, &self.configs);
        pipelines_into(&mut out, &self.pipelines);
        variables_into(&mut out, &self.variables);
        let ghost t3 = out@;
        match &self.feature_flags {
            Some(f) => {
                append_str(&mut out, "featureFlags =\n");
                pipeline_into(&mut out, f);
                append_str(&mut out, "\n");
            },
            None => {},
        }
        let ghost t4 = out@;
        match &self.graphql_schema {
            Some(g) => {
                append_str(&mut out, "graphqlSchema = ");
                ticked_into(&mut out, g.sdl.as_str());
                append_str(&mut out, "\n\n");
            },
            None => {},
        }
        let ghost t5 = out@;
        queries_into(&mut out, &self.queries);
        mutations_into(&mut out, &self.mutations);
        resolvers_into(&mut out, &self.resolvers);
        routes_into(&mut out, &self.routes);
        describes_into(&mut out, &self.describes);
        assert(t4 =~= t3 + match self.feature_flags {
            Some(f) => "featureFlags =\n"@ + pipeline_text(f) + "\n"@,
            None => Seq::empty(),
        });
        assert(t5 =~= t4 + match self.graphql_schema {
            Some(g) => schema_text(g) + "\n\n"@,
            None => Seq::empty(),
        });
        assert(out@ =~= program_text(*self));
        string_of(out.as_slice())
    }
}


} // verus!
