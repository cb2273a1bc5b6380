//! Printed assertions read back: what the printer writes of a test
//! assertion, the reader reads as the same assertion.

use vstd::prelude::*;
use crate::ast::{Condition, DomAssertType};
use crate::describe::{CondOutcome, CondModel, DomModel, condition_at, cond_model, cond_kind_at, selector_cond_at,
    selector_op_at, sel_model, plain_cond_at, opt_view};
use crate::parser::{ms_end, is_ms, delimited_at, text_lit_at, value_at, till1_at, lemma_ms_end_at, lemma_till_end_at,
    wp_ident_start, ident_at};
use crate::schema::{ident_continue, ident_end};
use crate::describe::{call_cond_at, call_kind_at, call_comparison_at, nondigit_end};
use crate::printer::{condition_text, kind_text, plain_rest, call_rest, ticked, quoted};
use crate::text::{occurs_at, starts_with, replace_char, lemma_char_index_at, is_ws, is_digit, trim, trim_start, trim_end};

verus! {

/// The kind word of an assertion: `then` or `and`.
pub open spec fn kind_word(then: bool) -> Seq<char> {
    if then { "then"@ } else { "and"@ }
}

/// The operation word of a selector assertion: `exists` or `does not exist`.
pub open spec fn exists_word(exists: bool) -> Seq<char> {
    if exists { "exists"@ } else { "does not exist"@ }
}


/// A word of a printed assertion: not empty, and no whitespace in it.
pub open spec fn plain_word(w: Seq<char>) -> bool {
    w.len() > 0 && forall|j: int| 0 <= j < w.len() ==> !is_ms(#[trigger] w[j])
}

/// The text of a plain assertion after its kind word: the field (with its
/// backtick filter, if any), the comparison word and the value.
pub open spec fn plain_tail(field: Seq<char>, jq: Option<Seq<char>>, comparison: Seq<char>, value: Seq<char>) -> Seq<char> {
    let field_part = match jq {
        Some(e) => field + " `"@ + e + "`"@,
        None => field,
    };
    " "@ + field_part + " "@ + comparison + " "@ + value
}

/// Reading a run of characters that ends at a separator (or the end).
proof fn lemma_reads_word(cs: Seq<char>, p: int, w: Seq<char>, s1: char, s2: char)
    requires
        0 <= p,
        p + w.len() <= cs.len(),
        w.len() > 0,
        cs.subrange(p, p + w.len()) == w,
        forall|j: int| 0 <= j < w.len() ==> #[trigger] w[j] != s1 && w[j] != s2,
        p + w.len() == cs.len() || cs[p + w.len()] == s1 || cs[p + w.len()] == s2,
    ensures
        till1_at(cs, p, s1, s2) == Some((w, p + w.len())),
{
    assert forall|i: int| p <= i < p + w.len() implies cs[i] != s1 && cs[i] != s2 by {
        assert(cs[i] == cs.subrange(p, p + w.len())[i - p]);
    }
    lemma_till_end_at(cs, p, p + w.len(), s1, s2);
}

/// The model of a plain assertion.
pub open spec fn plain_model(then: bool, field: Seq<char>, jq: Option<Seq<char>>, comparison: Seq<char>,
    value: Seq<char>) -> CondModel
{
    CondModel {
        then,
        field,
        header_name: None,
        jq_expr: jq,
        comparison,
        value,
        is_call: false,
        call_target: None,
        selector: None,
        dom: None,
    }
}

/// What the end of a printed assertion may hold for it to read back
/// whole: the comparison is a single word, and the value is on one line
/// and does not start with whitespace, a quote or a backtick (the reader
/// takes the quotes off a quoted value).
pub open spec fn tail_readable(comparison: Seq<char>, value: Seq<char>) -> bool {
    plain_word(comparison) && value_readable(value)
}

/// A value that reads back whole at the end of an assertion: not empty,
/// on one line, and not starting with whitespace, a quote or a backtick.
pub open spec fn value_readable(value: Seq<char>) -> bool {
    &&& value.len() > 0
    &&& forall|j: int| 0 <= j < value.len() ==> #[trigger] value[j] != '\n'
    &&& !is_ms(value[0]) && value[0] != '"' && value[0] != '`'
}

/// What a plain assertion's printed text may hold for it to read back
/// whole: the field and the filter are single words (the filter without a
/// backtick); the comparison does not start with a backtick when there is
/// no filter; the field is none of the words with a form of their own;
/// and the end reads back whole.
pub open spec fn plain_readable(field: Seq<char>, jq: Option<Seq<char>>, comparison: Seq<char>, value: Seq<char>) -> bool {
    &&& plain_word(field)
    &&& field != "call"@ && field != "selector"@ && field != "header"@
    &&& match jq {
        Some(e) => forall|j: int| 0 <= j < e.len() ==> #[trigger] e[j] != '`',
        None => comparison[0] != '`',
    }
    &&& tail_readable(comparison, value)
}

/// Reading the comparison word at `q` and the value after it, to the end.
proof fn lemma_reads_comparison(cs: Seq<char>, q: int, w: Seq<char>, v: Seq<char>)
    requires
        0 <= q,
        q + w.len() + 1 + v.len() == cs.len(),
        tail_readable(w, v),
        cs.subrange(q, q + w.len()) == w,
        cs[q + w.len()] == ' ',
        cs.subrange(q + w.len() + 1, cs.len() as int) == v,
    ensures
        till1_at(cs, q, ' ', ' ') == Some((w, q + w.len())),
        ms_end(cs, q + w.len()) == q + w.len() + 1,
        value_at(cs, q + w.len() + 1) == Some((v, cs.len() as int)),
{
    let r = q + w.len() + 1;
    let n = cs.len() as int;
    assert forall|j: int| 0 <= j < w.len() implies #[trigger] w[j] != ' ' && w[j] != ' ' by {
        assert(!is_ms(w[j]));
    }
    lemma_reads_word(cs, q, w, ' ', ' ');
    assert(cs[r] == cs.subrange(r, n)[0]);
    lemma_ms_end_at(cs, q + w.len(), r);
    assert(delimited_at(cs, r, '`') is None);
    assert(delimited_at(cs, r, '"') is None);
    lemma_reads_word(cs, r, v, '\n', '\n');
}

/// Reading the kind word and the field of a plain assertion.
#[verifier::spinoff_prover]
proof fn lemma_reads_field(cs: Seq<char>, then: bool, k: int, f: Seq<char>)
    requires
        k == (if then { 4int } else { 3int }),
        k + 2 + f.len() < cs.len(),
        cs.subrange(0, k + 1) == kind_word(then) + " "@,
        cs.subrange(k + 1, k + 1 + f.len()) == f,
        cs[k + 1 + f.len()] == ' ',
        !is_ms(cs[k + 2 + f.len()]),
        plain_word(f),
        f != "call"@ && f != "selector"@,
    ensures
        condition_at(cs, 0) == plain_cond_at(cs, then, f, k + 2 + f.len()),
{
    reveal_strlit("then");
    reveal_strlit("and");
    reveal_strlit(" ");
    let h = kind_word(then) + " "@;
    assert(h.len() == k + 1);
    assert forall|i: int| 0 <= i < k + 1 implies cs[i] == h[i] by {
        assert(cs[i] == cs.subrange(0, k + 1)[i]);
    }
    lemma_ms_end_at(cs, 0, 0);
    if then {
        assert(cs.subrange(0, 4) =~= "then"@);
    } else {
        assert(cs.subrange(0, 4)[0] == cs[0]);
        assert(!occurs_at(cs, "then"@, 0));
        assert(cs.subrange(0, 3) =~= "and"@);
    }
    assert(cond_kind_at(cs, 0) == Some((then, k)));
    assert(cs[k + 1] == cs.subrange(k + 1, k + 1 + f.len())[0]);
    lemma_ms_end_at(cs, k, k + 1);
    assert forall|j: int| 0 <= j < f.len() implies #[trigger] f[j] != ' ' && f[j] != ' ' by {
        assert(!is_ms(f[j]));
    }
    lemma_reads_word(cs, k + 1, f, ' ', ' ');
    lemma_ms_end_at(cs, k + 1 + f.len(), k + 2 + f.len());
}

/// Reading a plain assertion without a filter, laid out piece by piece.
#[verifier::spinoff_prover]
proof fn lemma_reads_plain_bare(cs: Seq<char>, then: bool, k: int, f: Seq<char>, w: Seq<char>, v: Seq<char>)
    requires
        k == (if then { 4int } else { 3int }),
        plain_readable(f, None, w, v),
        cs.len() == k + 3 + f.len() + w.len() + v.len(),
        cs.subrange(0, k + 1) == kind_word(then) + " "@,
        cs.subrange(k + 1, k + 1 + f.len()) == f,
        cs[k + 1 + f.len()] == ' ',
        cs.subrange(k + 2 + f.len(), k + 2 + f.len() + w.len()) == w,
        cs[k + 2 + f.len() + w.len()] == ' ',
        cs.subrange(k + 3 + f.len() + w.len(), cs.len() as int) == v,
    ensures
        condition_at(cs, 0) == CondOutcome::Read(plain_model(then, f, None, w, v), cs.len() as int),
{
    reveal_strlit("header");
    let c = k + 2 + f.len();
    assert(cs[c] == cs.subrange(c, c + w.len())[0]);
    assert(cs[c] == w[0]);
    lemma_reads_field(cs, then, k, f);
    assert(delimited_at(cs, c, '`') is None);
    lemma_ms_end_at(cs, c, c);
    lemma_reads_comparison(cs, c, w, v);
}

/// Reading a plain assertion with a backtick filter, laid out piece by
/// piece.
#[verifier::spinoff_prover]
proof fn lemma_reads_plain_filtered(cs: Seq<char>, then: bool, k: int, f: Seq<char>, e: Seq<char>, w: Seq<char>,
    v: Seq<char>)
    requires
        k == (if then { 4int } else { 3int }),
        plain_readable(f, Some(e), w, v),
        cs.len() == k + 6 + f.len() + e.len() + w.len() + v.len(),
        cs.subrange(0, k + 1) == kind_word(then) + " "@,
        cs.subrange(k + 1, k + 1 + f.len()) == f,
        cs[k + 1 + f.len()] == ' ',
        cs[k + 2 + f.len()] == '`',
        cs.subrange(k + 3 + f.len(), k + 3 + f.len() + e.len()) == e,
        cs[k + 3 + f.len() + e.len()] == '`',
        cs[k + 4 + f.len() + e.len()] == ' ',
        cs.subrange(k + 5 + f.len() + e.len(), k + 5 + f.len() + e.len() + w.len()) == w,
        cs[k + 5 + f.len() + e.len() + w.len()] == ' ',
        cs.subrange(k + 6 + f.len() + e.len() + w.len(), cs.len() as int) == v,
    ensures
        condition_at(cs, 0) == CondOutcome::Read(plain_model(then, f, Some(e), w, v), cs.len() as int),
{
    reveal_strlit("header");
    let c = k + 2 + f.len();
    let le = e.len() as int;
    let q = c + le + 3;
    assert(Some(e)->0 == e);
    assert(forall|j: int| 0 <= j < le ==> #[trigger] e[j] != '`');
    lemma_reads_field(cs, then, k, f);
    assert forall|j: int| 0 <= j < le implies #[trigger] cs.skip(c + 1)[j] != '`' by {
        assert(cs.skip(c + 1)[j] == cs.subrange(c + 1, c + 1 + le)[j]);
        assert(cs.subrange(c + 1, c + 1 + le)[j] == e[j]);
    }
    crate::text::lemma_char_index_at(cs.skip(c + 1), '`', le);
    assert(delimited_at(cs, c, '`') == Some((e, c + le + 2)));
    assert(cs[q] == cs.subrange(q, q + w.len())[0]);
    lemma_ms_end_at(cs, c + le + 2, q);
    lemma_reads_comparison(cs, q, w, v);
}

/// Reading a whole plain assertion.
#[verifier::spinoff_prover]
proof fn lemma_reads_plain_text(cs: Seq<char>, then: bool, f: Seq<char>, jq: Option<Seq<char>>, w: Seq<char>,
    v: Seq<char>)
    requires
        cs == kind_word(then) + plain_tail(f, jq, w, v),
        plain_readable(f, jq, w, v),
    ensures
        condition_at(cs, 0) == CondOutcome::Read(plain_model(then, f, jq, w, v), cs.len() as int),
{
    reveal_strlit("then");
    reveal_strlit("and");
    reveal_strlit(" ");
    reveal_strlit(" `");
    reveal_strlit("`");
    let k: int = if then { 4int } else { 3int };
    assert(kind_word(then).len() == k);
    let lf = f.len() as int;
    let lw = w.len() as int;
    let n = cs.len() as int;
    match jq {
        None => {
            assert(cs.len() == k + 3 + lf + lw + v.len());
            assert(cs.subrange(0, k + 1) =~= kind_word(then) + " "@);
            assert(cs.subrange(k + 1, k + 1 + lf) =~= f);
            assert(cs[k + 1 + lf] == ' ');
            assert(cs.subrange(k + 2 + lf, k + 2 + lf + lw) =~= w);
            assert(cs[k + 2 + lf + lw] == ' ');
            assert(cs.subrange(k + 3 + lf + lw, n) =~= v);
            lemma_reads_plain_bare(cs, then, k, f, w, v);
        },
        Some(e) => {
            let le = e.len() as int;
            assert(cs.len() == k + 6 + lf + le + lw + v.len());
            assert(cs.subrange(0, k + 1) =~= kind_word(then) + " "@);
            assert(cs.subrange(k + 1, k + 1 + lf) =~= f);
            assert(cs[k + 1 + lf] == ' ');
            assert(cs[k + 2 + lf] == '`');
            assert(cs.subrange(k + 3 + lf, k + 3 + lf + le) =~= e);
            assert(cs[k + 3 + lf + le] == '`');
            assert(cs[k + 4 + lf + le] == ' ');
            assert(cs.subrange(k + 5 + lf + le, k + 5 + lf + le + lw) =~= w);
            assert(cs[k + 5 + lf + le + lw] == ' ');
            assert(cs.subrange(k + 6 + lf + le + lw, n) =~= v);
            lemma_reads_plain_filtered(cs, then, k, f, e, w, v);
        },
    }
}

/// Reading `then selector "` or `and selector "` at the start of `cs`
/// leaves the selector's own text to read, from its opening quote.
#[verifier::spinoff_prover]
proof fn lemma_reads_head(cs: Seq<char>, then: bool, k: int)
    requires
        k == (if then { 4int } else { 3int }),
        k + 11 <= cs.len(),
        cs.subrange(0, k + 11) == kind_word(then) + " selector \""@,
    ensures
        condition_at(cs, 0) == selector_cond_at(cs, then, k + 10),
        cs[k + 10] == '"',
{
    reveal_strlit("then");
    reveal_strlit("and");
    reveal_strlit(" selector \"");
    reveal_strlit("selector");
    reveal_strlit("call");
    let h = kind_word(then) + " selector \""@;
    assert(h.len() == k + 11);
    assert forall|i: int| 0 <= i < k + 11 implies cs[i] == h[i] by {
        assert(cs[i] == cs.subrange(0, k + 11)[i]);
    }
    lemma_ms_end_at(cs, 0, 0);
    if then {
        assert(cs.subrange(0, 4) =~= "then"@);
    } else {
        assert(cs.subrange(0, 4)[0] == cs[0]);
        assert(!occurs_at(cs, "then"@, 0));
        assert(cs.subrange(0, 3) =~= "and"@);
    }
    assert(cond_kind_at(cs, 0) == Some((then, k)));
    lemma_ms_end_at(cs, k, k + 1);
    lemma_till_end_at(cs, k + 1, k + 9, ' ', ' ');
    assert(cs.subrange(k + 1, k + 9) =~= "selector"@);
    assert("selector"@ != "call"@) by {
        assert("selector"@.len() != "call"@.len());
    }
    lemma_ms_end_at(cs, k + 9, k + 10);
}

/// The three parts of a concatenation.
proof fn lemma_concat3(x: Seq<char>, y: Seq<char>, z: Seq<char>)
    ensures
        (x + y + z).subrange(0, x.len() as int) == x,
        (x + y + z).subrange(x.len() as int, (x.len() + y.len()) as int) == y,
        (x + y + z).subrange((x.len() + y.len()) as int, (x + y + z).len() as int) == z,
{
    assert((x + y + z).subrange(0, x.len() as int) =~= x);
    assert((x + y + z).subrange(x.len() as int, (x.len() + y.len()) as int) =~= y);
    assert((x + y + z).subrange((x.len() + y.len()) as int, (x + y + z).len() as int) =~= z);
}

/// Reading the operation word of a selector assertion at `g`, where the
/// text ends with it.
proof fn lemma_reads_op(cs: Seq<char>, then: bool, sel: Seq<char>, g: int, exists: bool)
    requires
        0 <= g <= cs.len(),
        cs.subrange(g, cs.len() as int) == exists_word(exists),
    ensures
        (match till1_at(cs, g, ' ', '\n') {
            Some((op, e1)) => selector_op_at(cs, then, sel, op, ms_end(cs, e1)),
            None => CondOutcome::NoMatch,
        }) == CondOutcome::Read(sel_model(then, sel,
            if exists { "exists"@ } else { "does_not_exist"@ },
            if exists { "true"@ } else { "false"@ }, DomModel::Exists), cs.len() as int),
{
    reveal_strlit("exists");
    reveal_strlit("does not exist");
    reveal_strlit("does");
    reveal_strlit("not");
    reveal_strlit("exist");
    let n = cs.len() as int;
    let w = exists_word(exists);
    assert(cs.subrange(g, n).len() == n - g);
    assert forall|i: int| g <= i < n implies cs[i] == w[i - g] by {
        assert(cs[i] == cs.subrange(g, n)[i - g]);
    }
    if exists {
        assert(w == "exists"@);
        assert(n == g + 6);
        lemma_till_end_at(cs, g, n, ' ', '\n');
        assert(cs.subrange(g, n) =~= "exists"@);
        lemma_ms_end_at(cs, n, n);
    } else {
        assert(w == "does not exist"@);
        assert(n == g + 14);
        lemma_till_end_at(cs, g, g + 4, ' ', '\n');
        assert(cs.subrange(g, g + 4) =~= "does"@);
        assert("does"@ != "exists"@) by {
            assert("does"@.len() != "exists"@.len());
        }
        lemma_ms_end_at(cs, g + 4, g + 5);
        assert(occurs_at(cs, "not"@, g + 5)) by {
            assert(cs.subrange(g + 5, g + 8) =~= "not"@);
        }
        lemma_ms_end_at(cs, g + 8, g + 9);
        assert(occurs_at(cs, "exist"@, g + 9)) by {
            assert(cs.subrange(g + 9, g + 14) =~= "exist"@);
        }
    }
}

/// Reading the quoted selector at `p` and the operation word after it.
proof fn lemma_reads_selector(cs: Seq<char>, then: bool, p: int, sel: Seq<char>, exists: bool)
    requires
        0 <= p,
        p + 1 + sel.len() <= cs.len(),
        forall|j: int| 0 <= j < sel.len() ==> sel[j] != '"',
        cs[p] == '"',
        cs.subrange(p + 1, p + 1 + sel.len()) == sel,
        cs.subrange(p + 1 + sel.len(), cs.len() as int) == "\" "@ + exists_word(exists),
    ensures
        selector_cond_at(cs, then, p) == CondOutcome::Read(sel_model(then, sel,
            if exists { "exists"@ } else { "does_not_exist"@ },
            if exists { "true"@ } else { "false"@ }, DomModel::Exists), cs.len() as int),
{
    reveal_strlit("\" ");
    reveal_strlit("exists");
    reveal_strlit("does not exist");
    let l = sel.len() as int;
    let n = cs.len() as int;
    let tail = "\" "@ + exists_word(exists);
    assert(exists_word(exists).len() > 0);
    assert(tail.len() == 2 + exists_word(exists).len());
    assert(cs.subrange(p + 1 + l, n).len() == n - (p + 1 + l));
    assert(cs[p + 1 + l] == cs.subrange(p + 1 + l, n)[0]);
    assert(cs[p + 2 + l] == cs.subrange(p + 1 + l, n)[1]);
    assert(cs[p + 1 + l] == '"');
    assert(cs[p + 2 + l] == ' ');
    assert(delimited_at(cs, p, '`') is None);
    assert forall|j: int| 0 <= j < l implies #[trigger] cs.skip(p + 1)[j] != '"' by {
        assert(cs.skip(p + 1)[j] == cs.subrange(p + 1, p + 1 + l)[j]);
    }
    lemma_char_index_at(cs.skip(p + 1), '"', l);
    assert(text_lit_at(cs, p) == Some((sel, p + 2 + l)));
    assert(cs[p + 3 + l] == cs.subrange(p + 1 + l, n)[2]);
    reveal_strlit("exists");
    reveal_strlit("does not exist");
    assert(tail[2] == 'e' || tail[2] == 'd');
    lemma_ms_end_at(cs, p + 2 + l, p + 3 + l);
    assert(cs.subrange(p + 3 + l, n) =~= tail.subrange(2, tail.len() as int));
    assert(tail.subrange(2, tail.len() as int) =~= exists_word(exists));
    lemma_reads_op(cs, then, sel, p + 3 + l, exists);
}

/// The text of a selector-existence assertion, spelled out.
proof fn lemma_selector_text(c: Condition)
    requires
        (c.comparison@ == "exists"@ && c.value@ == "true"@)
            || (c.comparison@ == "does_not_exist"@ && c.value@ == "false"@),
        !c.is_call_assertion,
        c.selector is Some,
        c.dom_assert matches Some(DomAssertType::Exists),
    ensures
        condition_text(c) == (kind_word(c.condition_type is Then) + " selector \""@) + c.selector->0@
            + ("\" "@ + exists_word(c.comparison@ == "exists"@)),
{
    reveal_strlit(" selector ");
    reveal_strlit(" selector \"");
    reveal_strlit("\"");
    reveal_strlit("\" ");
    reveal_strlit(" ");
    reveal_strlit("exists");
    reveal_strlit("does_not_exist");
    assert(c.comparison@ != "exists"@ ==> c.comparison@ == "does_not_exist"@);
    assert(kind_text(c.condition_type) == kind_word(c.condition_type is Then));
    assert(condition_text(c) =~= (kind_word(c.condition_type is Then) + " selector \""@) + c.selector->0@
        + ("\" "@ + exists_word(c.comparison@ == "exists"@)));
}

/// Reading a whole selector-existence assertion.
proof fn lemma_reads_selector_text(cs: Seq<char>, then: bool, sel: Seq<char>, exists: bool)
    requires
        cs == (kind_word(then) + " selector \""@) + sel + ("\" "@ + exists_word(exists)),
        forall|j: int| 0 <= j < sel.len() ==> sel[j] != '"',
    ensures
        condition_at(cs, 0) == CondOutcome::Read(sel_model(then, sel,
            if exists { "exists"@ } else { "does_not_exist"@ },
            if exists { "true"@ } else { "false"@ }, DomModel::Exists), cs.len() as int),
{
    reveal_strlit(" selector \"");
    reveal_strlit("then");
    reveal_strlit("and");
    let k: int = if then { 4int } else { 3int };
    let a = kind_word(then) + " selector \""@;
    let b = "\" "@ + exists_word(exists);
    assert(a.len() == k + 11);
    lemma_concat3(a, sel, b);
    lemma_reads_head(cs, then, k);
    lemma_reads_selector(cs, then, k + 10, sel, exists);
}

/// The model of a selector-existence assertion.
proof fn lemma_selector_model(c: Condition)
    requires
        c.field@ == "selector"@,
        c.header_name is None,
        c.jq_expr is None,
        (c.comparison@ == "exists"@ && c.value@ == "true"@)
            || (c.comparison@ == "does_not_exist"@ && c.value@ == "false"@),
        !c.is_call_assertion,
        c.call_target is None,
        c.selector is Some,
        c.dom_assert matches Some(DomAssertType::Exists),
    ensures
        cond_model(c) == sel_model(c.condition_type is Then, c.selector->0@,
            if c.comparison@ == "exists"@ { "exists"@ } else { "does_not_exist"@ },
            if c.comparison@ == "exists"@ { "true"@ } else { "false"@ }, DomModel::Exists),
{
    reveal_strlit("exists");
    reveal_strlit("does_not_exist");
    assert("exists"@ != "does_not_exist"@) by {
        assert("exists"@.len() != "does_not_exist"@.len());
    }
}

/// An assertion that a selector matches something (or nothing), printed
/// and read back, is the same assertion, and the reader stops at the end
/// of the printed text. The selector may be any text without a double
/// quote.
pub proof fn law_selector_exists_round_trip(c: Condition)
    requires
        c.field@ == "selector"@,
        c.header_name is None,
        c.jq_expr is None,
        (c.comparison@ == "exists"@ && c.value@ == "true"@)
            || (c.comparison@ == "does_not_exist"@ && c.value@ == "false"@),
        !c.is_call_assertion,
        c.call_target is None,
        c.selector matches Some(s) && !s@.contains('"'),
        c.dom_assert matches Some(DomAssertType::Exists),
    ensures
        condition_at(condition_text(c), 0) == CondOutcome::Read(cond_model(c), condition_text(c).len() as int),
{
    let sel = c.selector->0@;
    assert forall|j: int| 0 <= j < sel.len() implies sel[j] != '"' by {
        if sel[j] == '"' {
            assert(sel.contains('"'));
        }
    }
    lemma_selector_text(c);
    lemma_reads_selector_text(condition_text(c), c.condition_type is Then, sel, c.comparison@ == "exists"@);
    lemma_selector_model(c);
}

/// The text of a plain assertion, spelled out.
proof fn lemma_plain_text(c: Condition)
    requires
        c.header_name is None,
        !c.is_call_assertion,
        c.selector is None,
    ensures
        condition_text(c) == kind_word(c.condition_type is Then)
            + plain_tail(c.field@, opt_view(c.jq_expr), c.comparison@, c.value@),
{
    reveal_strlit(" ");
    reveal_strlit(" `");
    reveal_strlit("`");
    assert(kind_text(c.condition_type) == kind_word(c.condition_type is Then));
    match c.jq_expr {
        Some(e) => {
            assert(c.field@ + " "@ + ticked(e@) =~= c.field@ + " `"@ + e@ + "`"@);
        },
        None => {},
    }
    assert(plain_rest(c) =~= plain_tail(c.field@, opt_view(c.jq_expr), c.comparison@, c.value@));
}

/// A plain assertion (a field such as `status` or `body`, with or without
/// a backtick filter, then a comparison word and a value), printed and
/// read back, is the same assertion, and the reader stops at the end of
/// the printed text. Left out are the assertions the printer cannot write
/// so that they read back the same: words with whitespace in them, a
/// filter with a backtick in it, a value over several lines or starting
/// with whitespace, a quote or a backtick (the reader takes the quotes off
/// a quoted value), a comparison starting with a backtick when there is no
/// filter, and the fields `call`, `selector` and `header`, which have forms
/// of their own.
pub proof fn law_plain_condition_round_trip(c: Condition)
    requires
        c.header_name is None,
        !c.is_call_assertion,
        c.call_target is None,
        c.selector is None,
        c.dom_assert is None,
        plain_readable(c.field@, opt_view(c.jq_expr), c.comparison@, c.value@),
    ensures
        condition_at(condition_text(c), 0) == CondOutcome::Read(cond_model(c), condition_text(c).len() as int),
{
    lemma_plain_text(c);
    lemma_reads_plain_text(condition_text(c), c.condition_type is Then, c.field@, opt_view(c.jq_expr),
        c.comparison@, c.value@);
    assert(cond_model(c) == plain_model(c.condition_type is Then, c.field@, opt_view(c.jq_expr), c.comparison@,
        c.value@));
}

/// Reading a header assertion, laid out piece by piece:
/// `then header "name" comparison value`.
#[verifier::spinoff_prover]
proof fn lemma_reads_header(cs: Seq<char>, then: bool, k: int, h: Seq<char>, w: Seq<char>, v: Seq<char>)
    requires
        k == (if then { 4int } else { 3int }),
        forall|j: int| 0 <= j < h.len() ==> #[trigger] h[j] != '"',
        tail_readable(w, v),
        cs.len() == k + 12 + h.len() + w.len() + v.len(),
        cs.subrange(0, k + 1) == kind_word(then) + " "@,
        cs.subrange(k + 1, k + 7) == "header"@,
        cs[k + 7] == ' ',
        cs[k + 8] == '"',
        cs.subrange(k + 9, k + 9 + h.len()) == h,
        cs[k + 9 + h.len()] == '"',
        cs[k + 10 + h.len()] == ' ',
        cs.subrange(k + 11 + h.len(), k + 11 + h.len() + w.len()) == w,
        cs[k + 11 + h.len() + w.len()] == ' ',
        cs.subrange(k + 12 + h.len() + w.len(), cs.len() as int) == v,
    ensures
        condition_at(cs, 0) == CondOutcome::Read(CondModel {
            then,
            field: "header"@,
            header_name: Some(h),
            jq_expr: None,
            comparison: w,
            value: v,
            is_call: false,
            call_target: None,
            selector: None,
            dom: None,
        }, cs.len() as int),
{
    reveal_strlit("header");
    reveal_strlit("call");
    reveal_strlit("selector");
    let c = k + 8;
    let lh = h.len() as int;
    let q = c + lh + 3;
    assert("header"@ != "call"@ && "header"@ != "selector"@) by {
        assert("header"@.len() != "call"@.len() && "header"@.len() != "selector"@.len());
    }
    assert(plain_word("header"@)) by {
        assert forall|j: int| 0 <= j < 6 implies !is_ms(#[trigger] "header"@[j]) by {
            assert("header"@ =~= seq!['h', 'e', 'a', 'd', 'e', 'r']);
        }
    }
    lemma_reads_field(cs, then, k, "header"@);
    assert(delimited_at(cs, c, '`') is None);
    assert forall|j: int| 0 <= j < lh implies #[trigger] cs.skip(c + 1)[j] != '"' by {
        assert(cs.skip(c + 1)[j] == cs.subrange(c + 1, c + 1 + lh)[j]);
        assert(cs.subrange(c + 1, c + 1 + lh)[j] == h[j]);
    }
    lemma_char_index_at(cs.skip(c + 1), '"', lh);
    assert(cs.subrange(c + 1, c + 1 + lh) == h);
    assert(text_lit_at(cs, c) == Some((h, c + lh + 2)));
    assert(cs[q] == cs.subrange(q, q + w.len())[0]);
    lemma_ms_end_at(cs, c + lh + 2, q);
    lemma_reads_comparison(cs, q, w, v);
}

/// A header assertion (`then header "Content-Type" equals text/html`),
/// printed and read back, is the same assertion, and the reader stops at
/// the end of the printed text. Left out, as for other plain assertions,
/// are a comparison word with whitespace in it, a value over several lines
/// or starting with whitespace, a quote or a backtick, and a header name
/// with a double quote in it.
pub proof fn law_header_condition_round_trip(c: Condition)
    requires
        c.field@ == "header"@,
        c.header_name matches Some(h) && !h@.contains('"'),
        c.jq_expr is None,
        !c.is_call_assertion,
        c.call_target is None,
        c.selector is None,
        c.dom_assert is None,
        tail_readable(c.comparison@, c.value@),
    ensures
        condition_at(condition_text(c), 0) == CondOutcome::Read(cond_model(c), condition_text(c).len() as int),
{
    reveal_strlit("header");
    reveal_strlit(" ");
    reveal_strlit("\"");
    reveal_strlit("then");
    reveal_strlit("and");
    let h = c.header_name->0@;
    let then = c.condition_type is Then;
    let k: int = if then { 4int } else { 3int };
    let cs = condition_text(c);
    let lh = h.len() as int;
    let lw = c.comparison@.len() as int;
    assert forall|j: int| 0 <= j < lh implies #[trigger] h[j] != '"' by {
        if h[j] == '"' {
            assert(h.contains('"'));
        }
    }
    assert(kind_text(c.condition_type) == kind_word(then));
    assert(kind_word(then).len() == k);
    let t = kind_word(then) + (" "@ + ("header"@ + " "@ + quoted(h)) + " "@ + c.comparison@ + " "@ + c.value@);
    assert(cs == t);
    assert(cs.subrange(0, k + 1) =~= kind_word(then) + " "@);
    assert(cs.subrange(k + 1, k + 7) =~= "header"@);
    assert(cs.subrange(k + 9, k + 9 + lh) =~= h);
    assert(cs.subrange(k + 11 + lh, k + 11 + lh + lw) =~= c.comparison@);
    assert(cs.subrange(k + 12 + lh + lw, cs.len() as int) =~= c.value@);
    lemma_reads_header(cs, then, k, h, c.comparison@, c.value@);
}

/// A GraphQL operation name as the reader takes it: a letter, digit or
/// `_`, then letters, digits, `_` or `-`.
pub open spec fn call_name(name: Seq<char>) -> bool {
    &&& name.len() > 0
    &&& wp_ident_start(name[0])
    &&& forall|j: int| 0 <= j < name.len() ==> ident_continue(#[trigger] name[j])
}

/// `ident_end` stops at the first character that cannot continue a name.
pub proof fn lemma_ident_end_at(cs: Seq<char>, p: int, q: int)
    requires
        0 <= p <= q <= cs.len(),
        forall|i: int| p <= i < q ==> ident_continue(#[trigger] cs[i]),
        q == cs.len() || !ident_continue(cs[q]),
    ensures
        ident_end(cs, p) == q,
    decreases q - p,
{
    if p < q {
        lemma_ident_end_at(cs, p + 1, q);
    }
}

/// Reading a call assertion, laid out piece by piece:
/// `then call query name with arguments value`.
#[verifier::spinoff_prover]
proof fn lemma_reads_call(cs: Seq<char>, then: bool, k: int, op: Seq<char>, name: Seq<char>, w: Seq<char>,
    v: Seq<char>)
    requires
        k == (if then { 4int } else { 3int }),
        op == "query"@ || op == "mutation"@,
        call_name(name),
        w == "with arguments"@ || (w == "with"@ && !starts_with(v, "arguments"@)),
        value_readable(v),
        cs.len() == k + 9 + op.len() + name.len() + w.len() + v.len(),
        cs.subrange(0, k + 1) == kind_word(then) + " "@,
        cs.subrange(k + 1, k + 5) == "call"@,
        cs[k + 5] == ' ',
        cs.subrange(k + 6, k + 6 + op.len()) == op,
        cs[k + 6 + op.len()] == ' ',
        cs.subrange(k + 7 + op.len(), k + 7 + op.len() + name.len()) == name,
        cs[k + 7 + op.len() + name.len()] == ' ',
        cs.subrange(k + 8 + op.len() + name.len(), k + 8 + op.len() + name.len() + w.len()) == w,
        cs[k + 8 + op.len() + name.len() + w.len()] == ' ',
        cs.subrange(k + 9 + op.len() + name.len() + w.len(), cs.len() as int) == v,
    ensures
        condition_at(cs, 0) == CondOutcome::Read(CondModel {
            then,
            field: "call"@,
            header_name: None,
            jq_expr: None,
            comparison: w,
            value: v,
            is_call: true,
            call_target: Some(op + "."@ + name),
            selector: None,
            dom: None,
        }, cs.len() as int),
{
    reveal_strlit("then");
    reveal_strlit("and");
    reveal_strlit(" ");
    reveal_strlit("call");
    reveal_strlit("query");
    reveal_strlit("mutation");
    reveal_strlit("with arguments");
    reveal_strlit("with");
    reveal_strlit("arguments");
    let n = cs.len() as int;
    let h0 = kind_word(then) + " "@;
    assert(h0.len() == k + 1);
    assert forall|i: int| 0 <= i < k + 1 implies cs[i] == h0[i] by {
        assert(cs[i] == cs.subrange(0, k + 1)[i]);
    }
    lemma_ms_end_at(cs, 0, 0);
    if then {
        assert(cs.subrange(0, 4) =~= "then"@);
    } else {
        assert(cs.subrange(0, 4)[0] == cs[0]);
        assert(!occurs_at(cs, "then"@, 0));
        assert(cs.subrange(0, 3) =~= "and"@);
    }
    assert(cond_kind_at(cs, 0) == Some((then, k)));
    // The field word `call`.
    assert(cs[k + 1] == cs.subrange(k + 1, k + 5)[0]);
    lemma_ms_end_at(cs, k, k + 1);
    assert forall|i: int| k + 1 <= i < k + 5 implies cs[i] != ' ' by {
        assert(cs[i] == cs.subrange(k + 1, k + 5)[i - k - 1]);
    }
    lemma_till_end_at(cs, k + 1, k + 5, ' ', ' ');
    assert(till1_at(cs, k + 1, ' ', ' ') == Some(("call"@, k + 5)));
    let c = k + 6;
    assert(cs[c] == cs.subrange(c, c + op.len())[0]);
    assert(!is_ms(cs[c]));
    lemma_ms_end_at(cs, k + 5, c);
    // The operation kind.
    let d0 = c + op.len();
    if op == "query"@ {
        assert(occurs_at(cs, "query"@, c));
    } else {
        assert(cs.subrange(c, c + 5)[0] == cs[c]);
        assert(!occurs_at(cs, "query"@, c));
        assert(occurs_at(cs, "mutation"@, c));
    }
    assert(call_kind_at(cs, c) == Some((op, d0)));
    // The operation name.
    let d = d0 + 1;
    let e = d + name.len();
    assert(cs[d] == cs.subrange(d, e)[0]);
    assert(!is_ms(cs[d])) by {
        assert(cs[d] == name[0]);
    }
    lemma_ms_end_at(cs, d0, d);
    assert forall|i: int| d <= i < e implies ident_continue(#[trigger] cs[i]) by {
        assert(cs[i] == cs.subrange(d, e)[i - d]);
        assert(ident_continue(name[i - d]));
    }
    lemma_ident_end_at(cs, d + 1, e);
    assert(cs.subrange(d, e) =~= name);
    assert(ident_at(cs, d) == Some((name, e)));
    // The comparison and the value.
    let g = e + 1;
    let hh = g + w.len();
    assert(cs[g] == cs.subrange(g, hh)[0]);
    assert(cs[g] == 'w');
    lemma_ms_end_at(cs, e, g);
    if w == "with arguments"@ {
        assert(occurs_at(cs, "with arguments"@, g));
    } else {
        assert(!occurs_at(cs, "with arguments"@, g)) by {
            if occurs_at(cs, "with arguments"@, g) {
                assert(v.take(9) =~= "arguments"@) by {
                    assert forall|j: int| 0 <= j < 9 implies v.take(9)[j] == "arguments"@[j] by {
                        assert(v[j] == cs[g + 5 + j]);
                        assert(cs[g + 5 + j] == cs.subrange(g, g + 14)[5 + j]);
                    }
                }
            }
        }
        assert(occurs_at(cs, "with"@, g));
    }
    assert(call_comparison_at(cs, g) == Some((w, hh)));
    assert(cs[hh + 1] == cs.subrange(hh + 1, n)[0]);
    lemma_ms_end_at(cs, hh, hh + 1);
    assert(delimited_at(cs, hh + 1, '`') is None);
    assert(delimited_at(cs, hh + 1, '"') is None);
    assert forall|j: int| 0 <= j < v.len() implies #[trigger] v[j] != '\n' && v[j] != '\n' by {
    }
    lemma_reads_word(cs, hh + 1, v, '\n', '\n');
}

/// Reading a printed call assertion, from its text.
#[verifier::spinoff_prover]
proof fn lemma_reads_call_text(cs: Seq<char>, then: bool, op: Seq<char>, name: Seq<char>, w: Seq<char>, v: Seq<char>)
    requires
        cs == kind_word(then) + " call "@ + op + " "@ + name + " "@ + w + " "@ + v,
        op == "query"@ || op == "mutation"@,
        call_name(name),
        w == "with arguments"@ || (w == "with"@ && !starts_with(v, "arguments"@)),
        value_readable(v),
    ensures
        condition_at(cs, 0) == CondOutcome::Read(CondModel {
            then,
            field: "call"@,
            header_name: None,
            jq_expr: None,
            comparison: w,
            value: v,
            is_call: true,
            call_target: Some(op + "."@ + name),
            selector: None,
            dom: None,
        }, cs.len() as int),
{
    reveal_strlit("then");
    reveal_strlit("and");
    reveal_strlit(" ");
    reveal_strlit(" call ");
    reveal_strlit("call");
    let k: int = if then { 4int } else { 3int };
    assert(kind_word(then).len() == k);
    let lo = op.len() as int;
    let ln = name.len() as int;
    let lw = w.len() as int;
    let n = cs.len() as int;
    assert(cs.subrange(0, k + 1) =~= kind_word(then) + " "@);
    assert(cs.subrange(k + 1, k + 5) =~= "call"@);
    assert(cs.subrange(k + 6, k + 6 + lo) =~= op);
    assert(cs.subrange(k + 7 + lo, k + 7 + lo + ln) =~= name);
    assert(cs.subrange(k + 8 + lo + ln, k + 8 + lo + ln + lw) =~= w);
    assert(cs.subrange(k + 9 + lo + ln + lw, n) =~= v);
    lemma_reads_call(cs, then, k, op, name, w, v);
}

/// A GraphQL call assertion (`then call query users with arguments
/// {"id": 1}`), printed and read back, is the same assertion, and the
/// reader stops at the end of the printed text. Its target is `query.` or
/// `mutation.` and an operation name; the printer writes the dot as a
/// space. Left out are a comparison `with` before a value that starts
/// with `arguments` (the reader takes `with arguments` then), and a value
/// over several lines or starting with whitespace, a quote or a backtick.
pub proof fn law_call_condition_round_trip(c: Condition, op: Seq<char>, name: Seq<char>)
    requires
        c.field@ == "call"@,
        c.header_name is None,
        c.jq_expr is None,
        c.is_call_assertion,
        c.call_target matches Some(t) && t@ == op + "."@ + name,
        op == "query"@ || op == "mutation"@,
        call_name(name),
        c.comparison@ == "with arguments"@ || (c.comparison@ == "with"@ && !starts_with(c.value@, "arguments"@)),
        value_readable(c.value@),
        c.selector is None,
        c.dom_assert is None,
    ensures
        condition_at(condition_text(c), 0) == CondOutcome::Read(cond_model(c), condition_text(c).len() as int),
{
    reveal_strlit(".");
    reveal_strlit(" ");
    reveal_strlit("query");
    reveal_strlit("mutation");
    let t = c.call_target->0@;
    let then = c.condition_type is Then;
    let lo = op.len() as int;
    assert forall|i: int| 0 <= i < t.len() implies #[trigger] t[i] == '.' <==> i == lo by {
        if i > lo {
            assert(t[i] == name[i - lo - 1]);
            assert(ident_continue(name[i - lo - 1]));
        }
    }
    assert(replace_char(t, '.', ' ') =~= op + " "@ + name);
    assert(kind_text(c.condition_type) == kind_word(then));
    assert(call_rest(c) == " call "@ + replace_char(t, '.', ' ') + " "@ + c.comparison@ + " "@ + c.value@);
    assert(condition_text(c) =~= kind_word(then) + " call "@ + op + " "@ + name + " "@ + c.comparison@ + " "@
        + c.value@);
    lemma_reads_call_text(condition_text(c), then, op, name, c.comparison@, c.value@);
}

/// Reading the quoted selector at `p` and a `text` assertion after it.
#[verifier::spinoff_prover]
proof fn lemma_reads_selector_text_op(cs: Seq<char>, then: bool, p: int, sel: Seq<char>, w: Seq<char>, v: Seq<char>)
    requires
        0 <= p,
        p + 1 + sel.len() + 7 + w.len() + 1 + v.len() == cs.len(),
        forall|j: int| 0 <= j < sel.len() ==> sel[j] != '"',
        tail_readable(w, v),
        cs[p] == '"',
        cs.subrange(p + 1, p + 1 + sel.len()) == sel,
        cs.subrange(p + 1 + sel.len(), p + 8 + sel.len()) == "\" text "@,
        cs.subrange(p + 8 + sel.len(), p + 8 + sel.len() + w.len()) == w,
        cs[p + 8 + sel.len() + w.len()] == ' ',
        cs.subrange(p + 9 + sel.len() + w.len(), cs.len() as int) == v,
    ensures
        selector_cond_at(cs, then, p) == CondOutcome::Read(sel_model(then, sel, w, v, DomModel::Text), cs.len() as int),
{
    reveal_strlit("\" text ");
    reveal_strlit("text");
    let l = sel.len() as int;
    let h = "\" text "@;
    assert forall|i: int| p + 1 + l <= i < p + 8 + l implies cs[i] == h[i - p - 1 - l] by {
        assert(cs[i] == cs.subrange(p + 1 + l, p + 8 + l)[i - p - 1 - l]);
    }
    assert(delimited_at(cs, p, '`') is None);
    assert forall|j: int| 0 <= j < l implies #[trigger] cs.skip(p + 1)[j] != '"' by {
        assert(cs.skip(p + 1)[j] == cs.subrange(p + 1, p + 1 + l)[j]);
    }
    lemma_char_index_at(cs.skip(p + 1), '"', l);
    assert(text_lit_at(cs, p) == Some((sel, p + 2 + l)));
    lemma_ms_end_at(cs, p + 2 + l, p + 3 + l);
    lemma_till_end_at(cs, p + 3 + l, p + 7 + l, ' ', '\n');
    assert(cs.subrange(p + 3 + l, p + 7 + l) =~= "text"@);
    assert(cs[p + 8 + l] == cs.subrange(p + 8 + l, p + 8 + l + w.len())[0]);
    assert(!is_ms(cs[p + 8 + l])) by {
        assert(cs[p + 8 + l] == w[0]);
    }
    lemma_ms_end_at(cs, p + 7 + l, p + 8 + l);
    lemma_reads_comparison(cs, p + 8 + l, w, v);
    reveal_strlit("exists");
    reveal_strlit("does");
    assert(till1_at(cs, p + 3 + l, ' ', '\n') == Some(("text"@, p + 7 + l)));
    assert("text"@ != "exists"@) by {
        assert("text"@.len() != "exists"@.len());
    }
    assert("text"@ != "does"@) by {
        assert("text"@[0] != "does"@[0]);
    }
    assert(selector_op_at(cs, then, sel, "text"@, p + 8 + l)
        == CondOutcome::Read(sel_model(then, sel, w, v, DomModel::Text), cs.len() as int));
}

/// A DOM text assertion (`then selector "h1" text equals Welcome`),
/// printed and read back, is the same assertion, and the reader stops at
/// the end of the printed text. Left out are a selector with a double
/// quote in it, a comparison word with whitespace in it, and a value over
/// several lines or starting with whitespace, a quote or a backtick.
pub proof fn law_selector_text_round_trip(c: Condition)
    requires
        c.field@ == "selector"@,
        c.header_name is None,
        c.jq_expr is None,
        !c.is_call_assertion,
        c.call_target is None,
        c.selector matches Some(s) && !s@.contains('"'),
        c.dom_assert matches Some(DomAssertType::Text),
        tail_readable(c.comparison@, c.value@),
    ensures
        condition_at(condition_text(c), 0) == CondOutcome::Read(cond_model(c), condition_text(c).len() as int),
{
    reveal_strlit("then");
    reveal_strlit("and");
    reveal_strlit(" selector \"");
    reveal_strlit(" selector ");
    reveal_strlit("\"");
    reveal_strlit("\" text ");
    reveal_strlit(" text ");
    reveal_strlit(" ");
    let sel = c.selector->0@;
    let then = c.condition_type is Then;
    let k: int = if then { 4int } else { 3int };
    let l = sel.len() as int;
    let w = c.comparison@;
    let v = c.value@;
    let cs = condition_text(c);
    assert forall|j: int| 0 <= j < l implies sel[j] != '"' by {
        if sel[j] == '"' {
            assert(sel.contains('"'));
        }
    }
    assert(kind_text(c.condition_type) == kind_word(then));
    assert(kind_word(then).len() == k);
    assert(cs =~= (kind_word(then) + " selector \""@) + sel + ("\" text "@ + w + " "@ + v));
    let a = kind_word(then) + " selector \""@;
    let b = "\" text "@ + w + " "@ + v;
    lemma_concat3(a, sel, b);
    lemma_reads_head(cs, then, k);
    assert(cs.subrange(k + 11 + l, k + 18 + l) =~= "\" text "@);
    assert(cs.subrange(k + 18 + l, k + 18 + l + w.len()) =~= w);
    assert(cs[k + 18 + l + w.len()] == ' ');
    assert(cs.subrange(k + 19 + l + w.len(), cs.len() as int) =~= v);
    lemma_reads_selector_text_op(cs, then, k + 10, sel, w, v);
    assert(cond_model(c) == sel_model(then, sel, w, v, DomModel::Text));
}

/// What a DOM count assertion may hold for it to read back whole: the
/// comparison is one word without digits; the value starts with a digit,
/// is on one line and does not end with whitespace.
pub open spec fn count_readable(comparison: Seq<char>, value: Seq<char>) -> bool {
    &&& plain_word(comparison)
    &&& forall|j: int| 0 <= j < comparison.len() ==> !is_digit(#[trigger] comparison[j])
    &&& !is_ws(comparison[0]) && !is_ws(comparison.last())
    &&& value.len() > 0
    &&& is_digit(value[0])
    &&& forall|j: int| 0 <= j < value.len() ==> #[trigger] value[j] != '\n'
    &&& !is_ws(value.last())
}

/// `nondigit_end` stops at the first digit (or the end).
proof fn lemma_nondigit_end_at(cs: Seq<char>, p: int, q: int)
    requires
        0 <= p <= q <= cs.len(),
        forall|i: int| p <= i < q ==> !is_digit(#[trigger] cs[i]),
        q == cs.len() || is_digit(cs[q]),
    ensures
        nondigit_end(cs, p) == q,
    decreases q - p,
{
    if p < q {
        lemma_nondigit_end_at(cs, p + 1, q);
    }
}

/// Trimming leaves a text that neither starts nor ends with whitespace,
/// and takes one trailing space off it.
proof fn lemma_trim_word(w: Seq<char>)
    requires
        w.len() > 0,
        !is_ws(w[0]),
        !is_ws(w.last()),
    ensures
        trim(w) == w,
        trim(w + " "@) == w,
{
    reveal_strlit(" ");
    let ws = w + " "@;
    assert(trim_start(w) == w);
    assert(trim_start(ws) == ws);
    assert(ws.drop_last() =~= w);
    assert(trim_end(w) == w);
    assert(trim_end(ws) == trim_end(w));
}

/// Reading the quoted selector at `p` and a `count` assertion after it.
#[verifier::spinoff_prover]
proof fn lemma_reads_selector_count_op(cs: Seq<char>, then: bool, p: int, sel: Seq<char>, w: Seq<char>, v: Seq<char>)
    requires
        0 <= p,
        p + 1 + sel.len() + 8 + w.len() + 1 + v.len() == cs.len(),
        forall|j: int| 0 <= j < sel.len() ==> sel[j] != '"',
        count_readable(w, v),
        cs[p] == '"',
        cs.subrange(p + 1, p + 1 + sel.len()) == sel,
        cs.subrange(p + 1 + sel.len(), p + 9 + sel.len()) == "\" count "@,
        cs.subrange(p + 9 + sel.len(), p + 9 + sel.len() + w.len()) == w,
        cs[p + 9 + sel.len() + w.len()] == ' ',
        cs.subrange(p + 10 + sel.len() + w.len(), cs.len() as int) == v,
    ensures
        selector_cond_at(cs, then, p) == CondOutcome::Read(sel_model(then, sel, w, v, DomModel::Count), cs.len() as int),
{
    reveal_strlit("\" count ");
    reveal_strlit("count");
    reveal_strlit("exists");
    reveal_strlit("does");
    reveal_strlit("text");
    reveal_strlit(" ");
    let l = sel.len() as int;
    let n = cs.len() as int;
    let hd = "\" count "@;
    assert forall|i: int| p + 1 + l <= i < p + 9 + l implies cs[i] == hd[i - p - 1 - l] by {
        assert(cs[i] == cs.subrange(p + 1 + l, p + 9 + l)[i - p - 1 - l]);
    }
    assert(delimited_at(cs, p, '`') is None);
    assert forall|j: int| 0 <= j < l implies #[trigger] cs.skip(p + 1)[j] != '"' by {
        assert(cs.skip(p + 1)[j] == cs.subrange(p + 1, p + 1 + l)[j]);
    }
    lemma_char_index_at(cs.skip(p + 1), '"', l);
    assert(text_lit_at(cs, p) == Some((sel, p + 2 + l)));
    lemma_ms_end_at(cs, p + 2 + l, p + 3 + l);
    lemma_till_end_at(cs, p + 3 + l, p + 8 + l, ' ', '\n');
    assert(cs.subrange(p + 3 + l, p + 8 + l) =~= "count"@);
    let g = p + 9 + l;
    let h = g + w.len() + 1;
    assert(cs[g] == cs.subrange(g, g + w.len())[0]);
    assert(!is_ms(cs[g])) by {
        assert(cs[g] == w[0]);
    }
    lemma_ms_end_at(cs, p + 8 + l, g);
    assert forall|i: int| g <= i < h implies !is_digit(#[trigger] cs[i]) by {
        if i < g + w.len() {
            assert(cs[i] == cs.subrange(g, g + w.len())[i - g]);
            assert(!is_digit(w[i - g]));
        }
    }
    assert(cs[h] == cs.subrange(h, n)[0]);
    lemma_nondigit_end_at(cs, g, h);
    assert(cs.subrange(g, h) =~= w + " "@);
    lemma_trim_word(w);
    assert(v.last() == v[v.len() - 1]);
    assert(!is_ws(v[0])) by {
        assert(is_digit(v[0]));
    }
    lemma_trim_word(v);
    lemma_reads_word(cs, h, v, '\n', '\n');
    assert("count"@ != "exists"@ && "count"@ != "does"@ && "count"@ != "text"@) by {
        assert("count"@.len() != "exists"@.len() && "count"@.len() != "does"@.len()
            && "count"@.len() != "text"@.len());
    }
    assert(till1_at(cs, p + 3 + l, ' ', '\n') == Some(("count"@, p + 8 + l)));
    assert(selector_op_at(cs, then, sel, "count"@, g)
        == CondOutcome::Read(sel_model(then, sel, w, v, DomModel::Count), cs.len() as int));
}

/// A DOM count assertion (`then selector "li" count equals 3`), printed
/// and read back, is the same assertion, and the reader stops at the end
/// of the printed text. The reader takes the comparison to run up to the
/// first digit, so left out are a comparison with a digit or whitespace
/// in it, a value that does not start with a digit, and a value over
/// several lines or ending with whitespace (the reader trims it), besides
/// a selector with a double quote in it.
pub proof fn law_selector_count_round_trip(c: Condition)
    requires
        c.field@ == "selector"@,
        c.header_name is None,
        c.jq_expr is None,
        !c.is_call_assertion,
        c.call_target is None,
        c.selector matches Some(s) && !s@.contains('"'),
        c.dom_assert matches Some(DomAssertType::Count),
        count_readable(c.comparison@, c.value@),
    ensures
        condition_at(condition_text(c), 0) == CondOutcome::Read(cond_model(c), condition_text(c).len() as int),
{
    reveal_strlit("then");
    reveal_strlit("and");
    reveal_strlit(" selector \"");
    reveal_strlit(" selector ");
    reveal_strlit("\"");
    reveal_strlit("\" count ");
    reveal_strlit(" count ");
    reveal_strlit(" ");
    let sel = c.selector->0@;
    let then = c.condition_type is Then;
    let k: int = if then { 4int } else { 3int };
    let l = sel.len() as int;
    let w = c.comparison@;
    let v = c.value@;
    let cs = condition_text(c);
    assert forall|j: int| 0 <= j < l implies sel[j] != '"' by {
        if sel[j] == '"' {
            assert(sel.contains('"'));
        }
    }
    assert(kind_text(c.condition_type) == kind_word(then));
    assert(kind_word(then).len() == k);
    assert(cs =~= (kind_word(then) + " selector \""@) + sel + ("\" count "@ + w + " "@ + v));
    let a = kind_word(then) + " selector \""@;
    let b = "\" count "@ + w + " "@ + v;
    lemma_concat3(a, sel, b);
    lemma_reads_head(cs, then, k);
    assert(cs.subrange(k + 11 + l, k + 19 + l) =~= "\" count "@);
    assert(cs.subrange(k + 19 + l, k + 19 + l + w.len()) =~= w);
    assert(cs[k + 19 + l + w.len()] == ' ');
    assert(cs.subrange(k + 20 + l + w.len(), cs.len() as int) =~= v);
    lemma_reads_selector_count_op(cs, then, k + 10, sel, w, v);
    assert(cond_model(c) == sel_model(then, sel, w, v, DomModel::Count));
}

} // verus!
