//! Printed tag expressions read back: what the printer writes of a step's
//! tag condition, the tag reader reads as the same condition.

use vstd::prelude::*;
use crate::ast::{Tag, TagExpr};
use crate::parser::{ExprModel, expr_model, or_at, and_at, and_rest, or_rest, primary_at, tag_at, tag_args_at,
    args_rest, arg_at, ident_at, delimited_at, char_at, ms_end, is_ms, wp_ident_start, lemma_ms_end_at};
use crate::printer::{expr_text, tag_text, arg_text, bare_arg_char, ticked};
use crate::readback::lemma_ident_end_at;
use crate::schema::{ident_continue, ident_end};
use crate::text::{join, occurs_at, is_alnum, lemma_char_index_at};

verus! {

/// A word the reader takes as a name: a letter, digit or `_`, then
/// letters, digits, `_` or `-`.
pub open spec fn ident_word(w: Seq<char>) -> bool {
    &&& w.len() > 0
    &&& wp_ident_start(w[0])
    &&& forall|j: int| 0 <= j < w.len() ==> ident_continue(#[trigger] w[j])
}

/// A tag argument that reads back as written: a name, or a text that the
/// printer puts in backticks (one with a character other than a letter,
/// digit, `_` or `-`) and that holds no backtick.
pub open spec fn arg_readable(a: Seq<char>) -> bool {
    ||| ident_word(a)
    ||| (exists|j: int| 0 <= j < a.len() && !bare_arg_char(#[trigger] a[j]))
        && forall|j: int| 0 <= j < a.len() ==> #[trigger] a[j] != '`'
}

/// A tag whose text reads back: its name is a name and each argument
/// reads back.
pub open spec fn tag_readable(t: Tag) -> bool {
    ident_word(t.name@) && forall|i: int| 0 <= i < t.args@.len() ==> arg_readable(#[trigger] t.args@[i]@)
}

/// The two parts of a concatenation, read from a text that holds it at `p`.
proof fn lemma_split(cs: Seq<char>, p: int, x: Seq<char>, y: Seq<char>)
    requires
        0 <= p,
        p + x.len() + y.len() <= cs.len(),
        cs.subrange(p, p + x.len() + y.len()) == x + y,
    ensures
        cs.subrange(p, p + x.len()) == x,
        cs.subrange(p + x.len(), p + x.len() + y.len()) == y,
{
    assert(cs.subrange(p, p + x.len()) =~= (x + y).subrange(0, x.len() as int));
    assert((x + y).subrange(0, x.len() as int) =~= x);
    assert(cs.subrange(p + x.len(), p + x.len() + y.len()) =~= (x + y).subrange(x.len() as int, (x.len() + y.len()) as int));
    assert((x + y).subrange(x.len() as int, (x.len() + y.len()) as int) =~= y);
}

/// The character at `p + i` of a text that holds `x` at `p`.
proof fn lemma_char(cs: Seq<char>, p: int, x: Seq<char>, i: int)
    requires
        0 <= p,
        p + x.len() <= cs.len(),
        cs.subrange(p, p + x.len()) == x,
        0 <= i < x.len(),
    ensures
        cs[p + i] == x[i],
{
    assert(cs.subrange(p, p + x.len())[i] == cs[p + i]);
}

/// A name's characters are plain ASCII, so the printer writes it bare.
proof fn lemma_ident_bare(a: Seq<char>)
    requires
        ident_word(a),
    ensures
        arg_text(a) == a,
{
    assert forall|j: int| 0 <= j < a.len() implies bare_arg_char(#[trigger] a[j]) by {
        assert(ident_continue(a[j]));
        assert((a[j] as u32) < 128);
    }
}

/// The first character of an argument's text: not whitespace, and a
/// backtick or the start of a name.
proof fn lemma_arg_first(a: Seq<char>)
    requires
        arg_readable(a),
    ensures
        arg_text(a).len() > 0,
        !is_ms(arg_text(a)[0]),
        arg_text(a)[0] == '`' || wp_ident_start(arg_text(a)[0]),
{
    reveal_strlit("`");
    if ident_word(a) {
        lemma_ident_bare(a);
    } else {
        assert(arg_text(a) == ticked(a));
        assert(ticked(a)[0] == '`');
    }
}

/// Reading one argument whose text stands at `p`, before a `,` or `)`.
proof fn lemma_reads_arg(cs: Seq<char>, p: int, a: Seq<char>)
    requires
        arg_readable(a),
        0 <= p,
        p + arg_text(a).len() < cs.len(),
        cs.subrange(p, p + arg_text(a).len()) == arg_text(a),
        cs[p + arg_text(a).len()] == ',' || cs[p + arg_text(a).len()] == ')',
    ensures
        arg_at(cs, p) == Some((a, p + arg_text(a).len())),
{
    reveal_strlit("`");
    let at = arg_text(a);
    let n = at.len() as int;
    if ident_word(a) {
        lemma_ident_bare(a);
        lemma_char(cs, p, at, 0);
        assert(delimited_at(cs, p, '`') is None);
        assert forall|i: int| p + 1 <= i < p + n implies ident_continue(#[trigger] cs[i]) by {
            lemma_char(cs, p, at, i - p);
        }
        lemma_ident_end_at(cs, p + 1, p + n);
    } else {
        assert(at == ticked(a));
        let l = a.len() as int;
        assert(n == l + 2);
        lemma_char(cs, p, at, 0);
        lemma_char(cs, p, at, l + 1);
        assert forall|j: int| 0 <= j < l implies #[trigger] cs.skip(p + 1)[j] != '`' by {
            lemma_char(cs, p, at, j + 1);
            assert(at[j + 1] == a[j]);
        }
        assert(cs.skip(p + 1)[l] == '`');
        lemma_char_index_at(cs.skip(p + 1), '`', l);
        assert(cs.subrange(p + 1, p + 1 + l) =~= a) by {
            assert forall|j: int| 0 <= j < l implies cs.subrange(p + 1, p + 1 + l)[j] == a[j] by {
                lemma_char(cs, p, at, j + 1);
            }
        }
    }
}

/// The texts of arguments, as the printer writes them.
pub open spec fn args_texts(a: Seq<Seq<char>>) -> Seq<Seq<char>> {
    a.map_values(|x: Seq<char>| arg_text(x))
}

/// Reading an argument list's items, written with commas between them at
/// `p`, before the closing `)`.
proof fn lemma_reads_args(cs: Seq<char>, p: int, a: Seq<Seq<char>>)
    requires
        a.len() > 0,
        forall|i: int| 0 <= i < a.len() ==> arg_readable(#[trigger] a[i]),
        0 <= p,
        p + join(args_texts(a), ","@).len() < cs.len(),
        cs.subrange(p, p + join(args_texts(a), ","@).len()) == join(args_texts(a), ","@),
        cs[p + join(args_texts(a), ","@).len()] == ')',
    ensures
        arg_at(cs, p) == Some((a[0], p + arg_text(a[0]).len())),
        args_rest(cs, p + arg_text(a[0]).len()) == (a.drop_first(), p + join(args_texts(a), ","@).len()),
    decreases a.len(),
{
    reveal_strlit(",");
    let m = args_texts(a);
    let j = join(m, ","@);
    let e1 = p + arg_text(a[0]).len();
    assert(m[0] == arg_text(a[0]));
    if a.len() == 1 {
        assert(j == m[0]);
        lemma_reads_arg(cs, p, a[0]);
        assert(a.drop_first() =~= Seq::<Seq<char>>::empty());
    } else {
        let rest = a.drop_first();
        assert(m.drop_first() =~= args_texts(rest));
        let jr = join(args_texts(rest), ","@);
        assert(j == m[0] + ","@ + jr);
        lemma_split(cs, p, m[0] + ","@, jr);
        lemma_split(cs, p, m[0], ","@);
        lemma_char(cs, p, m[0] + ","@, m[0].len() as int);
        lemma_reads_arg(cs, p, a[0]);
        assert(forall|i: int| 0 <= i < rest.len() ==> arg_readable(#[trigger] rest[i])) by {
            assert forall|i: int| 0 <= i < rest.len() implies arg_readable(#[trigger] rest[i]) by {
                assert(rest[i] == a[i + 1]);
            }
        }
        lemma_reads_args(cs, e1 + 1, rest);
        lemma_arg_first(rest[0]);
        assert(args_texts(rest)[0] == arg_text(rest[0]));
        assert(rest.len() == 1 ==> jr == args_texts(rest)[0]);
        assert(rest.len() > 1 ==> jr == args_texts(rest)[0] + ","@ + join(args_texts(rest).drop_first(), ","@));
        assert(cs[e1 + 1] == arg_text(rest[0])[0]) by {
            assert(jr =~= arg_text(rest[0]) + jr.subrange(arg_text(rest[0]).len() as int, jr.len() as int));
            lemma_split(cs, e1 + 1, arg_text(rest[0]), jr.subrange(arg_text(rest[0]).len() as int, jr.len() as int));
            lemma_char(cs, e1 + 1, arg_text(rest[0]), 0);
        }
        lemma_ms_end_at(cs, e1 + 1, e1 + 1);
        assert(seq![rest[0]] + rest.drop_first() =~= rest);
    }
}

/// A place where a tag expression's text may stop: the end, a space or a
/// closing bracket.
pub open spec fn stops(cs: Seq<char>, q: int) -> bool {
    q == cs.len() || (0 <= q < cs.len() && (cs[q] == ' ' || cs[q] == ')'))
}

/// The model of a tag's arguments.
pub open spec fn arg_views(t: Tag) -> Seq<Seq<char>> {
    t.args@.map_values(|a: String| a@)
}

/// Reading a tag whose text stands at `p`.
#[verifier::spinoff_prover]
proof fn lemma_reads_tag(cs: Seq<char>, p: int, t: Tag)
    requires
        tag_readable(t),
        0 <= p,
        p + tag_text(t).len() <= cs.len(),
        cs.subrange(p, p + tag_text(t).len()) == tag_text(t),
        stops(cs, p + tag_text(t).len()),
    ensures
        tag_at(cs, p) == Some(((t.name@, t.negated, arg_views(t)), p + tag_text(t).len())),
{
    reveal_strlit("@");
    reveal_strlit("!");
    reveal_strlit("(");
    reveal_strlit(")");
    reveal_strlit(",");
    let tt = tag_text(t);
    let neg: Seq<char> = if t.negated { "!"@ } else { Seq::empty() };
    let name = t.name@;
    let a = arg_views(t);
    let argpart: Seq<char> = if t.args@.len() == 0 {
        Seq::empty()
    } else {
        "("@ + join(t.args@.map_values(|x: String| arg_text(x@)), ","@) + ")"@
    };
    assert(tt == "@"@ + neg + name + argpart);
    let head = "@"@ + neg;
    let q = p + head.len();
    let e = q + name.len();
    let end = p + tt.len();
    assert(tt =~= (head + name) + argpart);
    lemma_split(cs, p, head + name, argpart);
    lemma_split(cs, p, head, name);
    lemma_char(cs, p, head, 0);
    if t.negated {
        lemma_char(cs, p, head, 1);
    } else {
        lemma_char(cs, q, name, 0);
        assert(name[0] != '!');
    }
    lemma_char(cs, q, name, 0);
    assert forall|i: int| q + 1 <= i < e implies ident_continue(#[trigger] cs[i]) by {
        lemma_char(cs, q, name, i - q);
    }
    if t.args@.len() == 0 {
        assert(e == end);
        lemma_ident_end_at(cs, q + 1, e);
        assert(tag_args_at(cs, e) is None);
        assert(a =~= Seq::<Seq<char>>::empty());
    } else {
        let m = t.args@.map_values(|x: String| arg_text(x@));
        assert(m =~= args_texts(a));
        let j = join(m, ","@);
        assert(argpart == "("@ + j + ")"@);
        lemma_split(cs, e, "("@ + j, ")"@);
        lemma_split(cs, e, "("@, j);
        lemma_char(cs, e, "("@, 0);
        lemma_char(cs, e + 1 + j.len(), ")"@, 0);
        lemma_ident_end_at(cs, q + 1, e);
        assert(forall|i: int| 0 <= i < a.len() ==> arg_readable(#[trigger] a[i])) by {
            assert forall|i: int| 0 <= i < a.len() implies arg_readable(#[trigger] a[i]) by {
                assert(a[i] == t.args@[i]@);
            }
        }
        lemma_reads_args(cs, e + 1, a);
        lemma_arg_first(a[0]);
        assert(args_texts(a)[0] == arg_text(a[0]));
        assert(j.len() >= arg_text(a[0]).len() && j.subrange(0, arg_text(a[0]).len() as int) == arg_text(a[0])) by {
            if a.len() == 1 {
                assert(j == args_texts(a)[0]);
                assert(j.subrange(0, arg_text(a[0]).len() as int) =~= j);
            } else {
                assert(j == args_texts(a)[0] + ","@ + join(args_texts(a).drop_first(), ","@));
                assert(j.subrange(0, arg_text(a[0]).len() as int) =~= arg_text(a[0]));
            }
        }
        assert(cs[e + 1] == j[0]) by {
            lemma_char(cs, e + 1, j, 0);
        }
        assert(j[0] == arg_text(a[0])[0]) by {
            assert(j.subrange(0, arg_text(a[0]).len() as int)[0] == j[0]);
        }
        lemma_ms_end_at(cs, e + 1, e + 1);
        assert(seq![a[0]] + a.drop_first() =~= a);
    }
}

/// A tag expression whose text reads back as itself: its tags read back,
/// no `and` has an `and` as its right operand and no `or` an `or`. (The
/// printer writes such chains without brackets, and the reader groups
/// them to the left, which keeps what they mean but not their shape.)
pub open spec fn expr_readable(e: TagExpr) -> bool
    decreases e,
{
    match e {
        TagExpr::Tag(t) => tag_readable(t),
        TagExpr::And(l, r) => expr_readable(*l) && expr_readable(*r) && !(*r is And),
        TagExpr::Or(l, r) => expr_readable(*l) && expr_readable(*r) && !(*r is Or),
    }
}

/// The text of an operand of `and`: an `or` in brackets.
pub open spec fn operand_text(e: TagExpr) -> Seq<char> {
    if e is Or {
        "("@ + expr_text(e) + ")"@
    } else {
        expr_text(e)
    }
}

/// The text of a tag expression starts with `@` or `(`.
proof fn lemma_expr_first(e: TagExpr)
    requires
        expr_readable(e),
    ensures
        expr_text(e).len() > 0,
        expr_text(e)[0] == '@' || expr_text(e)[0] == '(',
        operand_text(e).len() > 0,
        operand_text(e)[0] == '@' || operand_text(e)[0] == '(',
    decreases e,
{
    reveal_strlit("@");
    reveal_strlit("(");
    reveal_strlit(" and ");
    reveal_strlit(" or ");
    match e {
        TagExpr::Tag(t) => {
            assert(tag_text(t)[0] == '@');
        },
        TagExpr::And(l, r) => {
            lemma_expr_first(*l);
            assert(expr_text(e) == operand_text(*l) + " and "@ + operand_text(*r));
        },
        TagExpr::Or(l, r) => {
            lemma_expr_first(*l);
            assert(expr_text(e) == expr_text(*l) + " or "@ + expr_text(*r));
        },
    }
}

/// `and` does not continue at `q` when the next word is not `and`.
proof fn lemma_and_stops(cs: Seq<char>, acc: ExprModel, q: int)
    requires
        0 <= q <= cs.len(),
        !occurs_at(cs, "and"@, ms_end(cs, q)),
    ensures
        and_rest(cs, acc, q) == (acc, q),
{
}

/// `or` does not continue at `q` when the next word is not `or`.
proof fn lemma_or_stops(cs: Seq<char>, acc: ExprModel, q: int)
    requires
        0 <= q <= cs.len(),
        !occurs_at(cs, "or"@, ms_end(cs, q)),
    ensures
        or_rest(cs, acc, q) == (acc, q),
{
}

/// Reading an operand (a tag, or an `or` in brackets) whose text stands at
/// `p`.
#[verifier::spinoff_prover]
proof fn lemma_reads_primary(cs: Seq<char>, p: int, e: TagExpr)
    requires
        expr_readable(e),
        !(e is And),
        0 <= p,
        p + operand_text(e).len() <= cs.len(),
        cs.subrange(p, p + operand_text(e).len()) == operand_text(e),
        stops(cs, p + operand_text(e).len()),
    ensures
        primary_at(cs, p) == Some((expr_model(e), p + operand_text(e).len())),
    decreases e, 3int,
{
    reveal_strlit("(");
    reveal_strlit(")");
    reveal_strlit("@");
    reveal_strlit("and");
    match e {
        TagExpr::Tag(t) => {
            lemma_reads_tag(cs, p, t);
            lemma_char(cs, p, tag_text(t), 0);
            assert(tag_text(t)[0] == '@');
            assert(expr_model(e) == ExprModel::T(t.name@, t.negated, arg_views(t)));
        },
        TagExpr::Or(_, _) => {
            let x = expr_text(e);
            let f = p + 1 + x.len();
            lemma_expr_first(e);
            lemma_split(cs, p, "("@ + x, ")"@);
            lemma_split(cs, p, "("@, x);
            lemma_char(cs, p, "("@, 0);
            lemma_char(cs, p + 1, x, 0);
            lemma_char(cs, f, ")"@, 0);
            lemma_ms_end_at(cs, p + 1, p + 1);
            lemma_ms_end_at(cs, f, f);
            reveal_strlit("or");
            if occurs_at(cs, "and"@, f) {
                assert(cs.subrange(f, f + 3)[0] == cs[f]);
            }
            if occurs_at(cs, "or"@, f) {
                assert(cs.subrange(f, f + 2)[0] == cs[f]);
            }
            lemma_reads_or(cs, p + 1, e);
            lemma_or_stops(cs, expr_model(e), f);
        },
        TagExpr::And(_, _) => {},
    }
}

/// Reading operands joined by `and` whose text stands at `p`: the reader
/// has the expression, and goes on from the end of its text.
#[verifier::spinoff_prover]
proof fn lemma_reads_and(cs: Seq<char>, p: int, e: TagExpr)
    requires
        expr_readable(e),
        !(e is Or),
        0 <= p,
        p + expr_text(e).len() <= cs.len(),
        cs.subrange(p, p + expr_text(e).len()) == expr_text(e),
        stops(cs, p + expr_text(e).len()),
    ensures
        and_at(cs, p) == Some(and_rest(cs, expr_model(e), p + expr_text(e).len())),
    decreases e, 1int,
{
    reveal_strlit(" and ");
    reveal_strlit("and");
    match e {
        TagExpr::Tag(t) => {
            lemma_reads_tag(cs, p, t);
            lemma_char(cs, p, tag_text(t), 0);
            reveal_strlit("@");
            assert(tag_text(t)[0] == '@');
            assert(expr_model(e) == ExprModel::T(t.name@, t.negated, arg_views(t)));
        },
        TagExpr::And(l, r) => {
            let ol = operand_text(*l);
            let orr = operand_text(*r);
            let le = p + ol.len();
            let end = p + expr_text(e).len();
            assert(expr_text(e) == ol + " and "@ + orr);
            lemma_split(cs, p, ol + " and "@, orr);
            lemma_split(cs, p, ol, " and "@);
            lemma_expr_first(*l);
            lemma_expr_first(*r);
            lemma_char(cs, le, " and "@, 0);
            lemma_char(cs, le, " and "@, 1);
            lemma_char(cs, le + 5, orr, 0);
            if *l is Or {
                lemma_reads_primary(cs, p, *l);
            } else {
                lemma_reads_and(cs, p, *l);
            }
            lemma_ms_end_at(cs, le, le + 1);
            assert(occurs_at(cs, "and"@, le + 1)) by {
                assert(cs.subrange(le + 1, le + 4) =~= "and"@) by {
                    lemma_char(cs, le, " and "@, 2);
                    lemma_char(cs, le, " and "@, 3);
                }
            }
            lemma_char(cs, le, " and "@, 4);
            lemma_ms_end_at(cs, le + 4, le + 5);
            lemma_reads_primary(cs, le + 5, *r);
            assert(expr_model(e) == ExprModel::And(Box::new(expr_model(*l)), Box::new(expr_model(*r))));
        },
        TagExpr::Or(_, _) => {},
    }
}

/// Reading a tag expression whose text stands at `p` and is not followed
/// by `and`: the reader has the expression, and goes on from the end of
/// its text.
#[verifier::spinoff_prover]
proof fn lemma_reads_or(cs: Seq<char>, p: int, e: TagExpr)
    requires
        expr_readable(e),
        0 <= p,
        p + expr_text(e).len() <= cs.len(),
        cs.subrange(p, p + expr_text(e).len()) == expr_text(e),
        stops(cs, p + expr_text(e).len()),
        !occurs_at(cs, "and"@, ms_end(cs, p + expr_text(e).len())),
    ensures
        or_at(cs, p) == Some(or_rest(cs, expr_model(e), p + expr_text(e).len())),
    decreases e, 2int,
{
    reveal_strlit(" or ");
    reveal_strlit("or");
    reveal_strlit("and");
    let end = p + expr_text(e).len();
    match e {
        TagExpr::Or(l, r) => {
            let tl = expr_text(*l);
            let tr = expr_text(*r);
            let le = p + tl.len();
            assert(expr_text(e) == tl + " or "@ + tr);
            lemma_split(cs, p, tl + " or "@, tr);
            lemma_split(cs, p, tl, " or "@);
            lemma_expr_first(*r);
            lemma_char(cs, le, " or "@, 0);
            lemma_char(cs, le, " or "@, 1);
            lemma_char(cs, le + 4, tr, 0);
            lemma_ms_end_at(cs, le, le + 1);
            assert(!occurs_at(cs, "and"@, le + 1)) by {
                assert(cs.subrange(le + 1, le + 4)[0] == cs[le + 1]);
            }
            lemma_reads_or(cs, p, *l);
            assert(occurs_at(cs, "or"@, le + 1)) by {
                assert(cs.subrange(le + 1, le + 3) =~= "or"@) by {
                    lemma_char(cs, le, " or "@, 2);
                }
            }
            lemma_char(cs, le, " or "@, 3);
            lemma_ms_end_at(cs, le + 3, le + 4);
            lemma_reads_and(cs, le + 4, *r);
            lemma_and_stops(cs, expr_model(*r), end);
            assert(expr_model(e) == ExprModel::Or(Box::new(expr_model(*l)), Box::new(expr_model(*r))));
        },
        _ => {
            lemma_expr_first(e);
            lemma_reads_and(cs, p, e);
            lemma_and_stops(cs, expr_model(e), end);
        },
    }
}

/// Law: a step's tag condition, printed and read back, is the same
/// condition, and the reader stops at the end of the printed text. An
/// `or` on either side of an `and` is written in brackets, so
/// `@a and (@b or @c)` reads back as itself, not as `(@a and @b) or @c`.
/// The condition's tags must read back (names, and arguments that are
/// names or hold no backtick), and right-nested chains of one connective
/// are left out: the printer writes `@a and @b and @c` for `@a and (@b and
/// @c)`, which reads back grouped to the left.
pub proof fn law_tag_expr_round_trip(e: TagExpr)
    requires
        expr_readable(e),
    ensures
        or_at(expr_text(e), 0) == Some((expr_model(e), expr_text(e).len() as int)),
{
    reveal_strlit("and");
    reveal_strlit("or");
    let cs = expr_text(e);
    let n = cs.len() as int;
    assert(cs.subrange(0, n) =~= cs);
    lemma_ms_end_at(cs, n, n);
    lemma_reads_or(cs, 0, e);
    lemma_or_stops(cs, expr_model(e), n);
}
} // verus!
