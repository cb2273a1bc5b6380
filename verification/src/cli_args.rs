//! The arguments forwarded to a script after `--`, split into positional
//! arguments and `--key` options (`$context.args` / `$context.options`).

use vstd::prelude::*;
use crate::json::{JsonValue, Json, jv, get, lookup};
use crate::text::{starts_with, char_index, chars_of, string_of, slice_chars, starts_with_at, scan_to_char};

verus! {

/// Forwarded arguments: positionals in order, and options by name.
#[derive(Debug)]
pub struct ScriptArgs {
    pub args: Vec<String>,
    /// An object from option names to their values.
    pub options: JsonValue,
}

impl ScriptArgs {
    /// No arguments and no options.
    pub fn empty() -> (r: Self)
        ensures
            r.args@.len() == 0,
            forall|k: Seq<char>| #[trigger] get(jv(r.options), k) is None,
            jv(r.options) is Object,
    {
        let o = JsonValue::Object(Vec::new());
        assert(jv(o) == Json::Object(Seq::empty()));
        ScriptArgs { args: Vec::new(), options: o }
    }

    /// The value of option `key`.
    pub fn option(&self, key: &str) -> (r: Option<&JsonValue>)
        ensures
            match r {
                Some(x) => get(jv(self.options), key@) == Some(jv(*x)),
                None => get(jv(self.options), key@) is None,
            },
    {
        self.options.get(key)
    }

    /// The number of options.
    pub fn option_count(&self) -> (n: usize)
        ensures
            jv(self.options) matches Json::Object(e) ==> n == e.len(),
            !(jv(self.options) is Object) ==> n == 0,
    {
        match &self.options {
            JsonValue::Object(e) => {
                proof { crate::json::lemma_jv_entries(e@); }
                e.len()
            },
            _ => 0,
        }
    }
}

/// One reading of the forwarded tokens.
pub enum ArgItem {
    Positional(Seq<char>),
    Opt(Seq<char>, Json),
}

/// How the tokens from `i` on read: `--key=value` and `--key value` (when
/// the next token does not start with `--`) give a string option, a `--key`
/// followed by another `--` token or by nothing gives `true`, and anything
/// else, a bare `--` included, is positional.
pub open spec fn scan(toks: Seq<Seq<char>>, i: int) -> Seq<ArgItem>
    decreases toks.len() - i,
{
    if i < 0 || i >= toks.len() {
        Seq::empty()
    } else {
        let t = toks[i];
        if starts_with(t, "--"@) && t.len() > 2 {
            let rest = t.skip(2);
            match char_index(rest, '=') {
                Some(e) => seq![ArgItem::Opt(rest.take(e), Json::Str(rest.skip(e + 1)))] + scan(toks, i + 1),
                None => if i + 1 >= toks.len() || starts_with(toks[i + 1], "--"@) {
                    seq![ArgItem::Opt(rest, Json::Bool(true))] + scan(toks, i + 1)
                } else {
                    seq![ArgItem::Opt(rest, Json::Str(toks[i + 1]))] + scan(toks, i + 2)
                },
            }
        } else {
            seq![ArgItem::Positional(t)] + scan(toks, i + 1)
        }
    }
}

/// The positional arguments among `items`.
pub open spec fn positionals(items: Seq<ArgItem>) -> Seq<Seq<char>>
    decreases items.len(),
{
    if items.len() == 0 {
        Seq::empty()
    } else {
        match items.last() {
            ArgItem::Positional(s) => positionals(items.drop_last()).push(s),
            ArgItem::Opt(_, _) => positionals(items.drop_last()),
        }
    }
}

/// The value the last option named `k` among `items` sets.
pub open spec fn last_option(items: Seq<ArgItem>, k: Seq<char>) -> Option<Json>
    decreases items.len(),
{
    if items.len() == 0 {
        None
    } else {
        match items.last() {
            ArgItem::Opt(n, v) => if n == k {
                Some(v)
            } else {
                last_option(items.drop_last(), k)
            },
            ArgItem::Positional(_) => last_option(items.drop_last(), k),
        }
    }
}

/// `t` starts with `--`.
fn is_flag(t: &String) -> (b: bool)
    ensures
        b == starts_with(t@, "--"@),
{
    let c = chars_of(t.as_str());
    let d = chars_of("--");
    proof { reveal_strlit("--"); }
    if c.len() < 2 {
        return false;
    }
    let b = starts_with_at(c.as_slice(), 0, d.as_slice());
    assert(c@.skip(0) =~= c@);
    b
}

/// Parses the tokens forwarded after `--`: positionals accumulate in
/// order, and an option given more than once keeps its last value.
pub fn parse(tokens: &[String]) -> (r: ScriptArgs)
    ensures
        r.args@.map_values(|s: String| s@) == positionals(scan(tokens@.map_values(|s: String| s@), 0)),
        jv(r.options) is Object,
        forall|k: Seq<char>| #[trigger] get(jv(r.options), k) == last_option(scan(tokens@.map_values(|s: String| s@), 0), k),
{
    let ghost toks = tokens@.map_values(|s: String| s@);
    let mut out = ScriptArgs::empty();
    let ghost mut done: Seq<ArgItem> = Seq::empty();
    let mut i: usize = 0;
    assert(done + scan(toks, 0) =~= scan(toks, 0));
    while i < tokens.len()
        invariant
            toks == tokens@.map_values(|s: String| s@),
            i <= tokens@.len(),
            scan(toks, 0) == done + scan(toks, i as int),
            out.args@.map_values(|s: String| s@) == positionals(done),
            jv(out.options) is Object,
            forall|k: Seq<char>| #[trigger] get(jv(out.options), k) == last_option(done, k),
        decreases tokens@.len() - i,
    {
        let tok = &tokens[i];
        let ghost t = toks[i as int];
        assert(t == tok@);
        let ghost before_args = out.args@.map_values(|s: String| s@);
        let ghost before_opts = out.options;
        let ghost old_done = done;
        let c = chars_of(tok.as_str());
        if is_flag(tok) && c.len() > 2 {
            let n = c.len();
            let rest = slice_chars(c.as_slice(), 2, c.len());
            assert(rest@ =~= t.skip(2));
            let e = scan_to_char(rest.as_slice(), '=', 0);
            assert(rest@.skip(0) =~= rest@);
            if e < rest.len() {
                let key = slice_chars(rest.as_slice(), 0, e);
                let m = rest.len();
                let val = slice_chars(rest.as_slice(), e + 1, rest.len());
                assert(key@ =~= rest@.take(e as int));
                assert(val@ =~= rest@.skip(e + 1));
                let ghost item = ArgItem::Opt(key@, Json::Str(val@));
                out.options.set(string_of(key.as_slice()), JsonValue::Str(string_of(val.as_slice())));
                proof {
                    assert(scan(toks, i as int) == seq![item] + scan(toks, i + 1));
                    assert(done + scan(toks, i as int) =~= done.push(item) + scan(toks, i + 1));
                    done = done.push(item);
                    assert(done.drop_last() =~= old_done);
                }
                i = i + 1;
            } else {
                let next_is_flag = if i + 1 < tokens.len() { is_flag(&tokens[i + 1]) } else { true };
                if next_is_flag {
                    let ghost item = ArgItem::Opt(rest@, Json::Bool(true));
                    out.options.set(string_of(rest.as_slice()), JsonValue::Bool(true));
                    proof {
                        assert(scan(toks, i as int) == seq![item] + scan(toks, i + 1));
                        assert(done + scan(toks, i as int) =~= done.push(item) + scan(toks, i + 1));
                        done = done.push(item);
                    }
                    i = i + 1;
                } else {
                    let nv = chars_of(tokens[i + 1].as_str());
                    let ghost item = ArgItem::Opt(rest@, Json::Str(toks[i + 1]));
                    out.options.set(string_of(rest.as_slice()), JsonValue::Str(string_of(nv.as_slice())));
                    proof {
                        assert(scan(toks, i as int) == seq![item] + scan(toks, i + 2));
                        assert(done + scan(toks, i as int) =~= done.push(item) + scan(toks, i + 2));
                        done = done.push(item);
                    }
                    i = i + 2;
                }
            }
            proof {
                assert(done.drop_last() =~= old_done);
                assert(positionals(done) == positionals(done.drop_last()));
                assert forall|k: Seq<char>| #[trigger] get(jv(out.options), k) == last_option(done, k) by {
                    assert(get(jv(before_opts), k) == last_option(old_done, k));
                    assert(last_option(done, k) == if done.last()->Opt_0 == k {
                        Some(done.last()->Opt_1)
                    } else {
                        last_option(done.drop_last(), k)
                    });
                }
            }
        } else {
            let ghost item = ArgItem::Positional(t);
            out.args.push(string_of(c.as_slice()));
            proof {
                assert(scan(toks, i as int) == seq![item] + scan(toks, i + 1));
                assert(done + scan(toks, i as int) =~= done.push(item) + scan(toks, i + 1));
                done = done.push(item);
                assert(done.drop_last() =~= old_done);
                assert(out.args@.map_values(|s: String| s@) =~= before_args.push(t));
                assert forall|k: Seq<char>| #[trigger] get(jv(out.options), k) == last_option(done, k) by {
                    assert(get(jv(before_opts), k) == last_option(old_done, k));
                    assert(last_option(done, k) == last_option(done.drop_last(), k));
                }
            }
            i = i + 1;
        }
    }
    assert(scan(toks, i as int) =~= Seq::<ArgItem>::empty());
    assert(done + Seq::<ArgItem>::empty() =~= done);
    out
}


/// Reading one more token that starts with `--` appends its item: the
/// items read before it are unchanged (a `--` token never is an option's
/// value).
proof fn lemma_scan_push(toks: Seq<Seq<char>>, t: Seq<char>, i: int)
    requires
        0 <= i <= toks.len(),
        starts_with(t, "--"@),
    ensures
        scan(toks.push(t), i) == scan(toks, i) + scan(seq![t], 0),
    decreases toks.len() - i,
{
    let u = toks.push(t);
    assert(u[toks.len() as int] == t);
    if i == toks.len() {
        assert(scan(toks, i) =~= Seq::<ArgItem>::empty());
        assert(seq![t][0] == t);
        if starts_with(t, "--"@) && t.len() > 2 {
            let rest = t.skip(2);
            match char_index(rest, '=') {
                Some(e) => {
                    assert(scan(u, i + 1) =~= Seq::<ArgItem>::empty());
                    assert(scan(seq![t], 1) =~= Seq::<ArgItem>::empty());
                },
                None => {
                    assert(scan(u, i + 1) =~= Seq::<ArgItem>::empty());
                    assert(scan(seq![t], 1) =~= Seq::<ArgItem>::empty());
                },
            }
        } else {
            assert(scan(u, i + 1) =~= Seq::<ArgItem>::empty());
            assert(scan(seq![t], 1) =~= Seq::<ArgItem>::empty());
        }
        assert(scan(u, i) =~= scan(toks, i) + scan(seq![t], 0));
    } else {
        let x = toks[i];
        assert(u[i] == x);
        if starts_with(x, "--"@) && x.len() > 2 {
            let rest = x.skip(2);
            match char_index(rest, '=') {
                Some(e) => {
                    lemma_scan_push(toks, t, i + 1);
                    assert(scan(u, i) =~= scan(toks, i) + scan(seq![t], 0));
                },
                None => {
                    if i + 1 >= toks.len() {
                        assert(u[i + 1] == t);
                        lemma_scan_push(toks, t, i + 1);
                        assert(scan(u, i) =~= scan(toks, i) + scan(seq![t], 0));
                    } else if starts_with(toks[i + 1], "--"@) {
                        assert(u[i + 1] == toks[i + 1]);
                        lemma_scan_push(toks, t, i + 1);
                        assert(scan(u, i) =~= scan(toks, i) + scan(seq![t], 0));
                    } else {
                        assert(u[i + 1] == toks[i + 1]);
                        lemma_scan_push(toks, t, i + 2);
                        assert(scan(u, i) =~= scan(toks, i) + scan(seq![t], 0));
                    }
                },
            }
        } else {
            lemma_scan_push(toks, t, i + 1);
            assert(scan(u, i) =~= scan(toks, i) + scan(seq![t], 0));
        }
    }
}

/// Law: the last occurrence of an option wins. Whatever came before,
/// appending `--key=value` makes `key` read as `value`.
pub proof fn law_last_option_wins(toks: Seq<Seq<char>>, key: Seq<char>, value: Seq<char>)
    requires
        key.len() > 0,
        char_index(key, '=') is None,
    ensures
        last_option(scan(toks.push("--"@ + key + "="@ + value), 0), key) == Some(Json::Str(value)),
{
    reveal_strlit("--");
    reveal_strlit("=");
    let t = "--"@ + key + "="@ + value;
    assert(t.take(2) =~= "--"@);
    lemma_scan_push(toks, t, 0);
    let rest = t.skip(2);
    assert(rest =~= key + "="@ + value);
    crate::text::lemma_char_index(key, '=');
    assert(rest[key.len() as int] == '=');
    assert forall|j: int| 0 <= j < key.len() implies rest[j] != '=' by {
        assert(rest[j] == key[j]);
    }
    crate::text::lemma_char_index_at(rest, '=', key.len() as int);
    assert(rest.take(key.len() as int) =~= key);
    assert(rest.skip(key.len() as int + 1) =~= value);
    assert(seq![t][0] == t);
    assert(scan(seq![t], 1) =~= Seq::<ArgItem>::empty());
    let items = scan(toks.push(t), 0);
    assert(items.last() == ArgItem::Opt(key, Json::Str(value)));
}

} // verus!
