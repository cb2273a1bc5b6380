//! Text preparation for template steps: multi-line templates written
//! indented inside a program lose their common indentation.

use vstd::prelude::*;
use crate::text::{split_char, split_at_char, trim, join, join_into, chars_of, string_of, slice_chars, append,
    trim_chars};

verus! {

/// `s` without the `\n` and `\r` characters at either end.
pub open spec fn trim_newlines(s: Seq<char>) -> Seq<char>
    decreases s.len(),
{
    if s.len() > 0 && (s[0] == '\n' || s[0] == '\r') {
        trim_newlines(s.drop_first())
    } else if s.len() > 0 && (s.last() == '\n' || s.last() == '\r') {
        trim_newlines(s.drop_last())
    } else {
        s
    }
}

/// A line without one trailing `\r`.
pub open spec fn strip_cr(l: Seq<char>) -> Seq<char> {
    if l.len() > 0 && l.last() == '\r' { l.drop_last() } else { l }
}

/// The lines of a text that does not end with a line break (`str::lines`).
pub open spec fn lines_of(t: Seq<char>) -> Seq<Seq<char>> {
    if t.len() == 0 {
        Seq::empty()
    } else {
        split_char(t, '\n').map_values(|l: Seq<char>| strip_cr(l))
    }
}

/// The number of spaces and tabs a line starts with.
pub open spec fn indent(l: Seq<char>) -> nat
    decreases l.len(),
{
    if l.len() > 0 && (l[0] == ' ' || l[0] == '\t') {
        1 + indent(l.drop_first())
    } else {
        0
    }
}

/// The least indentation among the lines that are not blank.
pub open spec fn min_indent(ls: Seq<Seq<char>>) -> Option<nat>
    decreases ls.len(),
{
    if ls.len() == 0 {
        None
    } else {
        let rest = min_indent(ls.drop_last());
        if trim(ls.last()).len() == 0 {
            rest
        } else {
            match rest {
                Some(m) => Some(if indent(ls.last()) < m { indent(ls.last()) } else { m }),
                None => Some(indent(ls.last())),
            }
        }
    }
}

/// A line with up to `n` of its leading spaces and tabs removed.
pub open spec fn strip_indent(l: Seq<char>, n: nat) -> Seq<char> {
    l.skip(if indent(l) < n { indent(l) as int } else { n as int })
}

/// A template with its boundary line breaks removed and the indentation
/// common to its non-blank lines taken off every line.
pub open spec fn dedent(input: Seq<char>) -> Seq<char> {
    let t = trim_newlines(input);
    let ls = lines_of(t);
    let common: nat = match min_indent(ls) {
        Some(m) => m,
        None => 0,
    };
    if ls.len() == 0 {
        Seq::empty()
    } else if common == 0 {
        t
    } else {
        join(ls.map_values(|l: Seq<char>| strip_indent(l, common)), "\n"@)
    }
}

/// The bounds of `s` without the line breaks at its ends.
fn trim_newline_bounds(s: &[char]) -> (r: (usize, usize))
    ensures
        r.0 <= r.1 <= s@.len(),
        s@.subrange(r.0 as int, r.1 as int) == trim_newlines(s@),
{
    let mut a: usize = 0;
    let mut b: usize = s.len();
    assert(s@.subrange(0, s@.len() as int) =~= s@);
    while a < b && (s[a] == '\n' || s[a] == '\r')
        invariant
            a <= b <= s@.len(),
            trim_newlines(s@) == trim_newlines(s@.subrange(a as int, b as int)),
        decreases b - a,
    {
        assert(s@.subrange(a as int, b as int).drop_first() =~= s@.subrange(a + 1, b as int));
        a = a + 1;
    }
    while a < b && (s[b - 1] == '\n' || s[b - 1] == '\r')
        invariant
            a <= b <= s@.len(),
            trim_newlines(s@) == trim_newlines(s@.subrange(a as int, b as int)),
            a < b ==> s@[a as int] != '\n' && s@[a as int] != '\r',
        decreases b - a,
    {
        let ghost t = s@.subrange(a as int, b as int);
        assert(t.drop_last() =~= s@.subrange(a as int, b - 1));
        assert(t[0] == s@[a as int]);
        b = b - 1;
    }
    proof {
        let t = s@.subrange(a as int, b as int);
        if t.len() > 0 {
            assert(t[0] == s@[a as int]);
            assert(t.last() == s@[b - 1]);
        }
    }
    (a, b)
}

/// The indentation of a line.
fn indent_of(l: &[char]) -> (n: usize)
    ensures
        n == indent(l@),
        n <= l@.len(),
{
    let mut i: usize = 0;
    assert(l@.skip(0) =~= l@);
    while i < l.len() && (l[i] == ' ' || l[i] == '\t')
        invariant
            i <= l@.len(),
            indent(l@) == i + indent(l@.skip(i as int)),
        decreases l@.len() - i,
    {
        assert(l@.skip(i as int).drop_first() =~= l@.skip(i + 1));
        i = i + 1;
    }
    i
}

/// Removes the common indentation of a multi-line template.
pub fn dedent_multiline(input: &str) -> (r: String)
    ensures
        r@ == dedent(input@),
{
    let s = chars_of(input);
    let (a, b) = trim_newline_bounds(s.as_slice());
    let t = slice_chars(s.as_slice(), a, b);
    if t.len() == 0 {
        return string_of(t.as_slice());
    }
    let pieces = split_at_char(t.as_slice(), '\n');
    let ghost ps = pieces@.map_values(|x: Vec<char>| x@);
    let mut lines: Vec<Vec<char>> = Vec::new();
    let mut k: usize = 0;
    while k < pieces.len()
        invariant
            ps == pieces@.map_values(|x: Vec<char>| x@),
            ps == split_char(t@, '\n'),
            k <= pieces@.len(),
            lines@.len() == k,
            forall|i: int| 0 <= i < k ==> #[trigger] lines@[i]@ == strip_cr(ps[i]),
        decreases pieces@.len() - k,
    {
        let p = &pieces[k];
        let n = p.len();
        let l = if n > 0 && p[n - 1] == '\r' {
            let x = slice_chars(p.as_slice(), 0, n - 1);
            assert(x@ =~= p@.drop_last());
            x
        } else {
            slice_chars(p.as_slice(), 0, n)
        };
        proof {
            assert(p@.subrange(0, n as int) =~= p@);
        }
        lines.push(l);
        k = k + 1;
    }
    let ghost ls = lines@.map_values(|x: Vec<char>| x@);
    assert(ls =~= lines_of(t@));
    let mut common: Option<usize> = None;
    let mut j: usize = 0;
    while j < lines.len()
        invariant
            ls == lines@.map_values(|x: Vec<char>| x@),
            j <= lines@.len(),
            match common {
                Some(c) => min_indent(ls.take(j as int)) == Some(c as nat),
                None => min_indent(ls.take(j as int)) is None,
            },
        decreases lines@.len() - j,
    {
        proof {
            assert(ls.take(j + 1).drop_last() =~= ls.take(j as int));
            assert(ls.take(j + 1).last() == lines@[j as int]@);
        }
        let tl = trim_chars(lines[j].as_slice());
        if tl.len() > 0 {
            let ind = indent_of(lines[j].as_slice());
            common = match common {
                Some(c) => Some(if ind < c { ind } else { c }),
                None => Some(ind),
            };
        }
        j = j + 1;
    }
    assert(ls.take(lines@.len() as int) =~= ls);
    let c: usize = match common {
        Some(c) => c,
        None => 0,
    };
    if c == 0 {
        return string_of(t.as_slice());
    }
    let mut stripped: Vec<Vec<char>> = Vec::new();
    let mut m: usize = 0;
    while m < lines.len()
        invariant
            ls == lines@.map_values(|x: Vec<char>| x@),
            m <= lines@.len(),
            stripped@.len() == m,
            forall|i: int| 0 <= i < m ==> #[trigger] stripped@[i]@ == strip_indent(ls[i], c as nat),
        decreases lines@.len() - m,
    {
        let l = &lines[m];
        let ind = indent_of(l.as_slice());
        let cut = if ind < c { ind } else { c };
        let x = slice_chars(l.as_slice(), cut, l.len());
        assert(x@ =~= strip_indent(ls[m as int], c as nat));
        stripped.push(x);
        m = m + 1;
    }
    assert(stripped@.map_values(|x: Vec<char>| x@) =~= ls.map_values(|l: Seq<char>| strip_indent(l, c as nat)));
    let mut out: Vec<char> = Vec::new();
    join_into(&mut out, &stripped, "\n");
    assert(out@ =~= dedent(input@));
    string_of(out.as_slice())
}

} // verus!
