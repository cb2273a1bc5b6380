//! Character-level text utilities shared by the parsers of this crate.
//!
//! Text is modelled as `Seq<char>`; the executable functions work on
//! `Vec<char>` and on `&str`/`String` through their character views.

use vstd::prelude::*;

verus! {

broadcast use vstd::string::group_string_axioms;

/// The characters Rust's `char::is_whitespace` accepts (Unicode White_Space).
pub open spec fn is_ws(c: char) -> bool {
    c == ' ' || c == '\t' || c == '\n' || c == '\x0B' || c == '\x0C' || c == '\r'
        || c == '\u{85}' || c == '\u{A0}' || c == '\u{1680}'
        || ('\u{2000}' <= c && c <= '\u{200A}') || c == '\u{2028}' || c == '\u{2029}'
        || c == '\u{202F}' || c == '\u{205F}' || c == '\u{3000}'
}

/// ASCII decimal digit.
pub open spec fn is_digit(c: char) -> bool {
    '0' <= c && c <= '9'
}

/// ASCII letter.
pub open spec fn is_alpha(c: char) -> bool {
    ('a' <= c && c <= 'z') || ('A' <= c && c <= 'Z')
}

/// ASCII letter or digit.
pub open spec fn is_alnum(c: char) -> bool {
    is_alpha(c) || is_digit(c)
}

/// `s` with its leading whitespace removed.
pub open spec fn trim_start(s: Seq<char>) -> Seq<char>
    decreases s.len(),
{
    if s.len() > 0 && is_ws(s[0]) {
        trim_start(s.drop_first())
    } else {
        s
    }
}

/// `s` with its trailing whitespace removed.
pub open spec fn trim_end(s: Seq<char>) -> Seq<char>
    decreases s.len(),
{
    if s.len() > 0 && is_ws(s.last()) {
        trim_end(s.drop_last())
    } else {
        s
    }
}

/// `s` with leading and trailing whitespace removed (`str::trim`).
pub open spec fn trim(s: Seq<char>) -> Seq<char> {
    trim_end(trim_start(s))
}

/// `p` is a prefix of `s`.
pub open spec fn starts_with(s: Seq<char>, p: Seq<char>) -> bool {
    p.len() <= s.len() && s.take(p.len() as int) == p
}

/// `p` is a suffix of `s`.
pub open spec fn ends_with(s: Seq<char>, p: Seq<char>) -> bool {
    p.len() <= s.len() && s.skip(s.len() - p.len()) == p
}

/// `p` occurs in `s` at index `i`.
pub open spec fn occurs_at(s: Seq<char>, p: Seq<char>, i: int) -> bool {
    0 <= i && i + p.len() <= s.len() && s.subrange(i, i + p.len()) == p
}

/// The index of the first occurrence of `p` in `s` (`str::find`).
#[verifier::opaque]
pub open spec fn find(s: Seq<char>, p: Seq<char>) -> Option<int> {
    if exists|i: int| occurs_at(s, p, i) {
        Some(choose|i: int| occurs_at(s, p, i) && forall|j: int| 0 <= j < i ==> !occurs_at(s, p, j))
    } else {
        None
    }
}

/// The index of the first `c` in `s`.
pub open spec fn char_index(s: Seq<char>, c: char) -> Option<int>
    decreases s.len(),
{
    if s.len() == 0 {
        None
    } else if s[0] == c {
        Some(0)
    } else {
        match char_index(s.drop_first(), c) {
            Some(i) => Some(i + 1),
            None => None,
        }
    }
}

/// `char_index` finds the first occurrence, and only an occurrence.
pub proof fn lemma_char_index(s: Seq<char>, c: char)
    ensures
        match char_index(s, c) {
            Some(i) => 0 <= i < s.len() && s[i] == c && forall|j: int| 0 <= j < i ==> s[j] != c,
            None => forall|j: int| 0 <= j < s.len() ==> s[j] != c,
        },
    decreases s.len(),
{
    if s.len() > 0 && s[0] != c {
        lemma_char_index(s.drop_first(), c);
        match char_index(s.drop_first(), c) {
            Some(i) => {
                assert forall|j: int| 0 <= j < i + 1 implies s[j] != c by {
                    if j > 0 {
                        assert(s[j] == s.drop_first()[j - 1]);
                    }
                }
            },
            None => {
                assert forall|j: int| 0 <= j < s.len() implies s[j] != c by {
                    if j > 0 {
                        assert(s[j] == s.drop_first()[j - 1]);
                    }
                }
            },
        }
    }
}

/// The first occurrence characterises `char_index`.
pub proof fn lemma_char_index_at(s: Seq<char>, c: char, i: int)
    requires
        0 <= i < s.len(),
        s[i] == c,
        forall|j: int| 0 <= j < i ==> s[j] != c,
    ensures
        char_index(s, c) == Some(i),
{
    lemma_char_index(s, c);
    match char_index(s, c) {
        Some(k) => {
            if k < i {
                assert(s[k] != c);
            } else if k > i {
                assert(s[i] != c);
            }
        },
        None => {
            assert(s[i] != c);
        },
    }
}

/// The position of the first `c` at or after `from` (the length when there is
/// none), stated through `char_index` of the rest.
pub fn scan_to_char(v: &[char], c: char, from: usize) -> (r: usize)
    requires
        from <= v@.len(),
    ensures
        from <= r <= v@.len(),
        forall|j: int| from <= j < r ==> v@[j] != c,
        r < v@.len() ==> v@[r as int] == c,
        char_index(v@.skip(from as int), c) == (if r < v@.len() {
            Some(r - from)
        } else {
            None::<int>
        }),
{
    let mut i = from;
    while i < v.len() && v[i] != c
        invariant
            from <= i <= v@.len(),
            forall|j: int| from <= j < i ==> v@[j] != c,
        decreases v@.len() - i,
    {
        i = i + 1;
    }
    let ghost rest = v@.skip(from as int);
    proof {
        if i < v@.len() {
            assert forall|j: int| 0 <= j < i - from implies rest[j] != c by {
                assert(rest[j] == v@[from + j]);
            }
            assert(rest[i - from] == v@[i as int]);
            lemma_char_index_at(rest, c, i - from);
        } else {
            lemma_char_index(rest, c);
            assert forall|j: int| 0 <= j < rest.len() implies rest[j] != c by {
                assert(rest[j] == v@[from + j]);
            }
            if char_index(rest, c) is Some {
                let k = char_index(rest, c)->0;
                assert(rest[k] == c);
            }
        }
    }
    i
}

/// Splits `s` at every occurrence of `sep` (`str::split` with a char
/// pattern): the pieces between separators, including empty ones.
pub open spec fn split_char(s: Seq<char>, sep: char) -> Seq<Seq<char>>
    decreases s.len(),
{
    match char_index(s, sep) {
        Some(i) => if 0 <= i < s.len() {
            seq![s.take(i)] + split_char(s.skip(i + 1), sep)
        } else {
            seq![s]
        },
        None => seq![s],
    }
}

/// `s` with every `from` replaced by `to` (`str::replace` with chars).
pub open spec fn replace_char(s: Seq<char>, from: char, to: char) -> Seq<char> {
    s.map_values(|c: char| if c == from { to } else { c })
}

/// Splits `v` at every `sep`.
pub fn split_at_char(v: &[char], sep: char) -> (r: Vec<Vec<char>>)
    ensures
        r@.map_values(|x: Vec<char>| x@) == split_char(v@, sep),
{
    let mut out: Vec<Vec<char>> = Vec::new();
    let mut start: usize = 0;
    let mut i: usize = 0;
    assert(v@.skip(0) =~= v@);
    while i < v.len()
        invariant
            start <= i <= v@.len(),
            forall|j: int| start <= j < i ==> v@[j] != sep,
            split_char(v@, sep) == out@.map_values(|x: Vec<char>| x@) + split_char(v@.skip(start as int), sep),
        decreases v@.len() - i,
    {
        if v[i] == sep {
            let piece = slice_chars(v, start, i);
            proof {
                let rest = v@.skip(start as int);
                assert forall|j: int| 0 <= j < i - start implies rest[j] != sep by {
                    assert(rest[j] == v@[start + j]);
                }
                lemma_char_index_at(rest, sep, i - start);
                assert(rest.take(i - start) =~= piece@);
                assert(rest.skip(i - start + 1) =~= v@.skip(i + 1));
            }
            let ghost before = out@.map_values(|x: Vec<char>| x@);
            out.push(piece);
            assert(out@.map_values(|x: Vec<char>| x@) =~= before.push(piece@));
            start = i + 1;
        }
        i = i + 1;
    }
    let last = slice_chars(v, start, v.len());
    proof {
        let rest = v@.skip(start as int);
        assert forall|j: int| 0 <= j < rest.len() implies rest[j] != sep by {
            assert(rest[j] == v@[start + j]);
        }
        lemma_char_index(rest, sep);
        assert(rest =~= last@);
    }
    let ghost before = out@.map_values(|x: Vec<char>| x@);
    out.push(last);
    assert(out@.map_values(|x: Vec<char>| x@) =~= before.push(last@));
    out
}

/// `v` with every `from` replaced by `to`.
pub fn replace_char_exec(v: &[char], from: char, to: char) -> (r: Vec<char>)
    ensures
        r@ == replace_char(v@, from, to),
{
    let mut r: Vec<char> = Vec::new();
    let mut i: usize = 0;
    while i < v.len()
        invariant
            i <= v@.len(),
            r@ == replace_char(v@.take(i as int), from, to),
        decreases v@.len() - i,
    {
        let c = if v[i] == from { to } else { v[i] };
        r.push(c);
        i = i + 1;
        assert(r@ =~= replace_char(v@.take(i as int), from, to));
    }
    assert(v@.take(v@.len() as int) =~= v@);
    r
}

/// Value of a string of decimal digits.
pub open spec fn digits_value(s: Seq<char>) -> nat
    decreases s.len(),
{
    if s.len() == 0 {
        0
    } else {
        digits_value(s.drop_last()) * 10 + ((s.last() as int - '0' as int) as nat)
    }
}

/// All characters are decimal digits.
pub open spec fn all_digits(s: Seq<char>) -> bool {
    forall|i: int| 0 <= i < s.len() ==> is_digit(#[trigger] s[i])
}

/// The unsigned integer that `str::parse::<u64>` reads from `s`: an optional
/// `+` followed by at least one decimal digit, in range.
pub open spec fn parse_u64_spec(s: Seq<char>) -> Option<u64> {
    if strip_plus(s).len() > 0 && all_digits(strip_plus(s)) && digits_value(strip_plus(s)) <= u64::MAX {
        Some(digits_value(strip_plus(s)) as u64)
    } else {
        None
    }
}

/// `s` without one leading `+`.
pub open spec fn strip_plus(s: Seq<char>) -> Seq<char> {
    if s.len() > 0 && s[0] == '+' { s.drop_first() } else { s }
}

/// Decimal text of a natural number, without leading zeros.
pub open spec fn dec(n: nat) -> Seq<char>
    decreases n,
{
    if n < 10 {
        seq![digit_char(n)]
    } else {
        dec(n / 10).push(digit_char(n % 10))
    }
}

/// The digit character of a value below ten.
pub open spec fn digit_char(d: nat) -> char {
    if d == 0 { '0' } else if d == 1 { '1' } else if d == 2 { '2' } else if d == 3 { '3' }
    else if d == 4 { '4' } else if d == 5 { '5' } else if d == 6 { '6' } else if d == 7 { '7' }
    else if d == 8 { '8' } else { '9' }
}

/// Decimal text of an integer, with a leading `-` when negative.
pub open spec fn dec_int(n: int) -> Seq<char> {
    if n < 0 { seq!['-'] + dec((-n) as nat) } else { dec(n as nat) }
}

/// The characters of `s`, in order.
pub fn chars_of(s: &str) -> (v: Vec<char>)
    ensures
        v@ == s@,
{
    let mut v: Vec<char> = Vec::new();
    for c in it: s.chars()
        invariant
            v@ == it.seq().take(it.index() as int),
    {
        v.push(c);
    }
    v
}

/// Builds a `String` from its characters (`String::from_iter`).
#[verifier::external_body]
pub(crate) fn string_of(v: &[char]) -> (s: String)
    ensures
        s@ == v@,
{
    String::from_iter(v.iter())
}

/// Whitespace test matching `char::is_whitespace`.
pub fn char_is_ws(c: char) -> (b: bool)
    ensures
        b == is_ws(c),
{
    c == ' ' || c == '\t' || c == '\n' || c == '\x0B' || c == '\x0C' || c == '\r'
        || c == '\u{85}' || c == '\u{A0}' || c == '\u{1680}'
        || ('\u{2000}' <= c && c <= '\u{200A}') || c == '\u{2028}' || c == '\u{2029}'
        || c == '\u{202F}' || c == '\u{205F}' || c == '\u{3000}'
}

/// Equality of two strings.
pub fn str_eq(a: &str, b: &str) -> (r: bool)
    ensures
        r == (a@ == b@),
{
    let x = chars_of(a);
    let y = chars_of(b);
    seq_eq(&x, &y)
}

/// Equality of two character sequences.
pub fn seq_eq(x: &[char], y: &[char]) -> (r: bool)
    ensures
        r == (x@ == y@),
{
    if x.len() != y.len() {
        return false;
    }
    let mut i: usize = 0;
    while i < x.len()
        invariant
            x@.len() == y@.len(),
            i <= x@.len(),
            forall|j: int| 0 <= j < i ==> x@[j] == y@[j],
        decreases x@.len() - i,
    {
        if x[i] != y[i] {
            return false;
        }
        i = i + 1;
    }
    assert(x@ =~= y@);
    true
}

/// The characters `v[from..to]`.
pub fn slice_chars(v: &[char], from: usize, to: usize) -> (r: Vec<char>)
    requires
        from <= to <= v@.len(),
    ensures
        r@ == v@.subrange(from as int, to as int),
{
    let mut r: Vec<char> = Vec::new();
    let mut i = from;
    while i < to
        invariant
            from <= i <= to <= v@.len(),
            r@ == v@.subrange(from as int, i as int),
        decreases to - i,
    {
        r.push(v[i]);
        i = i + 1;
    }
    r
}

/// `v[from..to]` as a `String`.
pub fn sub_string(v: &[char], from: usize, to: usize) -> (s: String)
    requires
        from <= to <= v@.len(),
    ensures
        s@ == v@.subrange(from as int, to as int),
{
    let r = slice_chars(v, from, to);
    string_of(r.as_slice())
}

/// Lemma: trimming the front of `s` keeps a suffix of it.
pub proof fn lemma_trim_start_suffix(s: Seq<char>)
    ensures
        trim_start(s).len() <= s.len(),
        trim_start(s) == s.skip(s.len() - trim_start(s).len()),
        trim_start(s).len() > 0 ==> !is_ws(trim_start(s)[0]),
        forall|i: int| 0 <= i < s.len() - trim_start(s).len() ==> is_ws(#[trigger] s[i]),
    decreases s.len(),
{
    if s.len() > 0 && is_ws(s[0]) {
        lemma_trim_start_suffix(s.drop_first());
        assert forall|i: int| 0 <= i < s.len() - trim_start(s).len() implies is_ws(#[trigger] s[i]) by {
            if i > 0 {
                assert(s[i] == s.drop_first()[i - 1]);
            }
        }
        assert(s.drop_first().skip(s.drop_first().len() - trim_start(s).len()) =~= s.skip(
            s.len() - trim_start(s).len(),
        ));
    } else {
        assert(s.skip(0) =~= s);
    }
}

/// Lemma: trimming the back of `s` keeps a prefix of it.
pub proof fn lemma_trim_end_prefix(s: Seq<char>)
    ensures
        trim_end(s).len() <= s.len(),
        trim_end(s) == s.take(trim_end(s).len() as int),
        trim_end(s).len() > 0 ==> !is_ws(trim_end(s).last()),
        forall|i: int| trim_end(s).len() <= i < s.len() ==> is_ws(#[trigger] s[i]),
    decreases s.len(),
{
    if s.len() > 0 && is_ws(s.last()) {
        lemma_trim_end_prefix(s.drop_last());
        assert forall|i: int| trim_end(s).len() <= i < s.len() implies is_ws(#[trigger] s[i]) by {
            if i < s.len() - 1 {
                assert(s[i] == s.drop_last()[i]);
            }
        }
        assert(s.drop_last().take(trim_end(s).len() as int) =~= s.take(trim_end(s).len() as int));
    } else {
        assert(s.take(s.len() as int) =~= s);
    }
}

/// Index of the first non-whitespace character of `v[from..to]`, or `to`.
pub fn skip_ws_from(v: &[char], from: usize, to: usize) -> (i: usize)
    requires
        from <= to <= v@.len(),
    ensures
        from <= i <= to,
        v@.subrange(i as int, to as int) == trim_start(v@.subrange(from as int, to as int)),
{
    let mut i = from;
    while i < to && char_is_ws(v[i])
        invariant
            from <= i <= to <= v@.len(),
            trim_start(v@.subrange(i as int, to as int)) == trim_start(
                v@.subrange(from as int, to as int),
            ),
        decreases to - i,
    {
        assert(v@.subrange(i as int, to as int).drop_first() =~= v@.subrange(i + 1, to as int));
        i = i + 1;
    }
    i
}

/// End index of `v[from..to]` once its trailing whitespace is removed.
pub fn trim_end_to(v: &[char], from: usize, to: usize) -> (j: usize)
    requires
        from <= to <= v@.len(),
    ensures
        from <= j <= to,
        v@.subrange(from as int, j as int) == trim_end(v@.subrange(from as int, to as int)),
{
    let mut j = to;
    while j > from && char_is_ws(v[j - 1])
        invariant
            from <= j <= to <= v@.len(),
            trim_end(v@.subrange(from as int, j as int)) == trim_end(
                v@.subrange(from as int, to as int),
            ),
        decreases j - from,
    {
        assert(v@.subrange(from as int, j as int).drop_last() =~= v@.subrange(
            from as int,
            j - 1,
        ));
        j = j - 1;
    }
    j
}

/// Bounds `(a, b)` with `v[a..b] == trim(v[from..to])`.
pub fn trim_bounds(v: &[char], from: usize, to: usize) -> (r: (usize, usize))
    requires
        from <= to <= v@.len(),
    ensures
        from <= r.0 <= r.1 <= to,
        v@.subrange(r.0 as int, r.1 as int) == trim(v@.subrange(from as int, to as int)),
{
    let a = skip_ws_from(v, from, to);
    let b = trim_end_to(v, a, to);
    (a, b)
}

/// `str::trim` on characters.
pub fn trim_chars(v: &[char]) -> (r: Vec<char>)
    ensures
        r@ == trim(v@),
{
    assert(v@.subrange(0, v@.len() as int) =~= v@);
    let (a, b) = trim_bounds(v, 0, v.len());
    slice_chars(v, a, b)
}

/// `p` is a prefix of `v[from..]`.
pub fn starts_with_at(v: &[char], from: usize, p: &[char]) -> (b: bool)
    requires
        from <= v@.len(),
    ensures
        b == starts_with(v@.skip(from as int), p@),
        b == occurs_at(v@, p@, from as int),
{
    if p.len() > v.len() - from {
        return false;
    }
    let n = p.len();
    let mut k: usize = 0;
    while k < n
        invariant
            n == p@.len(),
            v@.len() <= usize::MAX,
            from + p@.len() <= v@.len(),
            k <= p@.len(),
            forall|j: int| 0 <= j < k ==> v@[from + j] == p@[j],
        decreases p@.len() - k,
    {
        assert(from + k < v@.len());
        if v[from + k] != p[k] {
            assert(v@.skip(from as int).take(p@.len() as int)[k as int] != p@[k as int]);
            assert(v@.subrange(from as int, from + p@.len())[k as int] != p@[k as int]);
            return false;
        }
        k = k + 1;
    }
    assert(v@.skip(from as int).take(p@.len() as int) =~= p@);
    assert(v@.subrange(from as int, from + p@.len()) =~= p@);
    true
}

/// The first index `i >= from` at which `p` occurs in `v`.
pub fn find_from(v: &[char], p: &[char], from: usize) -> (r: Option<usize>)
    requires
        from <= v@.len(),
    ensures
        match r {
            Some(i) => from <= i && occurs_at(v@, p@, i as int) && forall|j: int|
                from <= j < i ==> !occurs_at(v@, p@, j),
            None => forall|j: int| from <= j ==> !occurs_at(v@, p@, j),
        },
{
    let mut i = from;
    while i < v.len()
        invariant
            from <= i <= v@.len(),
            forall|j: int| from <= j < i ==> !occurs_at(v@, p@, j),
        decreases v@.len() - i,
    {
        if starts_with_at(v, i, p) {
            return Some(i);
        }
        i = i + 1;
    }
    if starts_with_at(v, i, p) {
        return Some(i);
    }
    assert forall|j: int| from <= j implies !occurs_at(v@, p@, j) by {
        if j > v@.len() {
        }
    }
    None
}

/// `str::find` on characters.
pub fn find_chars(v: &[char], p: &[char]) -> (r: Option<usize>)
    ensures
        match r {
            Some(i) => find(v@, p@) == Some(i as int) && occurs_at(v@, p@, i as int),
            None => find(v@, p@) is None,
        },
{
    let r = find_from(v, p, 0);
    reveal(find);
    match r {
        Some(i) => {
            assert(occurs_at(v@, p@, i as int));
            assert(exists|k: int| occurs_at(v@, p@, k));
            let ghost w = choose|k: int| occurs_at(v@, p@, k) && forall|j: int| 0 <= j < k ==> !occurs_at(v@, p@, j);
            assert(occurs_at(v@, p@, i as int) && forall|j: int| 0 <= j < i ==> !occurs_at(v@, p@, j));
            assert(w == i as int) by {
                if w < i as int {
                } else if w > i as int {
                }
            }
        },
        None => {},
    }
    r
}

/// `str::parse::<u64>` on characters.
pub fn parse_u64(v: &[char]) -> (r: Option<u64>)
    ensures
        r == parse_u64_spec(v@),
{
    let start: usize = if v.len() > 0 && v[0] == '+' { 1 } else { 0 };
    let ghost d = strip_plus(v@);
    assert(d =~= v@.skip(start as int));
    if start >= v.len() {
        return None;
    }
    let mut acc: u64 = 0;
    let mut i = start;
    while i < v.len()
        invariant
            start <= i <= v@.len(),
            d == strip_plus(v@),
            d == v@.skip(start as int),
            all_digits(v@.subrange(start as int, i as int)),
            acc == digits_value(v@.subrange(start as int, i as int)),
        decreases v@.len() - i,
    {
        let c = v[i];
        if !('0' <= c && c <= '9') {
            assert(d[i - start] == v@[i as int]);
            assert(!is_digit(d[i - start]));
            assert(!all_digits(d));
            assert(parse_u64_spec(v@) is None);
            return None;
        }
        let dv: u64 = (c as u64) - ('0' as u64);
        assert(v@.subrange(start as int, i + 1).drop_last() =~= v@.subrange(start as int, i as int));
        if acc > (u64::MAX - dv) / 10 {
            proof {
                if all_digits(d) {
                    lemma_digits_value_monotone(d, (i - start + 1) as nat);
                    assert(d.take((i - start + 1) as int) =~= v@.subrange(start as int, i + 1));
                    assert(digits_value(d) > u64::MAX);
                }
                assert(parse_u64_spec(v@) is None);
            }
            return None;
        }
        assert(acc * 10 + dv <= u64::MAX) by (nonlinear_arith)
            requires
                acc <= (u64::MAX - dv) / 10,
                dv < 10,
        ;
        acc = acc * 10 + dv;
        i = i + 1;
    }
    assert(v@.subrange(start as int, v@.len() as int) =~= d);
    Some(acc)
}

/// A prefix of a digit string never has a larger value.
pub proof fn lemma_digits_value_monotone(s: Seq<char>, k: nat)
    requires
        k <= s.len(),
        all_digits(s),
    ensures
        digits_value(s.take(k as int)) <= digits_value(s),
    decreases s.len(),
{
    if k < s.len() {
        lemma_digits_value_monotone(s.drop_last(), k);
        assert(s.drop_last().take(k as int) =~= s.take(k as int));
        assert(is_digit(s[s.len() - 1]));
        lemma_digits_value_grow(s);
    } else {
        assert(s.take(k as int) =~= s);
    }
}

/// Appending a digit never lowers the value.
pub proof fn lemma_digits_value_grow(s: Seq<char>)
    requires
        s.len() > 0,
        is_digit(s.last()),
    ensures
        digits_value(s.drop_last()) <= digits_value(s),
{
}

/// Decimal text of a `u64`.
pub fn u64_to_chars(n: u64) -> (r: Vec<char>)
    ensures
        r@ == dec(n as nat),
    decreases n,
{
    if n < 10 {
        let mut r: Vec<char> = Vec::new();
        r.push(digit_of(n));
        assert(r@ =~= seq![digit_char(n as nat)]);
        r
    } else {
        let mut r = u64_to_chars(n / 10);
        r.push(digit_of(n % 10));
        r
    }
}

/// The digit character of a value below ten.
pub fn digit_of(d: u64) -> (c: char)
    requires
        d < 10,
    ensures
        c == digit_char(d as nat),
{
    if d == 0 { '0' } else if d == 1 { '1' } else if d == 2 { '2' } else if d == 3 { '3' }
    else if d == 4 { '4' } else if d == 5 { '5' } else if d == 6 { '6' } else if d == 7 { '7' }
    else if d == 8 { '8' } else { '9' }
}

/// Decimal text of an `i64`.
pub fn i64_to_chars(n: i64) -> (r: Vec<char>)
    ensures
        r@ == dec_int(n as int),
{
    if n < 0 {
        let m: u64 = if n == i64::MIN { 9223372036854775808u64 } else { (-n) as u64 };
        let d = u64_to_chars(m);
        let mut r: Vec<char> = Vec::new();
        r.push('-');
        let mut k: usize = 0;
        while k < d.len()
            invariant
                k <= d@.len(),
                r@ == seq!['-'] + d@.take(k as int),
            decreases d@.len() - k,
        {
            r.push(d[k]);
            k = k + 1;
            assert(r@ =~= seq!['-'] + d@.take(k as int));
        }
        assert(d@.take(d@.len() as int) =~= d@);
        r
    } else {
        u64_to_chars(n as u64)
    }
}

/// Appends `b` to `a`.
pub fn append(a: &mut Vec<char>, b: &[char])
    ensures
        final(a)@ == old(a)@ + b@,
{
    let ghost a0 = a@;
    let mut k: usize = 0;
    while k < b.len()
        invariant
            k <= b@.len(),
            a@ == a0 + b@.take(k as int),
        decreases b@.len() - k,
    {
        a.push(b[k]);
        k = k + 1;
        assert(a@ =~= a0 + b@.take(k as int));
    }
    assert(b@.take(b@.len() as int) =~= b@);
}

/// Appends the characters of `s` to `a`.
pub fn append_str(a: &mut Vec<char>, s: &str)
    ensures
        final(a)@ == old(a)@ + s@,
{
    let v = chars_of(s);
    append(a, &v);
}

/// Joins `parts` with `sep` between them.
pub open spec fn join(parts: Seq<Seq<char>>, sep: Seq<char>) -> Seq<char>
    decreases parts.len(),
{
    if parts.len() == 0 {
        Seq::empty()
    } else if parts.len() == 1 {
        parts[0]
    } else {
        parts[0] + sep + join(parts.drop_first(), sep)
    }
}

/// Joining one more part appends the separator (when there was a part
/// before) and the part.
pub proof fn lemma_join_push(parts: Seq<Seq<char>>, x: Seq<char>, sep: Seq<char>)
    ensures
        join(parts.push(x), sep) == if parts.len() == 0 {
            x
        } else {
            join(parts, sep) + sep + x
        },
    decreases parts.len(),
{
    if parts.len() == 0 {
    } else if parts.len() == 1 {
        assert(parts.push(x).drop_first() =~= seq![x]);
        assert(join(seq![x], sep) == x);
    } else {
        lemma_join_push(parts.drop_first(), x, sep);
        assert(parts.push(x).drop_first() =~= parts.drop_first().push(x));
        let j = join(parts.drop_first(), sep);
        assert(join(parts.push(x), sep) == parts[0] + sep + (j + sep + x));
        assert(parts[0] + sep + (j + sep + x) =~= (parts[0] + sep + j) + sep + x);
    }
}

/// Appends `parts` joined by `sep`.
pub fn join_into(out: &mut Vec<char>, parts: &Vec<Vec<char>>, sep: &str)
    ensures
        final(out)@ == old(out)@ + join(parts@.map_values(|x: Vec<char>| x@), sep@),
{
    let ghost ps = parts@.map_values(|x: Vec<char>| x@);
    let ghost base = out@;
    let mut k: usize = 0;
    while k < parts.len()
        invariant
            ps == parts@.map_values(|x: Vec<char>| x@),
            k <= parts@.len(),
            out@ == base + join(ps.take(k as int), sep@),
        decreases parts@.len() - k,
    {
        proof { lemma_join_push(ps.take(k as int), ps[k as int], sep@); }
        if k > 0 {
            append_str(out, sep);
        }
        append(out, parts[k].as_slice());
        assert(ps.take(k + 1) =~= ps.take(k as int).push(ps[k as int]));
        k = k + 1;
    }
    assert(ps.take(parts@.len() as int) =~= ps);
}

} // verus!
