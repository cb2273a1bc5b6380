//! Migration files: the `-- UP --` / `-- DOWN --` sections of a migration
//! and the `YYYYMMDDHHMMSS_name.sql` naming scheme.

use vstd::prelude::*;
use crate::text::{find, occurs_at, trim, chars_of, string_of, slice_chars, find_chars, trim_chars,
    char_index, scan_to_char, ends_with, append_str, str_eq};
use crate::json::{seq_lt, str_lt};

verus! {

/// ASCII upper case of a character (other characters are unchanged).
pub open spec fn upper(c: char) -> char {
    if 'a' <= c && c <= 'z' {
        ((c as u32) - 32) as char
    } else {
        c
    }
}

/// ASCII upper case of a text.
pub open spec fn upper_text(s: Seq<char>) -> Seq<char> {
    s.map_values(|c: char| upper(c))
}

/// The SQL of the up and down sections: the trimmed text after the first
/// `-- UP --` up to the first `-- DOWN --`, and the trimmed text after that
/// (markers found with their ASCII letters in either case). Upper case is
/// taken for ASCII letters only, and positions count characters: before
/// the markers, a character whose Unicode upper case has another length
/// (such as `ı`) shifts the sections that a byte-offset reading of a
/// Unicode upper-cased copy would give.
pub open spec fn migration_sections(content: Seq<char>) -> Result<(Seq<char>, Seq<char>), Seq<char>> {
    let u = upper_text(content);
    match find(u, "-- UP --"@) {
        None => Err("Missing -- UP -- marker"@),
        Some(a) => match find(u, "-- DOWN --"@) {
            None => Err("Missing -- DOWN -- marker"@),
            Some(b) => if b <= a {
                Err("-- DOWN -- must come after -- UP --"@)
            } else {
                Ok((trim(content.subrange(a + 8, b)), trim(content.skip(b + 10))))
            },
        },
    }
}

/// The markers overlap: the down marker starts inside the up marker, so
/// there is no up section between them.
pub open spec fn markers_overlap(content: Seq<char>) -> bool {
    let u = upper_text(content);
    find(u, "-- UP --"@) matches Some(a) && find(u, "-- DOWN --"@) matches Some(b) && a < b < a + 8
}

/// ASCII upper case of a character.
fn upper_char(c: char) -> (r: char)
    ensures
        r == upper(c),
{
    if 'a' <= c && c <= 'z' {
        let x: u8 = (c as u8) - 32;
        x as char
    } else {
        c
    }
}

/// ASCII upper case of a text.
fn upper_chars(c: &[char]) -> (u: Vec<char>)
    ensures
        u@ == upper_text(c@),
{
    let mut u: Vec<char> = Vec::new();
    let mut i: usize = 0;
    while i < c.len()
        invariant
            i <= c@.len(),
            u@ == upper_text(c@.take(i as int)),
        decreases c@.len() - i,
    {
        u.push(upper_char(c[i]));
        assert(upper_text(c@.take(i + 1)) =~= upper_text(c@.take(i as int)).push(upper(c@[i as int])));
        i = i + 1;
    }
    assert(c@.take(c@.len() as int) =~= c@);
    u
}

/// Whether the down marker starts inside the up marker (such text has no
/// up section to read).
pub fn sections_overlap(content: &str) -> (b: bool)
    ensures
        b == markers_overlap(content@),
{
    let u = upper_chars(chars_of(content).as_slice());
    let um = chars_of("-- UP --");
    let dm = chars_of("-- DOWN --");
    proof {
        reveal_strlit("-- UP --");
    }
    match (find_chars(u.as_slice(), um.as_slice()), find_chars(u.as_slice(), dm.as_slice())) {
        (Some(a), Some(b)) => a < b && b - a < 8,
        _ => false,
    }
}

/// Splits migration text into its up and down SQL.
pub fn parse_migration_content(content: &str) -> (r: Result<(String, String), String>)
    requires
        !markers_overlap(content@),
    ensures
        match r {
            Ok((up, down)) => migration_sections(content@) == Ok::<(Seq<char>, Seq<char>), Seq<char>>((up@, down@)),
            Err(m) => migration_sections(content@) == Err::<(Seq<char>, Seq<char>), Seq<char>>(m@),
        },
{
    let c = chars_of(content);
    let u = upper_chars(c.as_slice());
    let um = chars_of("-- UP --");
    let dm = chars_of("-- DOWN --");
    proof {
        reveal_strlit("-- UP --");
        reveal_strlit("-- DOWN --");
    }
    let a = match find_chars(u.as_slice(), um.as_slice()) {
        Some(a) => a,
        None => {
            return Err(string_of(chars_of("Missing -- UP -- marker").as_slice()));
        },
    };
    let b = match find_chars(u.as_slice(), dm.as_slice()) {
        Some(b) => b,
        None => {
            return Err(string_of(chars_of("Missing -- DOWN -- marker").as_slice()));
        },
    };
    if b <= a {
        return Err(string_of(chars_of("-- DOWN -- must come after -- UP --").as_slice()));
    }
    let n = c.len();
    let up = slice_chars(c.as_slice(), a + 8, b);
    let down = slice_chars(c.as_slice(), b + 10, c.len());
    assert(down@ =~= c@.skip(b + 10));
    let up_t = trim_chars(up.as_slice());
    let down_t = trim_chars(down.as_slice());
    Ok((string_of(up_t.as_slice()), string_of(down_t.as_slice())))
}

/// Whether a character is numeric (Unicode general category N).
pub uninterp spec fn numeric_char(c: char) -> bool;

/// `char::is_numeric`; ASCII digits are numeric.
#[verifier::external_body]
fn is_numeric(c: char) -> (b: bool)
    ensures
        b == numeric_char(c),
        ('0' <= c && c <= '9') ==> b,
{
    c.is_numeric()
}

/// `s` with every trailing `.sql` removed (`trim_end_matches`).
pub open spec fn strip_sql(s: Seq<char>) -> Seq<char>
    decreases s.len(),
{
    if ends_with(s, ".sql"@) && s.len() >= 4 {
        strip_sql(s.take(s.len() - 4))
    } else {
        s
    }
}

/// The version and name a migration file name gives: the part before the
/// first `_` (fourteen numeric characters) and the rest without `.sql`.
pub open spec fn migration_name(f: Seq<char>) -> Option<(Seq<char>, Seq<char>)> {
    match char_index(f, '_') {
        None => None,
        Some(i) => {
            let v = f.take(i);
            if v.len() == 14 && forall|j: int| 0 <= j < 14 ==> numeric_char(#[trigger] v[j]) {
                Some((v, strip_sql(f.skip(i + 1))))
            } else {
                None
            }
        },
    }
}

/// Reads the version and name from a migration file name.
pub fn parse_migration_filename(filename: &str) -> (r: Option<(String, String)>)
    ensures
        match r {
            Some((v, n)) => migration_name(filename@) == Some((v@, n@)),
            None => migration_name(filename@) is None,
        },
{
    let f = chars_of(filename);
    let i = scan_to_char(f.as_slice(), '_', 0);
    assert(f@.skip(0) =~= f@);
    if i == f.len() {
        return None;
    }
    let v = slice_chars(f.as_slice(), 0, i);
    assert(v@ =~= f@.take(i as int));
    if v.len() != 14 {
        return None;
    }
    let mut k: usize = 0;
    while k < 14
        invariant
            v@.len() == 14,
            v@ == filename@.take(i as int),
            char_index(filename@, '_') == Some(i as int),
            k <= 14,
            forall|j: int| 0 <= j < k ==> numeric_char(#[trigger] v@[j]),
        decreases 14 - k,
    {
        if !is_numeric(v[k]) {
            assert(!numeric_char(v@[k as int]));
            return None;
        }
        k = k + 1;
    }
    let n = f.len();
    let mut rest = slice_chars(f.as_slice(), i + 1, f.len());
    assert(rest@ =~= f@.skip(i + 1));
    let sql = chars_of(".sql");
    proof { reveal_strlit(".sql"); }
    let ghost orig = rest@;
    while rest.len() >= 4 && crate::text::starts_with_at(rest.as_slice(), rest.len() - 4, sql.as_slice())
        invariant
            strip_sql(orig) == strip_sql(rest@),
            sql@ == ".sql"@,
        decreases rest@.len(),
    {
        proof {
            reveal_strlit(".sql");
            assert(rest@.skip(rest@.len() - 4).take(4) =~= rest@.skip(rest@.len() - 4));
            assert(ends_with(rest@, ".sql"@));
        }
        let m = rest.len();
        let shorter = slice_chars(rest.as_slice(), 0, m - 4);
        assert(shorter@ =~= rest@.take(rest@.len() - 4));
        rest = shorter;
    }
    proof {
        if rest@.len() >= 4 {
            assert(rest@.skip(rest@.len() - 4).take(4) =~= rest@.skip(rest@.len() - 4));
        }
    }
    Some((string_of(v.as_slice()), string_of(rest.as_slice())))
}


/// A migration read from the migrations directory.
#[derive(Debug)]
pub struct MigrationFile {
    /// `YYYYMMDDHHMMSS`.
    pub version: String,
    pub name: String,
    pub filename: String,
    pub up_sql: String,
    pub down_sql: String,
}

/// Reads a migration from its file name and content: `None` for a name
/// that is not `YYYYMMDDHHMMSS_name.sql` (the file is skipped); the
/// content's error when its sections do not read.
pub fn read_migration(filename: &str, content: &str) -> (r: Result<Option<MigrationFile>, String>)
    requires
        !markers_overlap(content@),
    ensures
        match r {
            Ok(None) => migration_name(filename@) is None,
            Ok(Some(m)) => migration_name(filename@) == Some((m.version@, m.name@)) && m.filename@ == filename@
                && migration_sections(content@) == Ok::<(Seq<char>, Seq<char>), Seq<char>>((m.up_sql@, m.down_sql@)),
            Err(e) => migration_name(filename@) is Some
                && migration_sections(content@) == Err::<(Seq<char>, Seq<char>), Seq<char>>(e@),
        },
{
    match parse_migration_filename(filename) {
        None => Ok(None),
        Some((version, name)) => match parse_migration_content(content) {
            Ok((up_sql, down_sql)) => Ok(Some(MigrationFile {
                version,
                name,
                filename: string_of(chars_of(filename).as_slice()),
                up_sql,
                down_sql,
            })),
            Err(e) => Err(e),
        },
    }
}

/// `a` comes after `b` in the sort: a greater version when ascending, a
/// smaller one when descending.
pub open spec fn after(a: Seq<char>, b: Seq<char>, desc: bool) -> bool {
    if desc { seq_lt(a, b) } else { seq_lt(b, a) }
}

/// Where a stable sort by version puts a migration of version `x` among the
/// sorted `s`: before the first one that comes after it.
pub open spec fn insert_pos(s: Seq<MigrationFile>, x: Seq<char>, desc: bool, k: int) -> int
    decreases s.len() - k,
{
    if k < 0 || k >= s.len() {
        s.len() as int
    } else if after(s[k].version@, x, desc) {
        k
    } else {
        insert_pos(s, x, desc, k + 1)
    }
}

/// Migrations in the order a stable sort by version gives: each one goes
/// after the ones before it that do not come after it.
pub open spec fn sorted_files(fs: Seq<MigrationFile>, desc: bool) -> Seq<MigrationFile>
    decreases fs.len(),
{
    if fs.len() == 0 {
        Seq::empty()
    } else {
        let p = sorted_files(fs.drop_last(), desc);
        p.insert(insert_pos(p, fs.last().version@, desc, 0), fs.last())
    }
}

/// `insert_pos` stays within the sequence.
proof fn lemma_insert_pos(s: Seq<MigrationFile>, x: Seq<char>, desc: bool, k: int)
    requires
        0 <= k <= s.len(),
    ensures
        k <= insert_pos(s, x, desc, k) <= s.len(),
    decreases s.len() - k,
{
    if k < s.len() && !after(s[k].version@, x, desc) {
        lemma_insert_pos(s, x, desc, k + 1);
    }
}

/// Whether a migration of version `a` comes after one of version `b`.
fn comes_after(a: &str, b: &str, desc: bool) -> (r: bool)
    ensures
        r == after(a@, b@, desc),
{
    if desc {
        str_lt(a, b)
    } else {
        str_lt(b, a)
    }
}

/// Sorts migrations by version, stably; ascending or descending.
fn sort_by_version(files: Vec<MigrationFile>, desc: bool) -> (r: Vec<MigrationFile>)
    ensures
        r@ == sorted_files(files@, desc),
{
    let ghost orig = files@;
    let mut rest = files;
    let mut out: Vec<MigrationFile> = Vec::new();
    let ghost mut n: int = 0;
    assert(orig.skip(0) =~= orig);
    while rest.len() > 0
        invariant
            0 <= n <= orig.len(),
            rest@ == orig.skip(n),
            out@ == sorted_files(orig.take(n), desc),
        decreases rest@.len(),
    {
        let x = rest.remove(0);
        proof {
            assert(x == orig[n]);
            assert(orig.take(n + 1).drop_last() =~= orig.take(n));
            assert(orig.take(n + 1).last() == orig[n]);
            assert(rest@ =~= orig.skip(n + 1));
        }
        let ghost prev = out@;
        let mut k: usize = 0;
        while k < out.len() && !comes_after(out[k].version.as_str(), x.version.as_str(), desc)
            invariant
                k <= out@.len(),
                out@ == prev,
                insert_pos(prev, x.version@, desc, 0) == insert_pos(prev, x.version@, desc, k as int),
            decreases out@.len() - k,
        {
            k = k + 1;
        }
        out.insert(k, x);
        proof { n = n + 1; }
    }
    assert(orig.take(orig.len() as int) =~= orig);
    out
}

/// Orders migrations by version, files of one version in the order they
/// came (`sort_by` on the version).
pub fn sort_migrations(files: Vec<MigrationFile>) -> (r: Vec<MigrationFile>)
    ensures
        r@ == sorted_files(files@, false),
{
    sort_by_version(files, false)
}

/// Whether `version` is among the applied versions.
pub open spec fn is_applied(applied: Seq<String>, version: Seq<char>) -> bool {
    exists|i: int| 0 <= i < applied.len() && #[trigger] applied[i]@ == version
}

/// The migrations of `fs` whose applied status is `status`, in order.
pub open spec fn with_status(fs: Seq<MigrationFile>, applied: Seq<String>, status: bool) -> Seq<MigrationFile>
    decreases fs.len(),
{
    if fs.len() == 0 {
        Seq::empty()
    } else {
        let p = with_status(fs.drop_last(), applied, status);
        if is_applied(applied, fs.last().version@) == status { p.push(fs.last()) } else { p }
    }
}

/// Whether a version is among the applied ones.
pub fn version_applied(applied: &Vec<String>, version: &str) -> (b: bool)
    ensures
        b == is_applied(applied@, version@),
{
    let mut i: usize = 0;
    while i < applied.len()
        invariant
            i <= applied@.len(),
            forall|j: int| 0 <= j < i ==> #[trigger] applied@[j]@ != version@,
        decreases applied@.len() - i,
    {
        if str_eq(applied[i].as_str(), version) {
            return true;
        }
        i = i + 1;
    }
    false
}

/// Keeps the migrations whose applied status is `status`, in order.
fn select_status(files: Vec<MigrationFile>, applied: &Vec<String>, status: bool) -> (r: Vec<MigrationFile>)
    ensures
        r@ == with_status(files@, applied@, status),
{
    let ghost orig = files@;
    let mut rest = files;
    let mut out: Vec<MigrationFile> = Vec::new();
    let ghost mut n: int = 0;
    assert(orig.skip(0) =~= orig);
    while rest.len() > 0
        invariant
            0 <= n <= orig.len(),
            rest@ == orig.skip(n),
            out@ == with_status(orig.take(n), applied@, status),
        decreases rest@.len(),
    {
        let x = rest.remove(0);
        proof {
            assert(x == orig[n]);
            assert(orig.take(n + 1).drop_last() =~= orig.take(n));
            assert(orig.take(n + 1).last() == orig[n]);
            assert(rest@ =~= orig.skip(n + 1));
        }
        if version_applied(applied, x.version.as_str()) == status {
            out.push(x);
        }
        proof { n = n + 1; }
    }
    assert(orig.take(orig.len() as int) =~= orig);
    out
}

/// The migrations still to apply: those not applied, in version order as
/// given.
pub fn pending_migrations(files: Vec<MigrationFile>, applied: &Vec<String>) -> (r: Vec<MigrationFile>)
    ensures
        r@ == with_status(files@, applied@, false),
{
    select_status(files, applied, false)
}

/// The migrations to roll back, most recent first: the applied ones,
/// sorted by descending version.
pub fn applied_migrations(files: Vec<MigrationFile>, applied: &Vec<String>) -> (r: Vec<MigrationFile>)
    ensures
        r@ == sorted_files(with_status(files@, applied@, true), true),
{
    let sel = select_status(files, applied, true);
    sort_by_version(sel, true)
}

/// How many of `available` migrations a run takes: all of them, or at most
/// `steps`.
pub fn steps_to_take(available: usize, steps: Option<usize>) -> (r: usize)
    ensures
        r == match steps {
            Some(n) => if n < available { n } else { available },
            None => available,
        },
{
    match steps {
        Some(n) => if n < available { n } else { available },
        None => available,
    }
}

/// The status column of `migrate status`.
pub fn status_label(applied: &Vec<String>, version: &str) -> (r: &'static str)
    ensures
        r@ == if is_applied(applied@, version@) { "✓ Applied"@ } else { "  Pending"@ },
{
    if version_applied(applied, version) {
        "✓ Applied"
    } else {
        "  Pending"
    }
}

/// The position of the first migration with the version `version`, or
/// the message "Migration version ... not found".
pub fn find_migration(files: &Vec<MigrationFile>, version: &str) -> (r: Result<usize, String>)
    ensures
        match r {
            Ok(i) => i < files@.len() && files@[i as int].version@ == version@
                && forall|j: int| 0 <= j < i ==> #[trigger] files@[j].version@ != version@,
            Err(m) => m@ == "Migration version "@ + version@ + " not found"@
                && forall|j: int| 0 <= j < files@.len() ==> #[trigger] files@[j].version@ != version@,
        },
{
    let mut i: usize = 0;
    while i < files.len()
        invariant
            i <= files@.len(),
            forall|j: int| 0 <= j < i ==> #[trigger] files@[j].version@ != version@,
        decreases files@.len() - i,
    {
        if str_eq(files[i].version.as_str(), version) {
            return Ok(i);
        }
        i = i + 1;
    }
    let mut m: Vec<char> = Vec::new();
    append_str(&mut m, "Migration version ");
    append_str(&mut m, version);
    append_str(&mut m, " not found");
    Err(string_of(m.as_slice()))
}

/// The file name of a new migration: `<timestamp>_<name>.sql`.
pub fn migration_filename(timestamp: &str, name: &str) -> (r: String)
    ensures
        r@ == timestamp@ + "_"@ + name@ + ".sql"@,
{
    let mut m: Vec<char> = Vec::new();
    append_str(&mut m, timestamp);
    append_str(&mut m, "_");
    append_str(&mut m, name);
    append_str(&mut m, ".sql");
    string_of(m.as_slice())
}

/// The content of a new migration: an empty up section and an empty down
/// section.
pub fn migration_template() -> (r: String)
    ensures
        r@ == "-- UP --\n\n\n-- DOWN --\n\n"@,
{
    string_of(chars_of("-- UP --\n\n\n-- DOWN --\n\n").as_slice())
}

/// An ASCII letter in lower case (other characters are unchanged).
pub open spec fn lower(c: char) -> char {
    if 'A' <= c && c <= 'Z' {
        ((c as u32) + 32) as char
    } else {
        c
    }
}

/// Whether the answer to the force prompt confirms: `yes` in any letter
/// case, around whitespace.
pub open spec fn confirms(answer: Seq<char>) -> bool {
    let t = trim(answer);
    t.len() == 3 && lower(t[0]) == 'y' && lower(t[1]) == 'e' && lower(t[2]) == 's'
}

/// Reads the answer to the force prompt.
pub fn force_confirmed(answer: &str) -> (b: bool)
    ensures
        b == confirms(answer@),
{
    let t = trim_chars(chars_of(answer).as_slice());
    t.len() == 3 && (t[0] == 'y' || t[0] == 'Y') && (t[1] == 'e' || t[1] == 'E') && (t[2] == 's' || t[2] == 'S')
}


/// `seq_lt` is a strict order: never both ways.
proof fn lemma_seq_lt_asym(a: Seq<char>, b: Seq<char>)
    ensures
        seq_lt(a, b) ==> !seq_lt(b, a),
    decreases a.len(),
{
    if a.len() > 0 && b.len() > 0 && a[0] == b[0] {
        lemma_seq_lt_asym(a.drop_first(), b.drop_first());
    }
}

/// `seq_lt` is transitive.
proof fn lemma_seq_lt_trans(a: Seq<char>, b: Seq<char>, c: Seq<char>)
    requires
        seq_lt(a, b),
        seq_lt(b, c),
    ensures
        seq_lt(a, c),
    decreases a.len(),
{
    if a.len() > 0 && b.len() > 0 && c.len() > 0 && a[0] == b[0] && b[0] == c[0] {
        lemma_seq_lt_trans(a.drop_first(), b.drop_first(), c.drop_first());
    }
}

/// Where `insert_pos` stops: everything before does not come after `x`,
/// and the one there (if any) does.
proof fn lemma_insert_pos_props(s: Seq<MigrationFile>, x: Seq<char>, desc: bool, k: int)
    requires
        0 <= k <= s.len(),
        forall|i: int| 0 <= i < k ==> !after(#[trigger] s[i].version@, x, desc),
    ensures
        k <= insert_pos(s, x, desc, k) <= s.len(),
        forall|i: int| 0 <= i < insert_pos(s, x, desc, k) ==> !after(#[trigger] s[i].version@, x, desc),
        insert_pos(s, x, desc, k) < s.len() ==> after(s[insert_pos(s, x, desc, k)].version@, x, desc),
    decreases s.len() - k,
{
    if k < s.len() && !after(s[k].version@, x, desc) {
        lemma_insert_pos_props(s, x, desc, k + 1);
    }
}

/// Migrations in order: none comes after one that follows it.
pub open spec fn in_version_order(s: Seq<MigrationFile>, desc: bool) -> bool {
    forall|i: int, j: int| 0 <= i < j < s.len() ==> !after(#[trigger] s[i].version@, #[trigger] s[j].version@, desc)
}

/// Sorting migrations by version keeps every migration, as many times as
/// it was given, and puts them in version order (ascending or
/// descending).
pub proof fn law_sorted_files(fs: Seq<MigrationFile>, desc: bool)
    ensures
        sorted_files(fs, desc).to_multiset() == fs.to_multiset(),
        in_version_order(sorted_files(fs, desc), desc),
    decreases fs.len(),
{
    broadcast use vstd::seq_lib::to_multiset_insert, vstd::seq_lib::to_multiset_build;
    if fs.len() == 0 {
        assert(sorted_files(fs, desc) =~= fs);
    } else {
        let p = sorted_files(fs.drop_last(), desc);
        let x = fs.last();
        law_sorted_files(fs.drop_last(), desc);
        lemma_insert_pos_props(p, x.version@, desc, 0);
        let q = insert_pos(p, x.version@, desc, 0);
        let r = p.insert(q, x);
        assert(fs.drop_last().push(x) =~= fs);
        assert(r.to_multiset() == p.to_multiset().insert(x));
        assert(fs.drop_last().push(x).to_multiset() == fs.drop_last().to_multiset().insert(x));
        assert(sorted_files(fs, desc) == r);
        assert forall|i: int, j: int| 0 <= i < j < r.len() implies !after(#[trigger] r[i].version@, #[trigger] r[j].version@, desc) by {
            if j < q {
                assert(r[i] == p[i] && r[j] == p[j]);
            } else if j == q {
                assert(r[i] == p[i] && r[j] == x);
            } else if i < q {
                assert(r[i] == p[i] && r[j] == p[j - 1]);
            } else if i == q {
                assert(r[i] == x && r[j] == p[j - 1]);
                let v = p[j - 1].version@;
                let w = p[q].version@;
                if after(x.version@, v, desc) {
                    if desc {
                        lemma_seq_lt_asym(w, x.version@);
                        if j - 1 == q {
                        } else {
                            lemma_seq_lt_trans(w, x.version@, v);
                        }
                    } else {
                        lemma_seq_lt_asym(x.version@, w);
                        if j - 1 == q {
                        } else {
                            lemma_seq_lt_trans(v, x.version@, w);
                        }
                    }
                }
            } else {
                assert(r[i] == p[i - 1] && r[j] == p[j - 1]);
            }
        }
    }
}

} // verus!
