//! Loading of imported program files: the cache of loaded modules, the
//! stack of files being loaded (to detect import cycles), and how an import
//! path is read relative to the importing file.
//!
//! Reading files and resolving paths on disk is the caller's part; this
//! module decides what to do with the results.

use vstd::prelude::*;
use crate::ast::Program;
use crate::error::WebPipeError;
use crate::step::{file_name, path_file_name};
use crate::text::{join, join_into, chars_of, string_of, str_eq, slice_chars, append, append_str};

verus! {

/// Loaded modules by path, and the files being loaded, outermost first.
pub struct ModuleLoader {
    pub cache: Vec<(String, Program)>,
    pub loading_stack: Vec<String>,
}

/// What loading a module should do next.
#[derive(Debug)]
pub enum LoadStart {
    /// The module is cached.
    Cached,
    /// The module is already being loaded: the import cycle.
    Cycle(String),
    /// The module was pushed on the loading stack; read and parse it.
    Started,
}

/// The cache entry for `path`, if any.
pub open spec fn cached(c: Seq<(String, Program)>, path: Seq<char>) -> Option<Program>
    decreases c.len(),
{
    if c.len() == 0 {
        None
    } else if c.last().0@ == path {
        Some(c.last().1)
    } else {
        cached(c.drop_last(), path)
    }
}

/// The stack from the first occurrence of `target` on.
pub open spec fn from_target(s: Seq<Seq<char>>, target: Seq<char>) -> Seq<Seq<char>>
    decreases s.len(),
{
    if s.len() == 0 {
        Seq::empty()
    } else if s[0] == target {
        s
    } else {
        from_target(s.drop_first(), target)
    }
}

/// The display name of a path in a cycle: its file name, or `?`.
pub open spec fn cycle_name(p: Seq<char>) -> Seq<char> {
    match file_name(p) {
        Some(n) => n,
        None => "?"@,
    }
}

/// The message for an import cycle closing at `target`: the file names from
/// `target`'s first place on the loading stack, then `target` again.
pub open spec fn cycle_text(stack: Seq<Seq<char>>, target: Seq<char>) -> Seq<char> {
    let names = from_target(stack, target).map_values(|p: Seq<char>| cycle_name(p));
    join(match file_name(target) {
        Some(n) => names.push(n),
        None => names,
    }, " -> "@)
}

/// `p` without its trailing slashes.
pub open spec fn strip_slashes(p: Seq<char>) -> Seq<char>
    decreases p.len(),
{
    if p.len() > 0 && p.last() == '/' {
        strip_slashes(p.drop_last())
    } else {
        p
    }
}

/// The position of the last `/` in `p`.
pub open spec fn last_slash(p: Seq<char>) -> Option<int>
    decreases p.len(),
{
    if p.len() == 0 {
        None
    } else if p.last() == '/' {
        Some(p.len() - 1)
    } else {
        last_slash(p.drop_last())
    }
}

/// The directory of a path: everything before its last component
/// (trailing and separating slashes dropped); `""` for a lone relative
/// component, `/` for a component under the root, `None` for the empty
/// path and the root.
pub open spec fn parent_dir(p: Seq<char>) -> Option<Seq<char>> {
    let t = strip_slashes(p);
    if t.len() == 0 {
        None
    } else {
        match last_slash(t) {
            None => Some(Seq::empty()),
            Some(i) => if strip_slashes(t.take(i)).len() == 0 {
                Some(seq!['/'])
            } else {
                Some(strip_slashes(t.take(i)))
            },
        }
    }
}

/// `rel` read from the directory `dir`: an absolute `rel` stands for
/// itself; otherwise it is appended to `dir` with a `/` between.
pub open spec fn join_path(dir: Seq<char>, rel: Seq<char>) -> Seq<char> {
    if rel.len() > 0 && rel[0] == '/' {
        rel
    } else if dir.len() == 0 {
        rel
    } else if dir.last() == '/' {
        dir + rel
    } else {
        dir + seq!['/'] + rel
    }
}

/// The end of `p[..end]` without trailing slashes.
fn strip_slashes_end(p: &[char], end: usize) -> (r: usize)
    requires
        end <= p@.len(),
    ensures
        r <= end,
        p@.take(r as int) == strip_slashes(p@.take(end as int)),
{
    let mut e = end;
    while e > 0 && p[e - 1] == '/'
        invariant
            e <= end <= p@.len(),
            strip_slashes(p@.take(end as int)) == strip_slashes(p@.take(e as int)),
        decreases e,
    {
        assert(p@.take(e as int).drop_last() =~= p@.take(e - 1));
        e = e - 1;
    }
    e
}

/// The position of the last `/` in `p[..end]`.
fn last_slash_in(p: &[char], end: usize) -> (r: Option<usize>)
    requires
        end <= p@.len(),
    ensures
        match r {
            Some(i) => last_slash(p@.take(end as int)) == Some(i as int) && i < end,
            None => last_slash(p@.take(end as int)) is None,
        },
{
    let mut e = end;
    while e > 0
        invariant
            e <= end <= p@.len(),
            last_slash(p@.take(end as int)) == last_slash(p@.take(e as int)),
        decreases e,
    {
        if p[e - 1] == '/' {
            assert(p@.take(e as int).last() == p@[e - 1]);
            return Some(e - 1);
        }
        assert(p@.take(e as int).drop_last() =~= p@.take(e - 1));
        e = e - 1;
    }
    None
}

impl ModuleLoader {
    /// A loader with nothing cached and nothing being loaded.
    pub fn new() -> (r: Self)
        ensures
            r.cache@.len() == 0,
            r.loading_stack@.len() == 0,
    {
        ModuleLoader { cache: Vec::new(), loading_stack: Vec::new() }
    }

    /// The cached program for `path`.
    pub fn get_cached(&self, path: &str) -> (r: Option<&Program>)
        ensures
            match r {
                Some(p) => cached(self.cache@, path@) == Some(*p),
                None => cached(self.cache@, path@) is None,
            },
    {
        let mut i = self.cache.len();
        assert(self.cache@.take(i as int) =~= self.cache@);
        while i > 0
            invariant
                i <= self.cache@.len(),
                cached(self.cache@, path@) == cached(self.cache@.take(i as int), path@),
            decreases i,
        {
            assert(self.cache@.take(i as int).drop_last() =~= self.cache@.take(i - 1));
            if str_eq(self.cache[i - 1].0.as_str(), path) {
                return Some(&self.cache[i - 1].1);
            }
            i = i - 1;
        }
        None
    }

    /// Forgets every cached module.
    pub fn clear_cache(&mut self)
        ensures
            final(self).cache@.len() == 0,
            final(self).loading_stack@ == old(self).loading_stack@,
    {
        self.cache = Vec::new();
    }

    /// The message for an import cycle that closes at `target`.
    pub fn format_import_cycle(&self, target: &str) -> (r: String)
        ensures
            r@ == cycle_text(self.loading_stack@.map_values(|s: String| s@), target@),
    {
        let ghost st = self.loading_stack@.map_values(|s: String| s@);
        let mut i: usize = 0;
        assert(st.skip(0) =~= st);
        while i < self.loading_stack.len() && !str_eq(self.loading_stack[i].as_str(), target)
            invariant
                st == self.loading_stack@.map_values(|s: String| s@),
                i <= st.len(),
                from_target(st, target@) == from_target(st.skip(i as int), target@),
            decreases st.len() - i,
        {
            assert(st.skip(i as int).drop_first() =~= st.skip(i + 1));
            i = i + 1;
        }
        let ghost rest = from_target(st, target@);
        assert(rest =~= st.skip(i as int));
        let mut parts: Vec<Vec<char>> = Vec::new();
        let mut k = i;
        while k < self.loading_stack.len()
            invariant
                st == self.loading_stack@.map_values(|s: String| s@),
                i <= k <= st.len(),
                rest == st.skip(i as int),
                parts@.len() == k - i,
                forall|j: int| 0 <= j < k - i ==> #[trigger] parts@[j]@ == cycle_name(rest[j]),
            decreases st.len() - k,
        {
            let n = match path_file_name(self.loading_stack[k].as_str()) {
                Some(n) => chars_of(n.as_str()),
                None => chars_of("?"),
            };
            parts.push(n);
            k = k + 1;
        }
        let ghost names = rest.map_values(|p: Seq<char>| cycle_name(p));
        assert(parts@.map_values(|x: Vec<char>| x@) =~= names);
        match path_file_name(target) {
            Some(n) => {
                parts.push(chars_of(n.as_str()));
                assert(parts@.map_values(|x: Vec<char>| x@) =~= names.push(n@));
            },
            None => {},
        }
        let mut out: Vec<char> = Vec::new();
        join_into(&mut out, &parts, " -> ");
        string_of(out.as_slice())
    }

    /// Starts loading the module at `abs_path`: a cached module needs no
    /// work, one already on the loading stack closes an import cycle, and
    /// any other is pushed on the stack.
    pub fn begin_load(&mut self, abs_path: &str) -> (r: LoadStart)
        ensures
            final(self).cache@ == old(self).cache@,
            cached(old(self).cache@, abs_path@) is Some ==> r is Cached && final(self).loading_stack@ == old(self).loading_stack@,
            cached(old(self).cache@, abs_path@) is None && old(self).loading_stack@.map_values(|s: String| s@).contains(abs_path@)
                ==> (r matches LoadStart::Cycle(m) && m@ == cycle_text(old(self).loading_stack@.map_values(|s: String| s@), abs_path@))
                    && final(self).loading_stack@ == old(self).loading_stack@,
            cached(old(self).cache@, abs_path@) is None && !old(self).loading_stack@.map_values(|s: String| s@).contains(abs_path@)
                ==> r is Started && final(self).loading_stack@.map_values(|s: String| s@)
                    == old(self).loading_stack@.map_values(|s: String| s@).push(abs_path@),
    {
        if self.get_cached(abs_path).is_some() {
            return LoadStart::Cached;
        }
        let ghost st = self.loading_stack@.map_values(|s: String| s@);
        let mut i: usize = 0;
        while i < self.loading_stack.len()
            invariant
                st == self.loading_stack@.map_values(|s: String| s@),
                self.cache@ == old(self).cache@,
                self.loading_stack@ == old(self).loading_stack@,
                cached(old(self).cache@, abs_path@) is None,
                i <= st.len(),
                forall|j: int| 0 <= j < i ==> st[j] != abs_path@,
            decreases st.len() - i,
        {
            if str_eq(self.loading_stack[i].as_str(), abs_path) {
                assert(st[i as int] == abs_path@);
                let m = self.format_import_cycle(abs_path);
                return LoadStart::Cycle(m);
            }
            i = i + 1;
        }
        self.loading_stack.push(string_of(chars_of(abs_path).as_slice()));
        assert(self.loading_stack@.map_values(|s: String| s@) =~= st.push(abs_path@));
        LoadStart::Started
    }

    /// Finishes loading a module: it leaves the loading stack and is cached
    /// under `abs_path`.
    pub fn finish_load(&mut self, abs_path: String, program: Program)
        ensures
            final(self).loading_stack@ == if old(self).loading_stack@.len() == 0 {
                old(self).loading_stack@
            } else {
                old(self).loading_stack@.drop_last()
            },
            cached(final(self).cache@, abs_path@) == Some(program),
            forall|p: Seq<char>| p != abs_path@ ==> #[trigger] cached(final(self).cache@, p) == cached(old(self).cache@, p),
    {
        if self.loading_stack.len() > 0 {
            self.loading_stack.pop();
        }
        let ghost old_cache = self.cache@;
        self.cache.push((abs_path, program));
        assert(self.cache@.drop_last() =~= old_cache);
    }

    /// The path an import names, read from the directory of the importing
    /// file (before it is resolved on disk).
    pub fn resolve_import_path(&self, current_file: &str, import_path: &str) -> (r: Result<String, WebPipeError>)
        ensures
            match r {
                Ok(p) => (parent_dir(current_file@) matches Some(d) && p@ == join_path(d, import_path@)),
                Err(e) => parent_dir(current_file@) is None && (e matches WebPipeError::ImportNotFound(m)
                    && m@ == "Cannot determine parent directory of '"@ + current_file@ + "'"@),
            },
    {
        let c = chars_of(current_file);
        let t_end = strip_slashes_end(c.as_slice(), c.len());
        assert(c@.take(c@.len() as int) =~= c@);
        if t_end == 0 {
            let mut m: Vec<char> = Vec::new();
            append_str(&mut m, "Cannot determine parent directory of '");
            append_str(&mut m, current_file);
            append_str(&mut m, "'");
            return Err(WebPipeError::ImportNotFound(string_of(m.as_slice())));
        }
        let ghost t = c@.take(t_end as int);
        let dir: Vec<char> = match last_slash_in(c.as_slice(), t_end) {
            None => Vec::new(),
            Some(i) => {
                let d_end = strip_slashes_end(c.as_slice(), i);
                assert(c@.take(i as int) =~= t.take(i as int));
                if d_end == 0 {
                    let mut v: Vec<char> = Vec::new();
                    v.push('/');
                    v
                } else {
                    let d = slice_chars(c.as_slice(), 0, d_end);
                    assert(d@ =~= c@.take(d_end as int));
                    d
                }
            },
        };
        let rel = chars_of(import_path);
        let mut out: Vec<char> = Vec::new();
        if rel.len() > 0 && rel[0] == '/' {
            append(&mut out, rel.as_slice());
        } else if dir.len() == 0 {
            append(&mut out, rel.as_slice());
        } else if dir[dir.len() - 1] == '/' {
            append(&mut out, dir.as_slice());
            append(&mut out, rel.as_slice());
        } else {
            append(&mut out, dir.as_slice());
            out.push('/');
            append(&mut out, rel.as_slice());
        }
        assert(out@ =~= join_path(dir@, import_path@));
        Ok(string_of(out.as_slice()))
    }
}

/// Law: once a module's program is cached under its path, a later load of
/// that path is a cache hit with that program (`begin_load` answers
/// `Cached`), and the cache entries of other paths are unchanged.
pub proof fn law_load_then_hit(cache: Seq<(String, Program)>, path: String, program: Program, other: Seq<char>)
    ensures
        cached(cache.push((path, program)), path@) == Some(program),
        other != path@ ==> cached(cache.push((path, program)), other) == cached(cache, other),
{
    assert(cache.push((path, program)).drop_last() =~= cache);
}

} // verus!
