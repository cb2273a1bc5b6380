//! The registry of loaded modules, used to resolve `alias::name`
//! references relative to the module a step was written in.

use vstd::prelude::*;
use crate::text::str_eq;

verus! {

/// A loaded module: its id, its canonical path and the modules its imports
/// name, by alias.
pub struct ModuleMetadata {
    pub id: usize,
    pub path: String,
    pub import_map: Vec<(String, usize)>,
}

/// All loaded modules. The module registered `n`-th has id `n`.
pub struct ModuleRegistry {
    modules: Vec<ModuleMetadata>,
}

/// The module an alias of an import map names (first entry).
pub open spec fn import_target(m: Seq<(String, usize)>, alias: Seq<char>) -> Option<usize>
    decreases m.len(),
{
    if m.len() == 0 {
        None
    } else if m[0].0@ == alias {
        Some(m[0].1)
    } else {
        import_target(m.drop_first(), alias)
    }
}

impl ModuleRegistry {
    /// Every module's id is its position.
    pub closed spec fn wf(&self) -> bool {
        forall|i: int| 0 <= i < self.modules@.len() ==> (#[trigger] self.modules@[i]).id == i
    }

    /// The registered modules, in registration order.
    pub closed spec fn spec_modules(&self) -> Seq<ModuleMetadata> {
        self.modules@
    }

    /// An empty registry.
    pub fn new() -> (r: Self)
        ensures
            r.wf(),
            r.spec_modules().len() == 0,
    {
        ModuleRegistry { modules: Vec::new() }
    }

    /// The module with id `id`.
    pub fn get_module(&self, id: usize) -> (r: Option<&ModuleMetadata>)
        requires
            self.wf(),
        ensures
            match r {
                Some(m) => id < self.spec_modules().len() && *m == self.spec_modules()[id as int],
                None => id >= self.spec_modules().len(),
            },
    {
        if id < self.modules.len() {
            Some(&self.modules[id])
        } else {
            None
        }
    }

    /// The id of the module most recently registered under `path`.
    pub fn get_id_by_path(&self, path: &str) -> (r: Option<usize>)
        requires
            self.wf(),
        ensures
            match r {
                Some(id) => id < self.spec_modules().len() && self.spec_modules()[id as int].path@ == path@
                    && forall|j: int| id < j < self.spec_modules().len() ==> (#[trigger] self.spec_modules()[j]).path@ != path@,
                None => forall|j: int| 0 <= j < self.spec_modules().len() ==> (#[trigger] self.spec_modules()[j]).path@ != path@,
            },
    {
        let mut i = self.modules.len();
        while i > 0
            invariant
                i <= self.modules@.len(),
                forall|j: int| i <= j < self.modules@.len() ==> (#[trigger] self.modules@[j]).path@ != path@,
            decreases i,
        {
            if str_eq(self.modules[i - 1].path.as_str(), path) {
                return Some(i - 1);
            }
            i = i - 1;
        }
        None
    }

    /// Registers a module and returns its id: the number of modules
    /// registered before it.
    pub fn register(&mut self, path: String, import_map: Vec<(String, usize)>) -> (id: usize)
        requires
            old(self).wf(),
            old(self).spec_modules().len() < usize::MAX,
        ensures
            final(self).wf(),
            id == old(self).spec_modules().len(),
            final(self).spec_modules() == old(self).spec_modules().push(ModuleMetadata { id, path, import_map }),
    {
        let id = self.modules.len();
        self.modules.push(ModuleMetadata { id, path, import_map });
        id
    }

    /// All registered modules, in registration order.
    pub fn modules(&self) -> (r: &Vec<ModuleMetadata>)
        ensures
            r@ == self.spec_modules(),
    {
        &self.modules
    }
}

impl ModuleMetadata {
    /// The module that `alias` names in this module's imports.
    pub fn import(&self, alias: &str) -> (r: Option<usize>)
        ensures
            r == import_target(self.import_map@, alias@),
    {
        let m = &self.import_map;
        let mut i: usize = 0;
        assert(m@.subrange(0, m@.len() as int) =~= m@);
        while i < m.len()
            invariant
                m@ == self.import_map@,
                i <= m@.len(),
                import_target(m@, alias@) == import_target(m@.subrange(i as int, m@.len() as int), alias@),
            decreases m@.len() - i,
        {
            assert(m@.subrange(i as int, m@.len() as int).drop_first() =~= m@.subrange(i + 1, m@.len() as int));
            assert(m@.subrange(i as int, m@.len() as int)[0] == m@[i as int]);
            if str_eq(m[i].0.as_str(), alias) {
                return Some(m[i].1);
            }
            i = i + 1;
        }
        None
    }
}


/// Law: after a module is registered, looking its path up finds it (the
/// most recently registered module wins).
pub proof fn law_registered_path_found(before: Seq<ModuleMetadata>, m: ModuleMetadata, found: Option<usize>)
    requires
        m.id == before.len(),
        match found {
            Some(id) => id < before.push(m).len() && before.push(m)[id as int].path@ == m.path@
                && forall|j: int| id < j < before.push(m).len() ==> (#[trigger] before.push(m)[j]).path@ != m.path@,
            None => forall|j: int| 0 <= j < before.push(m).len() ==> (#[trigger] before.push(m)[j]).path@ != m.path@,
        },
    ensures
        found == Some(m.id),
{
    let after = before.push(m);
    assert(after[before.len() as int] == m);
    match found {
        Some(id) => {
            if id < before.len() {
                assert(after[before.len() as int].path@ != m.path@);
            }
        },
        None => {
            assert(after[before.len() as int].path@ != m.path@);
        },
    }
}

/// Law: registering a module appends it under the next id: it is found by
/// that id and by its path (the most recent registration of a path wins),
/// the registry grows by one, and every earlier module keeps its id.
pub proof fn law_register_then_lookup(before: ModuleRegistry, after: ModuleRegistry, m: ModuleMetadata, found: Option<usize>)
    requires
        before.wf(),
        m.id == before.spec_modules().len(),
        after.spec_modules() == before.spec_modules().push(m),
        match found {
            Some(id) => id < after.spec_modules().len() && after.spec_modules()[id as int].path@ == m.path@
                && forall|j: int| id < j < after.spec_modules().len() ==> (#[trigger] after.spec_modules()[j]).path@ != m.path@,
            None => forall|j: int| 0 <= j < after.spec_modules().len() ==> (#[trigger] after.spec_modules()[j]).path@ != m.path@,
        },
    ensures
        after.wf(),
        after.spec_modules().len() == before.spec_modules().len() + 1,
        after.spec_modules()[m.id as int] == m,
        forall|i: int| 0 <= i < m.id ==> #[trigger] after.spec_modules()[i] == before.spec_modules()[i],
        found == Some(m.id),
{
    law_registered_path_found(before.spec_modules(), m, found);
    assert forall|i: int| 0 <= i < after.spec_modules().len() implies (#[trigger] after.spec_modules()[i]).id == i by {
        if i < m.id {
            assert(after.spec_modules()[i] == before.spec_modules()[i]);
        }
    }
}

} // verus!
