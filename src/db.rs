//! The definition database: compilation units, their module trees and the
//! implementation blocks declared in each module.

use vstd::prelude::*;

verus! {

/// A compilation unit, by its index in the database.
#[derive(Debug, Clone, Copy, PartialEq, Eq, Hash, Structural)]
pub struct Crate {
    pub id: usize,
}

/// A module, by its index in the database.
#[derive(Debug, Clone, Copy, PartialEq, Eq, Hash, Structural)]
pub struct Module {
    pub id: usize,
}

/// One attribute of an item. `value` is the string on the right of `key = "..."`,
/// or `None` where the attribute is not of that shape.
#[derive(Debug)]
pub struct Attr {
    pub key: String,
    pub value: Option<String>,
}

/// An implementation block, with its attributes in declaration order.
#[derive(Debug)]
pub struct ImplData {
    pub attrs: Vec<Attr>,
}

/// A module: the unit that owns it, its implementation blocks and its child
/// modules, each in declaration order.
#[derive(Debug)]
pub struct ModuleData {
    pub krate: Crate,
    pub impls: Vec<ImplData>,
    pub children: Vec<Module>,
}

/// All units and modules. A module's children were added before it, and a
/// unit's dependencies were added before it, so that neither the module trees
/// nor the dependency graph can hold a cycle.
#[derive(Debug)]
pub struct DefDatabase {
    pub modules: Vec<ModuleData>,
    /// The root module of each unit, where it has one.
    pub roots: Vec<Option<Module>>,
    /// The direct dependencies of each unit, in declaration order.
    pub deps: Vec<Vec<Crate>>,
}

impl DefDatabase {
    pub open spec fn num_crates(&self) -> nat {
        self.roots@.len()
    }

    pub open spec fn valid_crate(&self, k: Crate) -> bool {
        k.id < self.num_crates()
    }

    pub open spec fn valid_module(&self, m: Module) -> bool {
        m.id < self.modules@.len()
    }

    pub open spec fn module_wf(&self, m: int) -> bool {
        &&& self.valid_crate(self.modules@[m].krate)
        &&& forall|j: int|
            0 <= j < self.modules@[m].children@.len() ==> #[trigger] self.modules@[m].children@[j].id
                < m
    }

    pub open spec fn crate_wf(&self, k: int) -> bool {
        &&& (self.roots@[k] matches Some(r) ==> self.valid_module(r))
        &&& forall|j: int| 0 <= j < self.deps@[k]@.len() ==> #[trigger] self.deps@[k]@[j].id < k
    }

    /// Every index refers to an existing entry, children precede their parent
    /// and dependencies precede their dependent.
    pub open spec fn wf(&self) -> bool {
        &&& self.deps@.len() == self.roots@.len()
        &&& forall|m: int| 0 <= m < self.modules@.len() ==> #[trigger] self.module_wf(m)
        &&& forall|k: int| 0 <= k < self.roots@.len() ==> #[trigger] self.crate_wf(k)
    }

    /// The unit that owns module `m`, where `m` exists.
    pub open spec fn module_krate(&self, m: Module) -> Option<Crate> {
        if self.valid_module(m) {
            Some(self.modules@[m.id as int].krate)
        } else {
            None
        }
    }

    /// An empty database.
    pub fn new() -> (r: DefDatabase)
        ensures
            r.wf(),
            r.modules@.len() == 0,
            r.num_crates() == 0,
    {
        DefDatabase { modules: Vec::new(), roots: Vec::new(), deps: Vec::new() }
    }

    /// Adds a unit with no root module and the given direct dependencies,
    /// each of which must already exist.
    pub fn add_crate(&mut self, deps: Vec<Crate>) -> (r: Crate)
        requires
            old(self).wf(),
            forall|j: int| 0 <= j < deps@.len() ==> old(self).valid_crate(#[trigger] deps@[j]),
        ensures
            final(self).wf(),
            r.id == old(self).num_crates(),
            final(self).modules@ == old(self).modules@,
            final(self).roots@ == old(self).roots@.push(None),
            final(self).deps@ == old(self).deps@.push(deps),
    {
        let r = Crate { id: self.roots.len() };
        self.roots.push(None);
        self.deps.push(deps);
        proof {
            assert forall|m: int| 0 <= m < self.modules@.len() implies #[trigger] self.module_wf(
                m,
            ) by {
                assert(old(self).module_wf(m));
            }
            assert forall|k: int| 0 <= k < self.roots@.len() implies #[trigger] self.crate_wf(
                k,
            ) by {
                if k < old(self).roots@.len() {
                    assert(old(self).crate_wf(k));
                }
            }
        }
        r
    }

    /// Adds a module owned by unit `krate`, with its implementation blocks and
    /// its child modules, each of which must already exist.
    pub fn add_module(&mut self, krate: Crate, impls: Vec<ImplData>, children: Vec<Module>) -> (r:
        Module)
        requires
            old(self).wf(),
            old(self).valid_crate(krate),
            forall|j: int|
                0 <= j < children@.len() ==> old(self).valid_module(#[trigger] children@[j]),
        ensures
            final(self).wf(),
            r.id == old(self).modules@.len(),
            final(self).modules@ == old(self).modules@.push(
                ModuleData { krate: krate, impls: impls, children: children },
            ),
            final(self).roots@ == old(self).roots@,
            final(self).deps@ == old(self).deps@,
    {
        let r = Module { id: self.modules.len() };
        self.modules.push(ModuleData { krate, impls, children });
        proof {
            assert forall|m: int| 0 <= m < self.modules@.len() implies #[trigger] self.module_wf(
                m,
            ) by {
                if m < old(self).modules@.len() {
                    assert(old(self).module_wf(m));
                }
            }
            assert forall|k: int| 0 <= k < self.roots@.len() implies #[trigger] self.crate_wf(
                k,
            ) by {
                assert(old(self).crate_wf(k));
            }
        }
        r
    }

    /// Makes `module` the root module of unit `krate`.
    pub fn set_root(&mut self, krate: Crate, module: Module)
        requires
            old(self).wf(),
            old(self).valid_crate(krate),
            old(self).valid_module(module),
        ensures
            final(self).wf(),
            final(self).modules@ == old(self).modules@,
            final(self).roots@ == old(self).roots@.update(krate.id as int, Some(module)),
            final(self).deps@ == old(self).deps@,
    {
        self.roots.set(krate.id, Some(module));
        proof {
            assert forall|m: int| 0 <= m < self.modules@.len() implies #[trigger] self.module_wf(
                m,
            ) by {
                assert(old(self).module_wf(m));
            }
            assert forall|k: int| 0 <= k < self.roots@.len() implies #[trigger] self.crate_wf(
                k,
            ) by {
                assert(old(self).crate_wf(k));
            }
        }
    }
}

impl Module {
    /// The unit that owns this module; `None` where the module is unknown to `db`.
    pub fn krate(&self, db: &DefDatabase) -> (r: Option<Crate>)
        ensures
            r == db.module_krate(*self),
    {
        if self.id < db.modules.len() {
            Some(db.modules[self.id].krate)
        } else {
            None
        }
    }
}

} // verus!
