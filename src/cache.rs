//! Lang items of each unit, collected on first demand and then shared.

use vstd::prelude::*;

use std::sync::Arc;

use crate::db::{Crate, DefDatabase};
use crate::items::{crate_items, LangItems};
use crate::resolve::{resolve, resolve_deps};
use crate::target::LangItemTarget;

verus! {

/// One slot per unit of a database: empty until that unit's lang items are
/// first asked for, then holding them, read-only, for every later reader.
/// A cache answers for the database it was made for; after a change to the
/// database a new cache is needed.
pub struct LangItemCache {
    pub entries: Vec<Option<Arc<LangItems>>>,
}

impl LangItemCache {
    /// Every filled slot holds the lang items of its unit in `db`.
    pub open spec fn wf_for(&self, db: DefDatabase) -> bool {
        &&& self.entries@.len() == db.num_crates()
        &&& forall|i: int|
            0 <= i < self.entries@.len() ==> (#[trigger] self.entries@[i] matches Some(e)
                ==> e@ == crate_items(db, Crate { id: i as usize }))
    }

    /// A cache for `db` with every slot empty.
    pub fn new(db: &DefDatabase) -> (r: LangItemCache)
        ensures
            r.wf_for(*db),
            forall|i: int| 0 <= i < r.entries@.len() ==> #[trigger] r.entries@[i] is None,
    {
        let mut entries: Vec<Option<Arc<LangItems>>> = Vec::new();
        let n = db.roots.len();
        let mut i: usize = 0;
        while i < n
            invariant
                n == db.num_crates(),
                i <= n,
                entries@.len() == i,
                forall|j: int| 0 <= j < i ==> #[trigger] entries@[j] is None,
            decreases n - i,
        {
            entries.push(None);
            i = i + 1;
        }
        LangItemCache { entries }
    }

    /// Fills the slot of unit `krate` if it is empty.
    fn ensure_loaded(&mut self, db: &DefDatabase, krate: Crate)
        requires
            db.wf(),
            db.valid_crate(krate),
            old(self).wf_for(*db),
        ensures
            final(self).wf_for(*db),
            final(self).entries@[krate.id as int] is Some,
    {
        if self.entries[krate.id].is_none() {
            let items = LangItems::lang_items_query(db, krate);
            self.entries.set(krate.id, Some(items));
            proof {
                assert forall|i: int| 0 <= i < self.entries@.len() implies (
                #[trigger] self.entries@[i] matches Some(e) ==> e@ == crate_items(
                    *db,
                    Crate { id: i as usize },
                )) by {
                    if i == krate.id {
                        assert(Crate { id: i as usize } == krate);
                    } else {
                        assert(old(self).entries@[i] == self.entries@[i]);
                    }
                }
            }
        }
    }

    /// Looks for the lang item `item` from unit `start_krate`, as
    /// `lang_item_lookup` does, collecting each unit's lang items at most once.
    pub fn lookup(&mut self, db: &DefDatabase, start_krate: Crate, item: &str) -> (r: Option<
        LangItemTarget,
    >)
        requires
            db.wf(),
            db.valid_crate(start_krate),
            old(self).wf_for(*db),
        ensures
            final(self).wf_for(*db),
            r == resolve(*db, start_krate, item@),
        decreases start_krate.id,
    {
        self.ensure_loaded(db, start_krate);
        let found = match &self.entries[start_krate.id] {
            Some(items) => {
                proof {
                    assert(self.entries@[start_krate.id as int] matches Some(e) ==> e@
                        == crate_items(*db, start_krate));
                }
                match items.target(item) {
                    Some(t) => Some(*t),
                    None => None,
                }
            },
            None => None,
        };
        if found.is_some() {
            return found;
        }
        proof {
            assert(db.crate_wf(start_krate.id as int));
        }
        let deps = &db.deps[start_krate.id];
        let mut i: usize = 0;
        while i < deps.len()
            invariant
                db.wf(),
                db.crate_wf(start_krate.id as int),
                db.valid_crate(start_krate),
                self.wf_for(*db),
                deps == db.deps@[start_krate.id as int],
                i <= deps@.len(),
                resolve(*db, start_krate, item@) == resolve_deps(*db, start_krate, item@, i as int),
            decreases deps@.len() - i,
        {
            let dep_krate = deps[i];
            assert(dep_krate.id < start_krate.id);
            let dep_target = self.lookup(db, dep_krate, item);
            if dep_target.is_some() {
                return dep_target;
            }
            i = i + 1;
        }
        None
    }
}

} // verus!
