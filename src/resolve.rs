//! Finding a lang item from a unit: the unit itself first, then its
//! dependencies, depth first, in declaration order.

use vstd::prelude::*;

use crate::db::{Crate, DefDatabase};
use crate::items::{crate_items, LangItems};
use crate::target::LangItemTarget;

verus! {

/// The lang item `item` as seen from unit `k`: the unit's own registration if
/// it has one, else the first found among its dependencies.
pub open spec fn resolve(db: DefDatabase, k: Crate, item: Seq<char>) -> Option<LangItemTarget>
    decreases k.id, 1int, 0int,
{
    if crate_items(db, k).contains_key(item) {
        Some(crate_items(db, k)[item])
    } else {
        resolve_deps(db, k, item, 0)
    }
}

/// The first lang item `item` found from the dependencies of unit `k` at index
/// `i` and after, in declaration order.
pub open spec fn resolve_deps(db: DefDatabase, k: Crate, item: Seq<char>, i: int) -> Option<
    LangItemTarget,
>
    decreases k.id, 0int, db.deps@[k.id as int]@.len() - i,
{
    if i < 0 || i >= db.deps@[k.id as int]@.len() {
        None
    } else {
        let d = db.deps@[k.id as int]@[i];
        let found = if d.id < k.id {
            resolve(db, d, item)
        } else {
            None
        };
        match found {
            Some(t) => Some(t),
            None => resolve_deps(db, k, item, i + 1),
        }
    }
}

/// Looks for the lang item `item`, starting from unit `start_krate` and
/// traversing its dependencies recursively.
pub fn lang_item_lookup(db: &DefDatabase, start_krate: Crate, item: &str) -> (r: Option<
    LangItemTarget,
>)
    requires
        db.wf(),
        db.valid_crate(start_krate),
    ensures
        r == resolve(*db, start_krate, item@),
    decreases start_krate.id,
{
    let lang_items = LangItems::lang_items_query(db, start_krate);
    let start_krate_target = lang_items.target(item);
    if let Some(t) = start_krate_target {
        Some(*t)
    } else {
        proof {
            assert(db.crate_wf(start_krate.id as int));
        }
        let deps = &db.deps[start_krate.id];
        let mut i: usize = 0;
        while i < deps.len()
            invariant
                db.wf(),
                db.crate_wf(start_krate.id as int),
                db.valid_crate(start_krate),
                deps == db.deps@[start_krate.id as int],
                i <= deps@.len(),
                resolve(*db, start_krate, item@) == resolve_deps(*db, start_krate, item@, i as int),
            decreases deps@.len() - i,
        {
            let dep_krate = deps[i];
            assert(dep_krate.id < start_krate.id);
            let dep_target = lang_item_lookup(db, dep_krate, item);
            if dep_target.is_some() {
                return dep_target;
            }
            i = i + 1;
        }
        None
    }
}

/// A unit's own lang item shadows any that its dependencies register under
/// the same name.
pub proof fn lemma_local_shadows(db: DefDatabase, k: Crate, item: Seq<char>)
    requires
        crate_items(db, k).contains_key(item),
    ensures
        resolve(db, k, item) == Some(crate_items(db, k)[item]),
{
}

/// A unit with no dependency that does not register a name resolves it to
/// nothing.
pub proof fn lemma_isolated_missing(db: DefDatabase, k: Crate, item: Seq<char>)
    requires
        db.deps@[k.id as int]@.len() == 0,
        !crate_items(db, k).contains_key(item),
    ensures
        resolve(db, k, item) is None,
{
}

/// Where a unit does not register a name, the first of its dependencies, in
/// declaration order, that resolves the name gives the result.
pub proof fn lemma_dependency_order(db: DefDatabase, k: Crate, item: Seq<char>, i: int)
    requires
        db.wf(),
        db.valid_crate(k),
        !crate_items(db, k).contains_key(item),
        0 <= i < db.deps@[k.id as int]@.len(),
        resolve(db, db.deps@[k.id as int]@[i], item) is Some,
        forall|j: int|
            0 <= j < i ==> (#[trigger] resolve(db, db.deps@[k.id as int]@[j], item)) is None,
    ensures
        resolve(db, k, item) == resolve(db, db.deps@[k.id as int]@[i], item),
{
    lemma_deps_skip(db, k, item, i, 0);
}

/// The dependencies before index `i`, none of which resolves the name, are
/// passed over.
proof fn lemma_deps_skip(db: DefDatabase, k: Crate, item: Seq<char>, i: int, j: int)
    requires
        db.wf(),
        db.valid_crate(k),
        0 <= j <= i < db.deps@[k.id as int]@.len(),
        resolve(db, db.deps@[k.id as int]@[i], item) is Some,
        forall|l: int|
            0 <= l < i ==> (#[trigger] resolve(db, db.deps@[k.id as int]@[l], item)) is None,
    ensures
        resolve_deps(db, k, item, j) == resolve(db, db.deps@[k.id as int]@[i], item),
    decreases i - j,
{
    let d = db.deps@[k.id as int]@[j];
    assert(db.crate_wf(k.id as int));
    assert(d.id < k.id);
    if j < i {
        assert(resolve(db, d, item) is None);
        lemma_deps_skip(db, k, item, i, j + 1);
    }
}

/// A name registered only two dependency steps away is still found: unit `u`
/// depends first on `d1`, which depends first on `d2`, and neither `u` nor
/// `d1` registers the name.
pub proof fn lemma_transitive_reach(
    db: DefDatabase,
    u: Crate,
    d1: Crate,
    d2: Crate,
    item: Seq<char>,
)
    requires
        db.wf(),
        db.valid_crate(u),
        db.deps@[u.id as int]@.len() > 0,
        db.deps@[u.id as int]@[0] == d1,
        db.deps@[d1.id as int]@.len() > 0,
        db.deps@[d1.id as int]@[0] == d2,
        !crate_items(db, u).contains_key(item),
        !crate_items(db, d1).contains_key(item),
        crate_items(db, d2).contains_key(item),
    ensures
        resolve(db, u, item) == Some(crate_items(db, d2)[item]),
{
    assert(db.crate_wf(u.id as int));
    assert(db.deps@[u.id as int]@[0].id < u.id);
    assert(db.crate_wf(d1.id as int));
    lemma_local_shadows(db, d2, item);
    lemma_dependency_order(db, d1, item, 0);
    lemma_dependency_order(db, u, item, 0);
}

} // verus!
