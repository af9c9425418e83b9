//! The lang items of one unit: found by walking its module tree.

use vstd::prelude::*;

use std::sync::Arc;

use crate::db::{Attr, Crate, DefDatabase, Module};
use crate::tag_map::{no_tags, tag_map_contents, TagMap};
use crate::target::{ImplBlock, LangItemTarget};

verus! {

/// One registration: a name and the target that it marks.
pub type Registration = (Seq<char>, LangItemTarget);

/// The key of the attribute that marks a lang item.
pub open spec fn lang_key() -> Seq<char> {
    "lang"@
}

/// The value of the first attribute from index `i` on that reads
/// `lang = "..."`, if any.
pub open spec fn lang_attr_from(attrs: Seq<Attr>, i: int) -> Option<Seq<char>>
    decreases attrs.len() - i,
{
    if i < 0 || i >= attrs.len() {
        None
    } else if attrs[i].key@ == lang_key() && attrs[i].value is Some {
        Some(attrs[i].value.unwrap()@)
    } else {
        lang_attr_from(attrs, i + 1)
    }
}

/// The lang item name carried by a list of attributes: the value of the
/// first `lang = "..."` among them.
pub open spec fn lang_attr(attrs: Seq<Attr>) -> Option<Seq<char>> {
    lang_attr_from(attrs, 0)
}

/// The registrations made by the first `n` implementation blocks of module
/// `m`, in declaration order.
pub open spec fn impl_regs(db: DefDatabase, m: int, n: int) -> Seq<Registration>
    decreases n,
{
    if n <= 0 {
        Seq::empty()
    } else {
        let prev = impl_regs(db, m, n - 1);
        match lang_attr(db.modules@[m].impls@[n - 1].attrs@) {
            Some(name) => prev.push(
                (
                    name,
                    LangItemTarget::ImplBlock(
                        ImplBlock { module: Module { id: m as usize }, id: (n - 1) as usize },
                    ),
                ),
            ),
            None => prev,
        }
    }
}

/// The registrations made in the whole tree below module `m`, in traversal
/// order: the module's own implementation blocks, then each child's tree.
pub open spec fn module_regs(db: DefDatabase, m: int) -> Seq<Registration>
    decreases m, 1int, 0int,
{
    impl_regs(db, m, db.modules@[m].impls@.len() as int) + children_regs(
        db,
        m,
        db.modules@[m].children@.len() as int,
    )
}

/// The registrations made in the trees of the first `n` children of module `m`.
pub open spec fn children_regs(db: DefDatabase, m: int, n: int) -> Seq<Registration>
    decreases m, 0int, n,
{
    if n <= 0 {
        Seq::empty()
    } else {
        let c = db.modules@[m].children@[n - 1].id as int;
        if 0 <= c < m {
            children_regs(db, m, n - 1) + module_regs(db, c)
        } else {
            children_regs(db, m, n - 1)
        }
    }
}

/// `r` added to `map` unless its name is already there.
pub open spec fn register(map: Map<Seq<char>, LangItemTarget>, r: Registration) -> Map<
    Seq<char>,
    LangItemTarget,
> {
    if map.contains_key(r.0) {
        map
    } else {
        map.insert(r.0, r.1)
    }
}

/// The registrations applied to `map` in order: the first of each name wins.
pub open spec fn register_all(map: Map<Seq<char>, LangItemTarget>, regs: Seq<Registration>) -> Map<
    Seq<char>,
    LangItemTarget,
>
    decreases regs.len(),
{
    if regs.len() == 0 {
        map
    } else {
        register(register_all(map, regs.drop_last()), regs.last())
    }
}

/// The registrations of unit `k`: those of its root module's tree.
pub open spec fn crate_regs(db: DefDatabase, k: Crate) -> Seq<Registration> {
    match db.roots@[k.id as int] {
        Some(r) => module_regs(db, r.id as int),
        None => Seq::empty(),
    }
}

/// The lang items of unit `k`.
pub open spec fn crate_items(db: DefDatabase, k: Crate) -> Map<Seq<char>, LangItemTarget> {
    register_all(no_tags(), crate_regs(db, k))
}

/// Registering `a + b` is registering `a`, then `b`.
pub proof fn lemma_register_all_append(
    map: Map<Seq<char>, LangItemTarget>,
    a: Seq<Registration>,
    b: Seq<Registration>,
)
    ensures
        register_all(map, a + b) == register_all(register_all(map, a), b),
    decreases b.len(),
{
    if b.len() == 0 {
        assert(a + b =~= a);
    } else {
        assert((a + b).drop_last() =~= a + b.drop_last());
        lemma_register_all_append(map, a, b.drop_last());
    }
}

/// A name that neither `map` nor any registration holds stays absent.
pub proof fn lemma_register_all_absent(
    map: Map<Seq<char>, LangItemTarget>,
    regs: Seq<Registration>,
    key: Seq<char>,
)
    requires
        !map.contains_key(key),
        forall|j: int| 0 <= j < regs.len() ==> (#[trigger] regs[j]).0 != key,
    ensures
        !register_all(map, regs).contains_key(key),
    decreases regs.len(),
{
    if regs.len() > 0 {
        let prev = regs.drop_last();
        assert forall|j: int| 0 <= j < prev.len() implies (#[trigger] prev[j]).0 != key by {
            assert(prev[j] == regs[j]);
        }
        lemma_register_all_absent(map, prev, key);
        assert(regs.last() == regs[regs.len() - 1]);
    }
}

/// Registration `i`, whose name neither `map` nor an earlier registration
/// holds, is the one that `register_all` keeps.
pub proof fn lemma_register_all_first(
    map: Map<Seq<char>, LangItemTarget>,
    regs: Seq<Registration>,
    i: int,
)
    requires
        0 <= i < regs.len(),
        !map.contains_key(regs[i].0),
        forall|j: int| 0 <= j < i ==> (#[trigger] regs[j]).0 != regs[i].0,
    ensures
        register_all(map, regs).contains_key(regs[i].0),
        register_all(map, regs)[regs[i].0] == regs[i].1,
    decreases regs.len(),
{
    let prev = regs.drop_last();
    if i == regs.len() - 1 {
        assert forall|j: int| 0 <= j < prev.len() implies (#[trigger] prev[j]).0 != regs[i].0 by {
            assert(prev[j] == regs[j]);
        }
        lemma_register_all_absent(map, prev, regs[i].0);
    } else {
        assert forall|j: int| 0 <= j < i implies (#[trigger] prev[j]).0 != prev[i].0 by {
            assert(prev[j] == regs[j]);
        }
        lemma_register_all_first(map, prev, i);
    }
}

/// Within one unit, the first registration of a name in traversal order (a
/// module's own implementation blocks in declaration order, then the trees of
/// its children in order) is the lang item of that name; later ones are
/// ignored.
pub proof fn lemma_first_registration_wins(db: DefDatabase, k: Crate, i: int)
    requires
        db.wf(),
        db.valid_crate(k),
        0 <= i < crate_regs(db, k).len(),
        forall|j: int|
            0 <= j < i ==> (#[trigger] crate_regs(db, k)[j]).0 != crate_regs(db, k)[i].0,
    ensures
        crate_items(db, k).contains_key(crate_regs(db, k)[i].0),
        crate_items(db, k)[crate_regs(db, k)[i].0] == crate_regs(db, k)[i].1,
{
    lemma_register_all_first(no_tags(), crate_regs(db, k), i);
}

/// The value of the first attribute in `attrs` that reads `lang = "..."`.
pub fn lang_attr_value(attrs: &Vec<Attr>) -> (r: Option<&String>)
    ensures
        match r {
            Some(s) => lang_attr(attrs@) == Some(s@),
            None => lang_attr(attrs@) is None,
        },
{
    let key = "lang".to_owned();
    proof {
        reveal_strlit("lang");
    }
    let mut i: usize = 0;
    while i < attrs.len()
        invariant
            i <= attrs@.len(),
            key@ == lang_key(),
            lang_attr_from(attrs@, 0) == lang_attr_from(attrs@, i as int),
        decreases attrs@.len() - i,
    {
        let a = &attrs[i];
        if a.key == key {
            if let Some(v) = &a.value {
                return Some(v);
            }
        }
        i = i + 1;
    }
    None
}

/// The lang items of one unit: each name with the first target registered
/// under it.
pub struct LangItems {
    pub items: TagMap,
}

impl View for LangItems {
    type V = Map<Seq<char>, LangItemTarget>;

    open spec fn view(&self) -> Map<Seq<char>, LangItemTarget> {
        tag_map_contents(self.items)
    }
}

impl LangItems {
    /// The target registered under `item`, if any.
    pub fn target(&self, item: &str) -> (r: Option<&LangItemTarget>)
        ensures
            match r {
                Some(t) => self@.contains_key(item@) && *t == self@[item@],
                None => !self@.contains_key(item@),
            },
    {
        self.items.get(item)
    }

    /// Collects the lang items of unit `krate` from its root module's tree;
    /// a unit without a root module has none.
    pub fn lang_items_query(db: &DefDatabase, krate: Crate) -> (r: Arc<LangItems>)
        requires
            db.wf(),
            db.valid_crate(krate),
        ensures
            r@ == crate_items(*db, krate),
    {
        let mut lang_items = LangItems { items: TagMap::new() };
        proof {
            assert(db.crate_wf(krate.id as int));
        }
        if let Some(module) = db.roots[krate.id] {
            lang_items.collect_lang_items_recursive(db, &module);
        }
        Arc::new(lang_items)
    }

    /// Registers the lang items of the tree below `module`, in traversal order,
    /// keeping any name that is already present.
    fn collect_lang_items_recursive(&mut self, db: &DefDatabase, module: &Module)
        requires
            db.wf(),
            db.valid_module(*module),
        ensures
            final(self)@ == register_all(old(self)@, module_regs(*db, module.id as int)),
        decreases module.id,
    {
        let m = module.id;
        let md = &db.modules[m];
        proof {
            assert(db.module_wf(m as int));
        }
        let ghost a = impl_regs(*db, m as int, md.impls@.len() as int);
        let mut i: usize = 0;
        while i < md.impls.len()
            invariant
                i <= md.impls@.len(),
                m == module.id,
                m < db.modules@.len(),
                md == db.modules@[m as int],
                self@ == register_all(old(self)@, impl_regs(*db, m as int, i as int)),
            decreases md.impls@.len() - i,
        {
            let ghost prev = impl_regs(*db, m as int, i as int);
            if let Some(name) = lang_attr_value(&md.impls[i].attrs) {
                let imp = ImplBlock { module: *module, id: i };
                self.items.insert_if_absent(name.as_str(), LangItemTarget::ImplBlock(imp));
                proof {
                    let next = impl_regs(*db, m as int, i + 1);
                    assert(next == prev.push((name@, LangItemTarget::ImplBlock(imp))));
                    assert(next.drop_last() =~= prev);
                }
            } else {
                assert(impl_regs(*db, m as int, i + 1) == prev);
            }
            i = i + 1;
        }
        let mut j: usize = 0;
        while j < md.children.len()
            invariant
                j <= md.children@.len(),
                m == module.id,
                m < db.modules@.len(),
                md == db.modules@[m as int],
                db.wf(),
                db.module_wf(m as int),
                self@ == register_all(old(self)@, a + children_regs(*db, m as int, j as int)),
            decreases md.children@.len() - j,
        {
            let child = md.children[j];
            assert(child.id < m);
            let ghost before = children_regs(*db, m as int, j as int);
            self.collect_lang_items_recursive(db, &child);
            proof {
                let r = module_regs(*db, child.id as int);
                assert(children_regs(*db, m as int, j + 1) == before + r);
                assert(a + (before + r) =~= (a + before) + r);
                lemma_register_all_append(old(self)@, a + before, r);
            }
            j = j + 1;
        }
    }
}

} // verus!
