use lang_items::cache::LangItemCache;
use lang_items::db::{Attr, Crate, DefDatabase, ImplData, Module};
use lang_items::items::{lang_attr_value, LangItems};
use lang_items::resolve::lang_item_lookup;
use lang_items::target::{Enum, Function, ImplBlock, LangItemTarget, Static, Struct, Trait};

fn kv(key: &str, value: &str) -> Attr {
    Attr { key: key.to_string(), value: Some(value.to_string()) }
}

fn word(key: &str) -> Attr {
    Attr { key: key.to_string(), value: None }
}

fn tagged(name: &str) -> ImplData {
    ImplData { attrs: vec![kv("lang", name)] }
}

fn plain() -> ImplData {
    ImplData { attrs: vec![] }
}

fn impl_target(module: Module, id: usize) -> LangItemTarget {
    LangItemTarget::ImplBlock(ImplBlock { module, id })
}

/// A unit whose root module holds the given implementation blocks.
fn unit_with(db: &mut DefDatabase, deps: Vec<Crate>, impls: Vec<ImplData>) -> (Crate, Module) {
    let k = db.add_crate(deps);
    let m = db.add_module(k, impls, vec![]);
    db.set_root(k, m);
    (k, m)
}

#[test]
fn dependency_provides_owned() {
    let mut db = DefDatabase::new();
    let (b, b_root) = unit_with(&mut db, vec![], vec![tagged("owned")]);
    let (a, _) = unit_with(&mut db, vec![b], vec![plain()]);
    assert_eq!(lang_item_lookup(&db, a, "owned"), Some(impl_target(b_root, 0)));
    assert_eq!(lang_item_lookup(&db, a, "missing"), None);
}

#[test]
fn local_definition_shadows_dependency() {
    let mut db = DefDatabase::new();
    let (d, _) = unit_with(&mut db, vec![], vec![tagged("sized")]);
    let (u, u_root) = unit_with(&mut db, vec![d], vec![plain(), tagged("sized")]);
    assert_eq!(lang_item_lookup(&db, u, "sized"), Some(impl_target(u_root, 1)));
}

#[test]
fn isolated_unit_without_registration_finds_nothing() {
    let mut db = DefDatabase::new();
    let (u, _) = unit_with(&mut db, vec![], vec![tagged("drop")]);
    assert_eq!(lang_item_lookup(&db, u, "sized"), None);
    let bare = db.add_crate(vec![]);
    assert_eq!(lang_item_lookup(&db, bare, "drop"), None);
}

#[test]
fn first_registration_wins_within_unit() {
    let mut db = DefDatabase::new();
    let k = db.add_crate(vec![]);
    let child = db.add_module(k, vec![tagged("copy")], vec![]);
    let root = db.add_module(k, vec![plain(), tagged("copy"), tagged("copy")], vec![child]);
    db.set_root(k, root);
    assert_eq!(lang_item_lookup(&db, k, "copy"), Some(impl_target(root, 1)));
}

#[test]
fn module_blocks_precede_child_modules() {
    let mut db = DefDatabase::new();
    let k = db.add_crate(vec![]);
    let first = db.add_module(k, vec![tagged("add")], vec![]);
    let second = db.add_module(k, vec![tagged("add"), tagged("sub")], vec![]);
    let root = db.add_module(k, vec![tagged("sub")], vec![first, second]);
    db.set_root(k, root);
    assert_eq!(lang_item_lookup(&db, k, "add"), Some(impl_target(first, 0)));
    assert_eq!(lang_item_lookup(&db, k, "sub"), Some(impl_target(root, 0)));
}

#[test]
fn dependency_order_decides_between_definitions() {
    let mut db = DefDatabase::new();
    let (d1, d1_root) = unit_with(&mut db, vec![], vec![tagged("both")]);
    let (d2, d2_root) = unit_with(&mut db, vec![], vec![tagged("both"), tagged("second")]);
    let (u, _) = unit_with(&mut db, vec![d1, d2], vec![]);
    assert_eq!(lang_item_lookup(&db, u, "second"), Some(impl_target(d2_root, 1)));
    assert_eq!(lang_item_lookup(&db, u, "both"), Some(impl_target(d1_root, 0)));
    let (v, _) = unit_with(&mut db, vec![d2, d1], vec![]);
    assert_eq!(lang_item_lookup(&db, v, "both"), Some(impl_target(d2_root, 0)));
}

#[test]
fn repeated_lookups_agree() {
    let mut db = DefDatabase::new();
    let (d, _) = unit_with(&mut db, vec![], vec![tagged("fn_once")]);
    let (u, _) = unit_with(&mut db, vec![d], vec![]);
    let first = lang_item_lookup(&db, u, "fn_once");
    let second = lang_item_lookup(&db, u, "fn_once");
    assert!(first.is_some());
    assert_eq!(first, second);
    assert_eq!(lang_item_lookup(&db, u, "none"), lang_item_lookup(&db, u, "none"));
}

#[test]
fn transitive_dependency_is_searched() {
    let mut db = DefDatabase::new();
    let (d2, d2_root) = unit_with(&mut db, vec![], vec![tagged("deref")]);
    let (d1, _) = unit_with(&mut db, vec![d2], vec![plain()]);
    let (u, _) = unit_with(&mut db, vec![d1], vec![]);
    assert_eq!(lang_item_lookup(&db, u, "deref"), Some(impl_target(d2_root, 0)));
}

#[test]
fn depth_first_before_next_sibling() {
    let mut db = DefDatabase::new();
    let (deep, deep_root) = unit_with(&mut db, vec![], vec![tagged("index")]);
    let (d1, _) = unit_with(&mut db, vec![deep], vec![]);
    let (d2, _) = unit_with(&mut db, vec![], vec![tagged("index")]);
    let (u, _) = unit_with(&mut db, vec![d1, d2], vec![]);
    assert_eq!(lang_item_lookup(&db, u, "index"), Some(impl_target(deep_root, 0)));
}

#[test]
fn attribute_scan_takes_first_lang_key_value() {
    let attrs = vec![word("lang"), kv("doc", "x"), kv("lang", "eq"), kv("lang", "ord")];
    assert_eq!(lang_attr_value(&attrs).map(|s| s.as_str()), Some("eq"));
    let none = vec![word("lang"), kv("langs", "eq"), kv("Lang", "eq")];
    assert_eq!(lang_attr_value(&none), None);
    assert_eq!(lang_attr_value(&vec![]), None);
}

#[test]
fn blocks_without_usable_attribute_are_skipped() {
    let mut db = DefDatabase::new();
    let k = db.add_crate(vec![]);
    let impls = vec![
        ImplData { attrs: vec![word("lang")] },
        ImplData { attrs: vec![kv("derive", "neg")] },
        ImplData { attrs: vec![word("lang"), kv("lang", "neg")] },
    ];
    let root = db.add_module(k, impls, vec![]);
    db.set_root(k, root);
    assert_eq!(lang_item_lookup(&db, k, "neg"), Some(impl_target(root, 2)));
    assert_eq!(lang_item_lookup(&db, k, "derive"), None);
}

#[test]
fn unit_items_are_collected_from_root_tree() {
    let mut db = DefDatabase::new();
    let k = db.add_crate(vec![]);
    let child = db.add_module(k, vec![tagged("mul")], vec![]);
    let root = db.add_module(k, vec![tagged("div")], vec![child]);
    db.set_root(k, root);
    let items = LangItems::lang_items_query(&db, k);
    assert_eq!(items.target("mul"), Some(&impl_target(child, 0)));
    assert_eq!(items.target("div"), Some(&impl_target(root, 0)));
    assert_eq!(items.target("rem"), None);
    let bare = db.add_crate(vec![]);
    assert_eq!(LangItems::lang_items_query(&db, bare).target("mul"), None);
}

#[test]
fn target_owning_unit() {
    let mut db = DefDatabase::new();
    let k0 = db.add_crate(vec![]);
    let k1 = db.add_crate(vec![k0]);
    let m0 = db.add_module(k0, vec![], vec![]);
    let m1 = db.add_module(k1, vec![], vec![]);
    let targets = [
        LangItemTarget::Enum(Enum { module: m1, id: 0 }),
        LangItemTarget::Function(Function { module: m1, id: 1 }),
        LangItemTarget::ImplBlock(ImplBlock { module: m1, id: 2 }),
        LangItemTarget::Static(Static { module: m1, id: 3 }),
        LangItemTarget::Struct(Struct { module: m1, id: 4 }),
        LangItemTarget::Trait(Trait { module: m1, id: 5 }),
    ];
    for t in targets.iter() {
        assert_eq!(t.krate(&db), Some(k1));
    }
    assert_eq!(LangItemTarget::Trait(Trait { module: m0, id: 0 }).krate(&db), Some(k0));
    let detached = Module { id: 7 };
    assert_eq!(LangItemTarget::Enum(Enum { module: detached, id: 0 }).krate(&db), None);
    assert_eq!(m0.krate(&db), Some(k0));
}

#[test]
fn cache_fills_slots_on_demand() {
    let mut db = DefDatabase::new();
    let (d2, d2_root) = unit_with(&mut db, vec![], vec![tagged("owned")]);
    let (d1, _) = unit_with(&mut db, vec![d2], vec![tagged("unsize")]);
    let (u, u_root) = unit_with(&mut db, vec![d1], vec![tagged("sized")]);
    let _unused = db.add_crate(vec![]);
    let mut cache = LangItemCache::new(&db);
    assert_eq!(cache.entries.len(), 4);
    assert!(cache.entries.iter().all(|e| e.is_none()));
    assert_eq!(cache.lookup(&db, u, "sized"), Some(impl_target(u_root, 0)));
    assert!(cache.entries[u.id].is_some());
    assert!(cache.entries[d1.id].is_none());
    assert_eq!(cache.lookup(&db, u, "owned"), Some(impl_target(d2_root, 0)));
    assert!(cache.entries[d1.id].is_some());
    assert!(cache.entries[d2.id].is_some());
    assert!(cache.entries[3].is_none());
    assert_eq!(cache.lookup(&db, u, "owned"), lang_item_lookup(&db, u, "owned"));
    assert_eq!(cache.lookup(&db, u, "missing"), None);
}
