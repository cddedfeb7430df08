use rvsdg_lower::{
    edge_ident, egg_id_from_str, EggIdParseErr, EggIdWrapper, IdTable, LowerError, TermStore, RVSDG,
};

#[test]
fn egg_id_exact_value() {
    // FNV-1a 64 of "a".
    assert_eq!(egg_id_from_str("a"), Ok(12638187200555641996));
}

#[test]
fn egg_id_wrapper_agrees() {
    let w = EggIdWrapper::from_str("a").unwrap();
    assert_eq!(w.id, 12638187200555641996);
    assert_eq!(EggIdWrapper::from_str(""), EggIdWrapper::from_str(""));
}

#[test]
fn egg_id_deterministic() {
    let first = egg_id_from_str("some-long-identifier");
    let second = egg_id_from_str("some-long-identifier");
    assert_eq!(first, second);
    assert_ne!(egg_id_from_str("x1"), egg_id_from_str("x2"));
    let _: Result<u64, EggIdParseErr> = first;
}

#[test]
fn edge_ident_is_fold_of_concatenation() {
    // FNV-1a 64 of "p1p2".
    assert_eq!(edge_ident("p1", "p2"), 13338178921467175780);
    assert_eq!(edge_ident("p1", "p2"), egg_id_from_str("p1p2").unwrap());
}

#[test]
fn matching_same_node_id() {
    let a = RVSDG::Node { id: "n1".to_string(), name: Some("f".to_string()), kind: None, children: vec![] };
    let b = RVSDG::Node { id: "n1".to_string(), name: None, kind: Some("op".to_string()), children: vec![7] };
    assert!(a.matches(&b));
    assert!(b.matches(&a));
}

#[test]
fn matching_different_node_ids() {
    let a = RVSDG::Node { id: "n1".to_string(), name: None, kind: None, children: vec![] };
    let b = RVSDG::Node { id: "n2".to_string(), name: None, kind: None, children: vec![] };
    assert!(!a.matches(&b));
}

#[test]
fn matching_graphs_never() {
    let a = RVSDG::Graph { children: vec![] };
    let b = RVSDG::Graph { children: vec![] };
    assert!(!a.matches(&b));
    assert!(!a.matches(&a));
}

#[test]
fn matching_across_variants_never() {
    let a = RVSDG::Input { id: "x".to_string() };
    let b = RVSDG::Output { id: "x".to_string() };
    assert!(!a.matches(&b));
    let e = RVSDG::Edge { ident: 5, source: 0, target: 1 };
    assert!(!a.matches(&e));
}

#[test]
fn store_interns_matching_terms_once() {
    let mut store = TermStore::new();
    let first = store.add(RVSDG::Input { id: "x".to_string() });
    let again = store.add(RVSDG::Input { id: "x".to_string() });
    assert_eq!(first, again);
    assert_eq!(store.len(), 1);
    let other = store.add(RVSDG::Output { id: "x".to_string() });
    assert_ne!(first, other);
    assert_eq!(store.len(), 2);
}

#[test]
fn store_get_returns_added_term() {
    let mut store = TermStore::new();
    let t = store.add(RVSDG::Argument { id: "arg0".to_string() });
    assert_eq!(*store.get(t), RVSDG::Argument { id: "arg0".to_string() });
}

#[test]
fn children_of_graph_and_region_only() {
    let g = RVSDG::Graph { children: vec![3, 1, 2] };
    assert_eq!(g.children(), vec![3, 1, 2]);
    let r = RVSDG::Region { id: "r".to_string(), body: vec![5, 6], results: vec![7] };
    assert_eq!(r.children(), vec![5, 6]);
    let n = RVSDG::Node { id: "n".to_string(), name: None, kind: None, children: vec![9] };
    assert_eq!(n.children(), Vec::<usize>::new());
    assert!(g.has_children_slot());
    assert!(r.has_children_slot());
    assert!(!n.has_children_slot());
}

#[test]
fn set_child_overwrites_in_place() {
    let mut store = TermStore::new();
    let a = store.add(RVSDG::Input { id: "a".to_string() });
    let b = store.add(RVSDG::Input { id: "b".to_string() });
    let g = store.add(RVSDG::Graph { children: vec![a, a] });
    store.set_child(g, 1, b);
    assert_eq!(store.get(g).children(), vec![a, b]);
    assert_eq!(store.len(), 3);
}

#[test]
fn table_registers_and_resolves() {
    let mut table = IdTable::new();
    assert_eq!(table.register("a".to_string(), 0), Ok(()));
    assert_eq!(table.resolve("a"), Ok(0));
    assert!(table.contains("a"));
    assert!(!table.contains("b"));
}

#[test]
fn table_rejects_duplicate_identifier() {
    let mut table = IdTable::new();
    assert_eq!(table.register("a".to_string(), 0), Ok(()));
    assert_eq!(table.register("a".to_string(), 1), Err(LowerError::DuplicateIdentifier));
    // The first binding is kept, never overwritten.
    assert_eq!(table.resolve("a"), Ok(0));
}

#[test]
fn table_unknown_identifier() {
    let table = IdTable::new();
    assert_eq!(table.resolve("missing"), Err(LowerError::UnknownIdentifier));
}

#[test]
fn error_descriptions() {
    assert_eq!(LowerError::MalformedInput.describe(), "malformed input");
    assert_eq!(LowerError::UnknownIdentifier.describe(), "unknown identifier");
    assert_eq!(LowerError::DuplicateIdentifier.describe(), "duplicate identifier");
}
