use rvsdg_lower::{LowerError, TermStore, RVSDG};

fn list(store: &TermStore, ids: &[usize]) -> String {
    ids.iter().map(|c| shape(store, *c)).collect()
}

fn shape(store: &TermStore, t: usize) -> String {
    match store.get(t) {
        RVSDG::Graph { children } => format!("(graph{})", list(store, children)),
        RVSDG::Node { children, .. } => format!("(node{})", list(store, children)),
        RVSDG::Region { body, results, .. } => {
            format!("(region{}{})", list(store, body), list(store, results))
        },
        RVSDG::Edge { .. } => "(edge)".to_string(),
        RVSDG::Input { .. } => "(input)".to_string(),
        RVSDG::Output { .. } => "(output)".to_string(),
        RVSDG::ResultPort { .. } => "(result)".to_string(),
        RVSDG::Argument { .. } => "(argument)".to_string(),
    }
}

#[test]
fn parses_full_document() {
    let text = "<?xml version=\"1.0\"?>\n<graph>\n  <node id=\"n1\" name=\"f\" kind=\"op\">\n    <input id=\"p1\"/>\n    <output id=\"p2\"/>\n  </node>\n  <edge source=\"p1\" target=\"p2\"/>\n</graph>\n";
    let (store, root) = RVSDG::parse(text).unwrap();
    let kids = store.get(root).children();
    assert_eq!(kids.len(), 2);
    let node_children: Vec<usize> = match store.get(kids[0]) {
        RVSDG::Node { id, name, kind, children } => {
            assert_eq!(id, "n1");
            assert_eq!(name.as_deref(), Some("f"));
            assert_eq!(kind.as_deref(), Some("op"));
            assert_eq!(children.len(), 2);
            assert_eq!(*store.get(children[0]), RVSDG::Input { id: "p1".to_string() });
            assert_eq!(*store.get(children[1]), RVSDG::Output { id: "p2".to_string() });
            children.clone()
        },
        other => panic!("expected a node term, got {:?}", other),
    };
    match store.get(kids[1]) {
        RVSDG::Edge { source, target, .. } => {
            assert_eq!(*source, node_children[0]);
            assert_eq!(*target, node_children[1]);
        },
        other => panic!("expected an edge term, got {:?}", other),
    }
}

#[test]
fn round_trip_shape() {
    // Lowering and re-serializing the structural shape (synthesized edge
    // identities ignored) reproduces the original nesting.
    let text = "<graph><node id=\"n1\"><region id=\"r1\" name=\"body\"><argument id=\"a1\"/><node id=\"n2\"><input id=\"i1\"/><output id=\"o1\"/></node><edge source=\"a1\" target=\"i1\"/><result id=\"res1\"/></region></node><edge source=\"n1\" target=\"n2\"/></graph>";
    let (store, root) = RVSDG::parse(text).unwrap();
    assert_eq!(
        shape(&store, root),
        "(graph(node(region(argument)(node(input)(output))(edge)(result)))(edge))"
    );
}

#[test]
fn parse_skips_whitespace_and_framing() {
    let text = "<?xml version=\"1.0\"?>\n\n<graph>\n   \n</graph>";
    let (store, root) = RVSDG::parse(text).unwrap();
    assert_eq!(store.len(), 1);
    assert_eq!(*store.get(root), RVSDG::Graph { children: vec![] });
}

#[test]
fn unreadable_document_is_malformed() {
    assert_eq!(RVSDG::parse("<graph>"), Err(LowerError::MalformedInput));
    assert_eq!(RVSDG::parse(""), Err(LowerError::MalformedInput));
    assert_eq!(RVSDG::parse("<graph></node>"), Err(LowerError::MalformedInput));
}

#[test]
fn character_data_is_malformed() {
    assert_eq!(
        RVSDG::parse("<graph>stray text</graph>"),
        Err(LowerError::MalformedInput),
    );
}

#[test]
fn root_element_must_be_graph() {
    assert_eq!(
        RVSDG::parse("<node id=\"n\"></node>"),
        Err(LowerError::MalformedInput),
    );
}

#[test]
fn duplicate_id_in_document() {
    let text = "<graph><input id=\"x\"/><input id=\"x\"/></graph>";
    assert_eq!(RVSDG::parse(text), Err(LowerError::DuplicateIdentifier));
}

#[test]
fn unresolved_edge_in_document() {
    let text = "<graph><edge source=\"a\" target=\"b\"/></graph>";
    assert_eq!(RVSDG::parse(text), Err(LowerError::UnknownIdentifier));
}

#[test]
fn edge_with_children_is_malformed() {
    let text = "<graph><input id=\"a\"/><edge source=\"a\" target=\"a\"><input id=\"b\"/></edge></graph>";
    assert_eq!(RVSDG::parse(text), Err(LowerError::MalformedInput));
}

#[test]
fn separate_runs_agree() {
    let text = "<graph><input id=\"p1\"/><output id=\"p2\"/><edge source=\"p1\" target=\"p2\"/></graph>";
    let (store_a, root_a) = RVSDG::parse(text).unwrap();
    let (store_b, root_b) = RVSDG::parse(text).unwrap();
    assert_eq!(root_a, root_b);
    assert_eq!(store_a.len(), store_b.len());
    for t in 0..store_a.len() {
        assert_eq!(store_a.get(t), store_b.get(t));
    }
}
