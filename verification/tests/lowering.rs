use rvsdg_lower::{lower_events, Attributes, Event, LowerError, TermStore, RVSDG};

fn start(name: &str, attrs: &[(&str, &str)]) -> Event {
    Event::Start {
        name: name.to_string(),
        attrs: attrs.iter().map(|(k, v)| (k.to_string(), v.to_string())).collect(),
    }
}

fn end(name: &str) -> Event {
    Event::End { name: name.to_string() }
}

fn empty_element(name: &str, attrs: &[(&str, &str)]) -> Vec<Event> {
    vec![start(name, attrs), end(name)]
}

fn doc(inner: Vec<Event>) -> Vec<Event> {
    let mut events = vec![Event::Skip, start("graph", &[])];
    events.extend(inner);
    events.push(end("graph"));
    events.push(Event::Skip);
    events
}

#[test]
fn attributes_extraction() {
    let pairs = vec![
        ("junk".to_string(), "ignored".to_string()),
        ("id".to_string(), "n1".to_string()),
        ("name".to_string(), "f".to_string()),
    ];
    let a = Attributes::from_pairs(&pairs).unwrap();
    assert_eq!(a.id, "n1");
    assert_eq!(a.name, Some("f".to_string()));
    assert_eq!(a.kind, None);
}

#[test]
fn attributes_missing_id_is_malformed() {
    let pairs = vec![("name".to_string(), "f".to_string())];
    assert_eq!(Attributes::from_pairs(&pairs), Err(LowerError::MalformedInput));
}

#[test]
fn attributes_first_occurrence_wins() {
    let pairs = vec![
        ("id".to_string(), "first".to_string()),
        ("id".to_string(), "second".to_string()),
        ("kind".to_string(), "op".to_string()),
    ];
    let a = Attributes::from_pairs(&pairs).unwrap();
    assert_eq!(a.id, "first");
    assert_eq!(a.kind, Some("op".to_string()));
}

#[test]
fn lowers_minimal_graph() {
    let events = doc(vec![]);
    let (store, root) = lower_events(&events).unwrap();
    assert_eq!(store.len(), 1);
    assert_eq!(*store.get(root), RVSDG::Graph { children: vec![] });
}

#[test]
fn region_partition_order() {
    // A region holding [input a, node b, result c, result d] splits into
    // body = [a, b] and results = [c, d], original order kept on each side.
    let mut inner = vec![start("region", &[("id", "r")])];
    inner.extend(empty_element("input", &[("id", "a")]));
    inner.extend(empty_element("node", &[("id", "b")]));
    inner.extend(empty_element("result", &[("id", "c")]));
    inner.extend(empty_element("result", &[("id", "d")]));
    inner.push(end("region"));
    let events = doc(inner);
    let (store, root) = lower_events(&events).unwrap();
    let region_id = store.get(root).children()[0];
    match store.get(region_id) {
        RVSDG::Region { id, body, results } => {
            assert_eq!(id, "r");
            assert_eq!(body.len(), 2);
            assert_eq!(*store.get(body[0]), RVSDG::Input { id: "a".to_string() });
            assert!(matches!(store.get(body[1]), RVSDG::Node { .. }));
            assert_eq!(results.len(), 2);
            assert_eq!(*store.get(results[0]), RVSDG::ResultPort { id: "c".to_string() });
            assert_eq!(*store.get(results[1]), RVSDG::ResultPort { id: "d".to_string() });
        },
        other => panic!("expected a region term, got {:?}", other),
    }
}

fn edge_of(store: &TermStore, root: usize, position: usize) -> (u64, usize, usize) {
    let child = store.get(root).children()[position];
    match store.get(child) {
        RVSDG::Edge { ident, source, target } => (*ident, *source, *target),
        other => panic!("expected an edge term, got {:?}", other),
    }
}

#[test]
fn edge_after_endpoints_resolves() {
    let mut inner = empty_element("input", &[("id", "p1")]);
    inner.extend(empty_element("output", &[("id", "p2")]));
    inner.extend(empty_element("edge", &[("source", "p1"), ("target", "p2")]));
    let events = doc(inner);
    let (store, root) = lower_events(&events).unwrap();
    let kids = store.get(root).children();
    let (_, source, target) = edge_of(&store, root, 2);
    assert_eq!(source, kids[0]);
    assert_eq!(target, kids[1]);
}

#[test]
fn edge_before_endpoints_resolves() {
    // A forward reference: the edge precedes the elements it refers to.
    let mut inner = empty_element("edge", &[("source", "p1"), ("target", "p2")]);
    inner.extend(empty_element("input", &[("id", "p1")]));
    inner.extend(empty_element("output", &[("id", "p2")]));
    let events = doc(inner);
    let (store, root) = lower_events(&events).unwrap();
    let kids = store.get(root).children();
    let (_, source, target) = edge_of(&store, root, 0);
    assert_eq!(source, kids[1]);
    assert_eq!(target, kids[2]);
}

#[test]
fn edge_to_absent_id_is_unknown_identifier() {
    let mut inner = empty_element("input", &[("id", "p1")]);
    inner.extend(empty_element("edge", &[("source", "p1"), ("target", "nowhere")]));
    let events = doc(inner);
    assert_eq!(lower_events(&events), Err(LowerError::UnknownIdentifier));
}

#[test]
fn edge_missing_attribute_is_malformed() {
    let mut inner = empty_element("input", &[("id", "p1")]);
    inner.extend(empty_element("edge", &[("source", "p1")]));
    let events = doc(inner);
    assert_eq!(lower_events(&events), Err(LowerError::MalformedInput));
}

#[test]
fn duplicate_textual_id_is_rejected() {
    let mut inner = empty_element("input", &[("id", "x")]);
    inner.extend(empty_element("output", &[("id", "x")]));
    let events = doc(inner);
    assert_eq!(lower_events(&events), Err(LowerError::DuplicateIdentifier));
}

#[test]
fn identical_edges_are_interned_once() {
    let mut inner = empty_element("input", &[("id", "p1")]);
    inner.extend(empty_element("output", &[("id", "p2")]));
    inner.extend(empty_element("edge", &[("source", "p1"), ("target", "p2")]));
    inner.extend(empty_element("edge", &[("source", "p1"), ("target", "p2")]));
    let events = doc(inner);
    let (store, root) = lower_events(&events).unwrap();
    let kids = store.get(root).children();
    assert_eq!(kids.len(), 4);
    assert_eq!(kids[2], kids[3]);
    assert_eq!(store.len(), 4);
}

#[test]
fn node_missing_id_is_malformed() {
    let events = doc(empty_element("node", &[("name", "f")]));
    assert_eq!(lower_events(&events), Err(LowerError::MalformedInput));
}

#[test]
fn mismatched_close_is_malformed() {
    let events = vec![
        start("graph", &[]),
        start("node", &[("id", "n")]),
        end("region"),
        end("graph"),
    ];
    assert_eq!(lower_events(&events), Err(LowerError::MalformedInput));
}

#[test]
fn unexpected_event_is_malformed() {
    let events = vec![start("graph", &[]), Event::Other, end("graph")];
    assert_eq!(lower_events(&events), Err(LowerError::MalformedInput));
}

#[test]
fn unknown_element_is_malformed() {
    let events = doc(empty_element("widget", &[("id", "w")]));
    assert_eq!(lower_events(&events), Err(LowerError::MalformedInput));
}

#[test]
fn root_must_be_a_graph() {
    let events = empty_element("node", &[("id", "n")]);
    assert_eq!(lower_events(&events), Err(LowerError::MalformedInput));
}

#[test]
fn trailing_element_is_malformed() {
    let mut events = doc(vec![]);
    events.extend(empty_element("input", &[("id", "p")]));
    assert_eq!(lower_events(&events), Err(LowerError::MalformedInput));
}

#[test]
fn empty_event_sequence_is_malformed() {
    assert_eq!(lower_events(&vec![]), Err(LowerError::MalformedInput));
    assert_eq!(lower_events(&vec![Event::Skip, Event::Skip]), Err(LowerError::MalformedInput));
}

#[test]
fn truncated_document_is_malformed() {
    let events = vec![start("graph", &[]), start("node", &[("id", "n")])];
    assert_eq!(lower_events(&events), Err(LowerError::MalformedInput));
}

#[test]
fn lowering_is_deterministic() {
    let mut inner = empty_element("input", &[("id", "p1")]);
    inner.extend(empty_element("output", &[("id", "p2")]));
    inner.extend(empty_element("edge", &[("source", "p1"), ("target", "p2")]));
    let events = doc(inner);
    let (store_a, root_a) = lower_events(&events).unwrap();
    let (store_b, root_b) = lower_events(&events).unwrap();
    assert_eq!(root_a, root_b);
    assert_eq!(store_a.len(), store_b.len());
    for t in 0..store_a.len() {
        assert_eq!(store_a.get(t), store_b.get(t));
    }
    // The synthesized edge identity is the fold of "p1p2".
    let (ident, _, _) = edge_of(&store_a, root_a, 2);
    assert_eq!(ident, 13338178921467175780);
}
