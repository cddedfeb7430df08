use vstd::prelude::*;

verus! {

/// A term identity: an index into the arena of the owning `TermStore`.
pub type TermId = usize;

/// Spec-level image of a term: strings as character sequences and child
/// slots as mathematical integers.
pub enum TermV {
    /// Top-level container; its payload is the ordered sequence of its
    /// child term identities. A graph has no intrinsic identity.
    Graph { children: Seq<int> },
    /// An operation: its identity record (source id, optional name,
    /// optional kind tag) plus its ordered body-child identities.
    Node { id: Seq<char>, name: Option<Seq<char>>, kind: Option<Seq<char>>, children: Seq<int> },
    /// A nested scope: source id, ordered body-child identities, and
    /// ordered result-child identities (split out of the body).
    Region { id: Seq<char>, body: Seq<int>, results: Seq<int> },
    /// A directed dependency between two ports: a synthesized identity and
    /// the resolved endpoint term identities.
    Edge { ident: u64, source: int, target: int },
    /// Port placeholders at region and node boundaries: source id only.
    Input { id: Seq<char> },
    Output { id: Seq<char> },
    ResultPort { id: Seq<char> },
    Argument { id: Seq<char> },
}

/// A term of the lowered representation. Children are identities into the
/// owning store, never ownership links, so graph-shaped cross references
/// (edges) can point anywhere in the already-built store.
#[derive(Debug, PartialEq, Eq)]
pub enum RVSDG {
    Graph { children: Vec<TermId> },
    Node { id: String, name: Option<String>, kind: Option<String>, children: Vec<TermId> },
    Region { id: String, body: Vec<TermId>, results: Vec<TermId> },
    Edge { ident: u64, source: TermId, target: TermId },
    Input { id: String },
    Output { id: String },
    ResultPort { id: String },
    Argument { id: String },
}

/// The sequence of child identities, as mathematical integers.
pub open spec fn ids_view(s: Seq<TermId>) -> Seq<int> {
    s.map_values(|k: TermId| k as int)
}

/// The view of an optional string.
pub open spec fn opt_str_view(o: Option<String>) -> Option<Seq<char>> {
    match o {
        Some(s) => Some(s@),
        None => None,
    }
}

impl View for RVSDG {
    type V = TermV;

    open spec fn view(&self) -> TermV {
        match self {
            RVSDG::Graph { children } => TermV::Graph { children: ids_view(children@) },
            RVSDG::Node { id, name, kind, children } => TermV::Node {
                id: id@,
                name: opt_str_view(*name),
                kind: opt_str_view(*kind),
                children: ids_view(children@),
            },
            RVSDG::Region { id, body, results } => TermV::Region {
                id: id@,
                body: ids_view(body@),
                results: ids_view(results@),
            },
            RVSDG::Edge { ident, source, target } => TermV::Edge {
                ident: *ident,
                source: *source as int,
                target: *target as int,
            },
            RVSDG::Input { id } => TermV::Input { id: id@ },
            RVSDG::Output { id } => TermV::Output { id: id@ },
            RVSDG::ResultPort { id } => TermV::ResultPort { id: id@ },
            RVSDG::Argument { id } => TermV::Argument { id: id@ },
        }
    }
}

/// Structural equality as the rewriting engine sees it: the same variant
/// plus an equal intrinsic identity. It never descends into children, and a
/// graph, having no intrinsic identity, matches nothing (not even another
/// graph).
pub open spec fn spec_matches(a: TermV, b: TermV) -> bool {
    match (a, b) {
        (TermV::Node { id: x, .. }, TermV::Node { id: y, .. }) => x == y,
        (TermV::Region { id: x, .. }, TermV::Region { id: y, .. }) => x == y,
        (TermV::Edge { ident: x, .. }, TermV::Edge { ident: y, .. }) => x == y,
        (TermV::Input { id: x }, TermV::Input { id: y }) => x == y,
        (TermV::Output { id: x }, TermV::Output { id: y }) => x == y,
        (TermV::ResultPort { id: x }, TermV::ResultPort { id: y }) => x == y,
        (TermV::Argument { id: x }, TermV::Argument { id: y }) => x == y,
        _ => false,
    }
}

/// The children a term exposes for rewriting: a graph's top-level sequence
/// and a region's body sequence, and nothing else. A node's body, a
/// region's result list and an edge's endpoints are reached by identity
/// lookup, not by generic traversal.
pub open spec fn spec_children(t: TermV) -> Seq<int> {
    match t {
        TermV::Graph { children } => children,
        TermV::Region { body, .. } => body,
        _ => Seq::empty(),
    }
}

/// Copies a child-identity list.
pub(crate) fn copy_ids(v: &Vec<TermId>) -> (r: Vec<TermId>)
    ensures
        r@ == v@,
{
    let mut r: Vec<TermId> = Vec::new();
    let mut i: usize = 0;
    while i < v.len()
        invariant
            i <= v@.len(),
            r@ == v@.take(i as int),
        decreases v@.len() - i,
    {
        r.push(v[i]);
        proof {
            assert(v@.take(i as int + 1) =~= v@.take(i as int).push(v@[i as int]));
        }
        i = i + 1;
    }
    proof {
        assert(v@.take(v@.len() as int) =~= v@);
    }
    r
}

impl RVSDG {
    /// Shallow structural match, exactly `spec_matches` on the views.
    pub fn matches(&self, other: &RVSDG) -> (r: bool)
        ensures
            r == spec_matches(self@, other@),
    {
        match (self, other) {
            (RVSDG::Node { id: x, .. }, RVSDG::Node { id: y, .. }) => x.eq(y),
            (RVSDG::Region { id: x, .. }, RVSDG::Region { id: y, .. }) => x.eq(y),
            (RVSDG::Edge { ident: x, .. }, RVSDG::Edge { ident: y, .. }) => *x == *y,
            (RVSDG::Input { id: x }, RVSDG::Input { id: y }) => x.eq(y),
            (RVSDG::Output { id: x }, RVSDG::Output { id: y }) => x.eq(y),
            (RVSDG::ResultPort { id: x }, RVSDG::ResultPort { id: y }) => x.eq(y),
            (RVSDG::Argument { id: x }, RVSDG::Argument { id: y }) => x.eq(y),
            _ => false,
        }
    }

    /// The rewrite-reachable children of this term, in order.
    pub fn children(&self) -> (r: Vec<TermId>)
        ensures
            ids_view(r@) == spec_children(self@),
    {
        match self {
            RVSDG::Graph { children } => copy_ids(children),
            RVSDG::Region { body, .. } => copy_ids(body),
            _ => {
                let r: Vec<TermId> = Vec::new();
                proof {
                    assert(ids_view(r@) =~= Seq::<int>::empty());
                }
                r
            },
        }
    }

    /// True of the terms that expose rewrite-reachable children.
    pub fn has_children_slot(&self) -> (r: bool)
        ensures
            r == (self@ is Graph || self@ is Region),
    {
        match self {
            RVSDG::Graph { .. } => true,
            RVSDG::Region { .. } => true,
            _ => false,
        }
    }
}

} // verus!
