use vstd::prelude::*;
use vstd::pervasive::VecAdditionalExecFns;

use crate::term::{copy_ids, ids_view, spec_children, spec_matches, RVSDG, TermId, TermV};

verus! {

/// The view of an arena of terms.
pub open spec fn terms_view(s: Seq<RVSDG>) -> Seq<TermV> {
    s.map_values(|t: RVSDG| t@)
}

/// The least index of a term that `spec_matches` the probe, scanning from
/// `j`; the length of the arena when none does.
pub open spec fn first_match(terms: Seq<TermV>, t: TermV, j: int) -> int
    decreases terms.len() - j,
{
    if j < 0 || j >= terms.len() {
        terms.len() as int
    } else if spec_matches(terms[j], t) {
        j
    } else {
        first_match(terms, t, j + 1)
    }
}

/// The identity an interning of `t` yields: the least structurally matching
/// index if one exists, else the index of the appended slot.
pub open spec fn intern_index(terms: Seq<TermV>, t: TermV) -> int {
    first_match(terms, t, 0)
}

/// The arena after interning `t`: unchanged when a structurally matching
/// term is already present, else extended by `t`.
pub open spec fn intern_terms(terms: Seq<TermV>, t: TermV) -> Seq<TermV> {
    if intern_index(terms, t) < terms.len() {
        terms
    } else {
        terms.push(t)
    }
}

/// A term after a rewrite of one of its rewrite-reachable child slots.
pub open spec fn term_with_child(t: TermV, idx: int, c: int) -> TermV {
    match t {
        TermV::Graph { children } => TermV::Graph { children: children.update(idx, c) },
        TermV::Region { id, body, results } => TermV::Region {
            id,
            body: body.update(idx, c),
            results,
        },
        _ => t,
    }
}

/// The arena after the endpoints of the edge term at `t` are overwritten;
/// unchanged when `t` does not hold an edge.
pub open spec fn patch_edge(terms: Seq<TermV>, t: int, source: int, target: int) -> Seq<TermV> {
    if 0 <= t < terms.len() && terms[t] is Edge {
        terms.update(t, TermV::Edge { ident: terms[t]->Edge_ident, source, target })
    } else {
        terms
    }
}

/// The hash-consing store: an arena of terms indexed by `TermId`. Interning
/// a term whose variant and intrinsic identity are already present yields
/// the existing identity, so structurally identical terms are represented
/// once. Terms are immutable once created, except for their child-identity
/// slots, which rewriting overwrites in place.
#[derive(Debug, PartialEq, Eq)]
pub struct TermStore {
    terms: Vec<RVSDG>,
}

impl View for TermStore {
    type V = Seq<TermV>;

    closed spec fn view(&self) -> Seq<TermV> {
        terms_view(self.terms@)
    }
}

impl TermStore {
    /// An empty store.
    pub fn new() -> (r: TermStore)
        ensures
            r@ == Seq::<TermV>::empty(),
    {
        let r = TermStore { terms: Vec::new() };
        proof {
            assert(r@ =~= Seq::<TermV>::empty());
        }
        r
    }

    /// The number of terms in the store.
    pub fn len(&self) -> (r: usize)
        ensures
            r == self@.len(),
    {
        self.terms.len()
    }

    /// The term a valid identity denotes.
    pub fn get(&self, t: TermId) -> (r: &RVSDG)
        requires
            t < self@.len(),
        ensures
            r@ == self@[t as int],
    {
        &self.terms[t]
    }

    /// Interns a term: the returned identity denotes the least structurally
    /// matching term already present, or the freshly appended one.
    pub fn add(&mut self, t: RVSDG) -> (r: TermId)
        ensures
            r as int == intern_index(old(self)@, t@),
            final(self)@ == intern_terms(old(self)@, t@),
            (r as int) < final(self)@.len(),
    {
        let n = self.terms.len();
        let mut j: usize = 0;
        while j < n
            invariant
                n == self.terms@.len(),
                j <= n,
                self.terms@ == old(self).terms@,
                first_match(self@, t@, 0) == first_match(self@, t@, j as int),
            decreases n - j,
        {
            if self.terms[j].matches(&t) {
                return j;
            }
            j = j + 1;
        }
        self.terms.push(t);
        proof {
            assert(self@ =~= old(self)@.push(t@));
        }
        n
    }

    /// Overwrites one rewrite-reachable child slot of the term at `t`,
    /// preserving the term's identity.
    pub fn set_child(&mut self, t: TermId, idx: usize, c: TermId)
        requires
            t < old(self)@.len(),
            old(self)@[t as int] is Graph || old(self)@[t as int] is Region,
            idx < spec_children(old(self)@[t as int]).len(),
        ensures
            final(self)@ == old(self)@.update(
                t as int,
                term_with_child(old(self)@[t as int], idx as int, c as int),
            ),
    {
        let replacement = match &self.terms[t] {
            RVSDG::Graph { children } => {
                let mut ids = copy_ids(children);
                ids.set(idx, c);
                let r = RVSDG::Graph { children: ids };
                proof {
                    assert(ids_view(children@.update(idx as int, c)) =~= ids_view(
                        children@,
                    ).update(idx as int, c as int));
                }
                r
            },
            RVSDG::Region { id, body, results } => {
                let mut ids = copy_ids(body);
                ids.set(idx, c);
                let r = RVSDG::Region { id: id.clone(), body: ids, results: copy_ids(results) };
                proof {
                    assert(ids_view(body@.update(idx as int, c)) =~= ids_view(body@).update(
                        idx as int,
                        c as int,
                    ));
                }
                r
            },
            _ => {
                proof {
                    assert(false);
                }
                RVSDG::Graph { children: Vec::new() }
            },
        };
        self.terms.set(t, replacement);
        proof {
            assert(self@ =~= old(self)@.update(
                t as int,
                term_with_child(old(self)@[t as int], idx as int, c as int),
            ));
        }
    }

    /// Overwrites the endpoints of the edge term at `t`; leaves the store
    /// unchanged when `t` does not denote an edge.
    pub(crate) fn set_edge_endpoints(&mut self, t: TermId, source: TermId, target: TermId)
        ensures
            final(self)@ == patch_edge(old(self)@, t as int, source as int, target as int),
    {
        if t < self.terms.len() {
            let ident: u64 = match &self.terms[t] {
                RVSDG::Edge { ident, .. } => *ident,
                _ => {
                    return ;
                },
            };
            self.terms.set(t, RVSDG::Edge { ident, source, target });
            proof {
                assert(self@ =~= patch_edge(old(self)@, t as int, source as int, target as int));
            }
        }
    }
}

} // verus!
