use vstd::prelude::*;

use crate::errors::LowerError;
use crate::events::EventV;
use crate::lower::{
    body_part, ms_register, results_part, spec_lower, spec_resolve_pending, ModelState,
};
use crate::term::{spec_matches, TermV};

verus! {

/// Every textual id maps to exactly one term identity: a first registration
/// succeeds and binds the id to the given identity; a second registration
/// of the same id yields `DuplicateIdentifier` and nothing else.
pub proof fn lemma_unique_registration(m: ModelState, id: Seq<char>, t1: int, t2: int)
    requires
        !m.table.contains_key(id),
    ensures
        ms_register(m, id, t1) is Ok,
        ms_register(m, id, t1)->Ok_0.table[id] == t1,
        ms_register(ms_register(m, id, t1)->Ok_0, id, t2) == Err::<ModelState, LowerError>(
            LowerError::DuplicateIdentifier,
        ),
{
}

/// Edge resolution: when every deferred edge refers only to registered ids
/// — wherever in document order they were registered — resolution succeeds;
/// when any edge refers to an id the document never registered, resolution
/// fails with `UnknownIdentifier`.
pub proof fn lemma_edge_resolution(
    terms: Seq<TermV>,
    table: Map<Seq<char>, int>,
    pending: Seq<(int, Seq<char>, Seq<char>)>,
)
    ensures
        (forall|k: int|
            0 <= k < pending.len() ==> table.contains_key((#[trigger] pending[k]).1)
                && table.contains_key(pending[k].2)) ==> spec_resolve_pending(
            terms,
            table,
            pending,
        ) is Ok,
        (exists|k: int|
            0 <= k < pending.len() && !(table.contains_key((#[trigger] pending[k]).1)
                && table.contains_key(pending[k].2))) ==> spec_resolve_pending(
            terms,
            table,
            pending,
        ) == Err::<Seq<TermV>, LowerError>(LowerError::UnknownIdentifier),
    decreases pending.len(),
{
    if pending.len() > 0 {
        if table.contains_key(pending[0].1) && table.contains_key(pending[0].2) {
            let rest = pending.drop_first();
            lemma_edge_resolution(
                crate::store::patch_edge(terms, pending[0].0, table[pending[0].1], table[pending[0].2]),
                table,
                rest,
            );
            assert(forall|k: int| 0 <= k < rest.len() ==> #[trigger] rest[k] == pending[k + 1]);
            if exists|k: int|
                0 <= k < pending.len() && !(table.contains_key((#[trigger] pending[k]).1)
                    && table.contains_key(pending[k].2)) {
                let k = choose|k: int|
                    0 <= k < pending.len() && !(table.contains_key((#[trigger] pending[k]).1)
                        && table.contains_key(pending[k].2));
                assert(rest[k - 1] == pending[k]);
            }
        }
    }
}

/// Partition correctness: a region's interim child list is split exactly
/// into its non-result children and its result children, each side keeping
/// the relative order of the original list, and nothing is lost.
pub proof fn lemma_partition_complete(terms: Seq<TermV>, kids: Seq<int>)
    ensures
        body_part(terms, kids).len() + results_part(terms, kids).len() == kids.len(),
    decreases kids.len(),
{
    if kids.len() > 0 {
        lemma_partition_complete(terms, kids.drop_last());
    }
}

/// Deterministic lowering: what a lowering pass yields — the synthesized
/// edge identities included — is a function of the document's events alone,
/// so two separate runs over one document agree. `lower_events` pins its
/// result to `spec_lower`, which carries this to the executable level.
pub proof fn lemma_lowering_deterministic(a: Seq<EventV>, b: Seq<EventV>)
    requires
        a =~= b,
    ensures
        spec_lower(a) == spec_lower(b),
{
    assert(a == b);
}

/// The matching contract: two node terms match exactly when their intrinsic
/// ids agree, and a graph term, having no intrinsic identity, never matches
/// anything — not even another graph.
pub proof fn lemma_matching_contract(a: TermV, b: TermV)
    ensures
        (a matches TermV::Node { id: x, .. } ==> (b matches TermV::Node { id: y, .. } ==> (
        spec_matches(a, b) == (x == y)))),
        a is Graph ==> !spec_matches(a, b),
        b is Graph ==> !spec_matches(a, b),
{
}

} // verus!
