use vstd::prelude::*;

use crate::attrs::{attr_lookup, lookup_attr, pairs_view, spec_attrs, Attributes};
use crate::errors::LowerError;
use crate::events::{events_view, Event, EventV};
use crate::ident::{edge_ident, spec_edge_ident};
use crate::store::{intern_index, intern_terms, patch_edge, TermStore};
use crate::table::IdTable;
use crate::term::{ids_view, RVSDG, TermId, TermV};
use crate::text::str_eq;

verus! {

/// Spec-level state of one lowering pass: the arena contents, the identity
/// resolution table, and the edges whose endpoint references are still to
/// be resolved once every identity of the document is registered.
pub struct ModelState {
    pub terms: Seq<TermV>,
    pub table: Map<Seq<char>, int>,
    pub pending: Seq<(int, Seq<char>, Seq<char>)>,
}

/// The state a lowering pass starts from.
pub open spec fn empty_model() -> ModelState {
    ModelState { terms: Seq::empty(), table: Map::empty(), pending: Seq::empty() }
}

/// Interning a term: the arena after, and the identity it yields.
pub open spec fn ms_add(m: ModelState, t: TermV) -> (ModelState, int) {
    (
        ModelState { terms: intern_terms(m.terms, t), table: m.table, pending: m.pending },
        intern_index(m.terms, t),
    )
}

/// Registering a textual id: a duplicate is rejected and changes nothing.
pub open spec fn ms_register(m: ModelState, id: Seq<char>, t: int) -> Result<
    ModelState,
    LowerError,
> {
    if m.table.contains_key(id) {
        Err(LowerError::DuplicateIdentifier)
    } else {
        Ok(ModelState { terms: m.terms, table: m.table.insert(id, t), pending: m.pending })
    }
}

/// The port term a closing tag of the given kind constructs.
pub open spec fn port_term(tag: Seq<char>, id: Seq<char>) -> TermV {
    if tag == "input"@ {
        TermV::Input { id }
    } else if tag == "output"@ {
        TermV::Output { id }
    } else if tag == "result"@ {
        TermV::ResultPort { id }
    } else {
        TermV::Argument { id }
    }
}

/// True when `k` denotes a result port of the arena.
pub open spec fn is_result_tid(terms: Seq<TermV>, k: int) -> bool {
    0 <= k < terms.len() && terms[k] is ResultPort
}

/// The non-result children of a region's interim child list, in order.
pub open spec fn body_part(terms: Seq<TermV>, kids: Seq<int>) -> Seq<int>
    decreases kids.len(),
{
    if kids.len() == 0 {
        Seq::empty()
    } else if is_result_tid(terms, kids.last()) {
        body_part(terms, kids.drop_last())
    } else {
        body_part(terms, kids.drop_last()).push(kids.last())
    }
}

/// The result children of a region's interim child list, in order.
pub open spec fn results_part(terms: Seq<TermV>, kids: Seq<int>) -> Seq<int>
    decreases kids.len(),
{
    if kids.len() == 0 {
        Seq::empty()
    } else if is_result_tid(terms, kids.last()) {
        results_part(terms, kids.drop_last()).push(kids.last())
    } else {
        results_part(terms, kids.drop_last())
    }
}

/// What lowering one element (whose start event stands at `i`) yields: the
/// state after, the index past the element's matching close event, and the
/// identity of the constructed term.
pub open spec fn spec_elem(es: Seq<EventV>, i: int, m: ModelState) -> Result<
    (ModelState, int, int),
    LowerError,
>
    decreases es.len() - i, 0int,
{
    if i < 0 || i >= es.len() {
        Err(LowerError::MalformedInput)
    } else {
        match es[i] {
            EventV::Start { name, attrs } => {
                if name == "graph"@ {
                    spec_graph(es, i + 1, m)
                } else if name == "node"@ {
                    spec_node(es, i + 1, attrs, m)
                } else if name == "region"@ {
                    spec_region(es, i + 1, attrs, m)
                } else if name == "edge"@ {
                    spec_edge(es, i + 1, attrs, m)
                } else if name == "input"@ || name == "output"@ || name == "result"@ || name
                    == "argument"@ {
                    spec_atom(es, i + 1, name, attrs, m)
                } else {
                    Err(LowerError::MalformedInput)
                }
            },
            _ => Err(LowerError::MalformedInput),
        }
    }
}

/// Lowers child elements up to the close event of the enclosing `close`
/// element: the state after, the index past that close event, and the child
/// identities in encounter order.
pub open spec fn spec_body(es: Seq<EventV>, i: int, close: Seq<char>, m: ModelState) -> Result<
    (ModelState, int, Seq<int>),
    LowerError,
>
    decreases es.len() - i, 1int,
{
    if i < 0 || i >= es.len() {
        Err(LowerError::MalformedInput)
    } else {
        match es[i] {
            EventV::End { name } => {
                if name == close {
                    Ok((m, i + 1, Seq::empty()))
                } else {
                    Err(LowerError::MalformedInput)
                }
            },
            EventV::Skip => spec_body(es, i + 1, close, m),
            EventV::Start { .. } => match spec_elem(es, i, m) {
                Err(e) => Err(e),
                Ok((m2, j, t)) => {
                    if i < j <= es.len() {
                        match spec_body(es, j, close, m2) {
                            Err(e) => Err(e),
                            Ok((m3, k, rest)) => Ok((m3, k, seq![t] + rest)),
                        }
                    } else {
                        Err(LowerError::MalformedInput)
                    }
                },
            },
            EventV::Other => Err(LowerError::MalformedInput),
        }
    }
}

/// Lowers the body of the top-level graph container.
pub open spec fn spec_graph(es: Seq<EventV>, i: int, m: ModelState) -> Result<
    (ModelState, int, int),
    LowerError,
>
    decreases es.len() - i, 2int,
{
    match spec_body(es, i, "graph"@, m) {
        Err(e) => Err(e),
        Ok((m2, j, kids)) => {
            let added = ms_add(m2, TermV::Graph { children: kids });
            Ok((added.0, j, added.1))
        },
    }
}

/// Lowers a node element: children first, then the interned node term,
/// registered under its textual id.
pub open spec fn spec_node(
    es: Seq<EventV>,
    i: int,
    attrs: Seq<(Seq<char>, Seq<char>)>,
    m: ModelState,
) -> Result<(ModelState, int, int), LowerError>
    decreases es.len() - i, 2int,
{
    match spec_attrs(attrs) {
        Err(e) => Err(e),
        Ok(a) => match spec_body(es, i, "node"@, m) {
            Err(e) => Err(e),
            Ok((m2, j, kids)) => {
                let added = ms_add(
                    m2,
                    TermV::Node { id: a.id, name: a.name, kind: a.kind, children: kids },
                );
                match ms_register(added.0, a.id, added.1) {
                    Err(e) => Err(e),
                    Ok(m3) => Ok((m3, j, added.1)),
                }
            },
        },
    }
}

/// Lowers a region element: children first, the interim child list split
/// into body and results (relative order kept), then the interned region
/// term, registered under its textual id.
pub open spec fn spec_region(
    es: Seq<EventV>,
    i: int,
    attrs: Seq<(Seq<char>, Seq<char>)>,
    m: ModelState,
) -> Result<(ModelState, int, int), LowerError>
    decreases es.len() - i, 2int,
{
    match spec_attrs(attrs) {
        Err(e) => Err(e),
        Ok(a) => match spec_body(es, i, "region"@, m) {
            Err(e) => Err(e),
            Ok((m2, j, kids)) => {
                let added = ms_add(
                    m2,
                    TermV::Region {
                        id: a.id,
                        body: body_part(m2.terms, kids),
                        results: results_part(m2.terms, kids),
                    },
                );
                match ms_register(added.0, a.id, added.1) {
                    Err(e) => Err(e),
                    Ok(m3) => Ok((m3, j, added.1)),
                }
            },
        },
    }
}

/// Lowers an edge element, which must be empty. Its identity is synthesized
/// from the concatenation of the endpoint textual ids; the endpoint
/// references themselves are deferred until the whole document is walked,
/// so an edge may refer to an id registered later in document order.
pub open spec fn spec_edge(
    es: Seq<EventV>,
    i: int,
    attrs: Seq<(Seq<char>, Seq<char>)>,
    m: ModelState,
) -> Result<(ModelState, int, int), LowerError>
    decreases es.len() - i, 2int,
{
    if i < 0 || i >= es.len() {
        Err(LowerError::MalformedInput)
    } else {
        match es[i] {
            EventV::Skip => spec_edge(es, i + 1, attrs, m),
            EventV::End { name } => {
                if name == "edge"@ {
                    match (attr_lookup(attrs, "source"@), attr_lookup(attrs, "target"@)) {
                        (Some(src), Some(tgt)) => {
                            let probe = TermV::Edge {
                                ident: spec_edge_ident(src, tgt),
                                source: m.terms.len() as int,
                                target: m.terms.len() as int,
                            };
                            let added = ms_add(m, probe);
                            let m2 = ModelState {
                                terms: added.0.terms,
                                table: added.0.table,
                                pending: added.0.pending.push((added.1, src, tgt)),
                            };
                            Ok((m2, i + 1, added.1))
                        },
                        _ => Err(LowerError::MalformedInput),
                    }
                } else {
                    Err(LowerError::MalformedInput)
                }
            },
            _ => Err(LowerError::MalformedInput),
        }
    }
}

/// Lowers a port element (input, output, result, argument), which must be
/// empty: the interned port term, registered under its textual id.
pub open spec fn spec_atom(
    es: Seq<EventV>,
    i: int,
    tag: Seq<char>,
    attrs: Seq<(Seq<char>, Seq<char>)>,
    m: ModelState,
) -> Result<(ModelState, int, int), LowerError>
    decreases es.len() - i, 2int,
{
    if i < 0 || i >= es.len() {
        Err(LowerError::MalformedInput)
    } else {
        match es[i] {
            EventV::Skip => spec_atom(es, i + 1, tag, attrs, m),
            EventV::End { name } => {
                if name == tag {
                    match spec_attrs(attrs) {
                        Err(e) => Err(e),
                        Ok(a) => {
                            let added = ms_add(m, port_term(tag, a.id));
                            match ms_register(added.0, a.id, added.1) {
                                Err(e) => Err(e),
                                Ok(m2) => Ok((m2, i + 1, added.1)),
                            }
                        },
                    }
                } else {
                    Err(LowerError::MalformedInput)
                }
            },
            _ => Err(LowerError::MalformedInput),
        }
    }
}

/// Resolves the deferred edge endpoint references against the completed
/// table, in the order the edges were encountered. A reference to an id the
/// document never registered is fatal.
pub open spec fn spec_resolve_pending(
    terms: Seq<TermV>,
    table: Map<Seq<char>, int>,
    pending: Seq<(int, Seq<char>, Seq<char>)>,
) -> Result<Seq<TermV>, LowerError>
    decreases pending.len(),
{
    if pending.len() == 0 {
        Ok(terms)
    } else if !table.contains_key(pending[0].1) || !table.contains_key(pending[0].2) {
        Err(LowerError::UnknownIdentifier)
    } else {
        spec_resolve_pending(
            patch_edge(terms, pending[0].0, table[pending[0].1], table[pending[0].2]),
            table,
            pending.drop_first(),
        )
    }
}

/// The first index at or past `i` that does not hold a skippable event.
pub open spec fn spec_skip(es: Seq<EventV>, i: int) -> int
    decreases es.len() - i,
{
    if 0 <= i < es.len() && (es[i] is Skip) {
        spec_skip(es, i + 1)
    } else {
        i
    }
}

/// What lowering a whole event sequence yields: the final arena and the
/// identity of the single top-level graph term. The root element must be a
/// graph; whitespace-only and document-framing events around it are
/// skipped; anything further is malformed.
pub open spec fn spec_lower(es: Seq<EventV>) -> Result<(Seq<TermV>, int), LowerError> {
    let i = spec_skip(es, 0);
    if i >= es.len() {
        Err(LowerError::MalformedInput)
    } else {
        match es[i] {
            EventV::Start { name, attrs } => {
                if name == "graph"@ {
                    match spec_graph(es, i + 1, empty_model()) {
                        Err(e) => Err(e),
                        Ok((m, j, root)) => {
                            if spec_skip(es, j) == es.len() {
                                match spec_resolve_pending(m.terms, m.table, m.pending) {
                                    Err(e) => Err(e),
                                    Ok(terms) => Ok((terms, root)),
                                }
                            } else {
                                Err(LowerError::MalformedInput)
                            }
                        },
                    }
                } else {
                    Err(LowerError::MalformedInput)
                }
            },
            _ => Err(LowerError::MalformedInput),
        }
    }
}

/// The exclusively owned working state of one lowering pass.
struct Builder {
    store: TermStore,
    table: IdTable,
    pending: Vec<(TermId, String, String)>,
}

/// The view of the deferred-edge list.
pub open spec fn pending_view(s: Seq<(TermId, String, String)>) -> Seq<
    (int, Seq<char>, Seq<char>),
> {
    s.map_values(|p: (TermId, String, String)| (p.0 as int, p.1@, p.2@))
}

impl View for Builder {
    type V = ModelState;

    closed spec fn view(&self) -> ModelState {
        ModelState {
            terms: self.store@,
            table: self.table@,
            pending: pending_view(self.pending@),
        }
    }
}

/// True of the events that the walk skips without altering its state.
fn is_skip(e: &Event) -> (r: bool)
    ensures
        r == (e@ is Skip),
{
    match e {
        Event::Skip => true,
        _ => false,
    }
}

/// The first index at or past `i` that does not hold a skippable event.
fn skip_events(events: &Vec<Event>, i: usize) -> (r: usize)
    requires
        i <= events@.len(),
    ensures
        r as int == spec_skip(events_view(events@), i as int),
        i <= r <= events@.len(),
    decreases events@.len() - i,
{
    if i < events.len() {
        if is_skip(&events[i]) {
            return skip_events(events, i + 1);
        }
    }
    i
}

fn parse_elem(events: &Vec<Event>, i: usize, b: &mut Builder) -> (r: Result<
    (TermId, usize),
    LowerError,
>)
    ensures
        ({
            let s = spec_elem(events_view(events@), i as int, old(b)@);
            match r {
                Ok((t, j)) => s == Ok::<(ModelState, int, int), LowerError>(
                    (final(b)@, j as int, t as int),
                ) && i < j <= events@.len(),
                Err(e) => s == Err::<(ModelState, int, int), LowerError>(e),
            }
        }),
    decreases events@.len() - i, 0int,
{
    if i >= events.len() {
        return Err(LowerError::MalformedInput);
    }
    proof {
        assert(events_view(events@)[i as int] == events@[i as int]@);
    }
    match &events[i] {
        Event::Start { name, attrs } => {
            if str_eq(name.as_str(), "graph") {
                parse_graph(events, i + 1, b)
            } else if str_eq(name.as_str(), "node") {
                parse_node(events, i + 1, attrs, b)
            } else if str_eq(name.as_str(), "region") {
                parse_region(events, i + 1, attrs, b)
            } else if str_eq(name.as_str(), "edge") {
                parse_edge(events, i + 1, attrs, b)
            } else if str_eq(name.as_str(), "input") || str_eq(name.as_str(), "output") || str_eq(
                name.as_str(),
                "result",
            ) || str_eq(name.as_str(), "argument") {
                parse_atom(events, i + 1, name.as_str(), attrs, b)
            } else {
                Err(LowerError::MalformedInput)
            }
        },
        _ => Err(LowerError::MalformedInput),
    }
}

fn parse_body(events: &Vec<Event>, i: usize, close: &str, b: &mut Builder) -> (r: Result<
    (Vec<TermId>, usize),
    LowerError,
>)
    ensures
        ({
            let s = spec_body(events_view(events@), i as int, close@, old(b)@);
            match r {
                Ok((kids, j)) => s == Ok::<(ModelState, int, Seq<int>), LowerError>(
                    (final(b)@, j as int, ids_view(kids@)),
                ) && i < j <= events@.len(),
                Err(e) => s == Err::<(ModelState, int, Seq<int>), LowerError>(e),
            }
        }),
    decreases events@.len() - i, 1int,
{
    if i >= events.len() {
        return Err(LowerError::MalformedInput);
    }
    proof {
        assert(events_view(events@)[i as int] == events@[i as int]@);
    }
    match &events[i] {
        Event::End { name } => {
            if str_eq(name.as_str(), close) {
                let kids: Vec<TermId> = Vec::new();
                proof {
                    assert(ids_view(kids@) =~= Seq::<int>::empty());
                }
                Ok((kids, i + 1))
            } else {
                Err(LowerError::MalformedInput)
            }
        },
        Event::Skip => parse_body(events, i + 1, close, b),
        Event::Start { .. } => match parse_elem(events, i, b) {
            Err(e) => Err(e),
            Ok((t, j)) => match parse_body(events, j, close, b) {
                Err(e) => Err(e),
                Ok((rest, k)) => {
                    let mut kids: Vec<TermId> = Vec::new();
                    kids.push(t);
                    let mut rest = rest;
                    let ghost rest0 = rest@;
                    kids.append(&mut rest);
                    proof {
                        assert(ids_view(kids@) =~= seq![t as int] + ids_view(rest0));
                    }
                    Ok((kids, k))
                },
            },
        },
        Event::Other => Err(LowerError::MalformedInput),
    }
}

fn parse_graph(events: &Vec<Event>, i: usize, b: &mut Builder) -> (r: Result<
    (TermId, usize),
    LowerError,
>)
    ensures
        ({
            let s = spec_graph(events_view(events@), i as int, old(b)@);
            match r {
                Ok((t, j)) => s == Ok::<(ModelState, int, int), LowerError>(
                    (final(b)@, j as int, t as int),
                ) && i < j <= events@.len(),
                Err(e) => s == Err::<(ModelState, int, int), LowerError>(e),
            }
        }),
    decreases events@.len() - i, 2int,
{
    let (kids, j) = match parse_body(events, i, "graph", b) {
        Ok(x) => x,
        Err(e) => {
            return Err(e);
        },
    };
    let tid = b.store.add(RVSDG::Graph { children: kids });
    Ok((tid, j))
}

fn parse_node(
    events: &Vec<Event>,
    i: usize,
    attrs: &Vec<(String, String)>,
    b: &mut Builder,
) -> (r: Result<(TermId, usize), LowerError>)
    ensures
        ({
            let s = spec_node(events_view(events@), i as int, pairs_view(attrs@), old(b)@);
            match r {
                Ok((t, j)) => s == Ok::<(ModelState, int, int), LowerError>(
                    (final(b)@, j as int, t as int),
                ) && i < j <= events@.len(),
                Err(e) => s == Err::<(ModelState, int, int), LowerError>(e),
            }
        }),
    decreases events@.len() - i, 2int,
{
    let a = match Attributes::from_pairs(attrs) {
        Ok(a) => a,
        Err(e) => {
            return Err(e);
        },
    };
    let (kids, j) = match parse_body(events, i, "node", b) {
        Ok(x) => x,
        Err(e) => {
            return Err(e);
        },
    };
    let tid = b.store.add(
        RVSDG::Node { id: a.id.clone(), name: a.name, kind: a.kind, children: kids },
    );
    match b.table.register(a.id, tid) {
        Ok(_) => Ok((tid, j)),
        Err(e) => Err(e),
    }
}

fn parse_region(
    events: &Vec<Event>,
    i: usize,
    attrs: &Vec<(String, String)>,
    b: &mut Builder,
) -> (r: Result<(TermId, usize), LowerError>)
    ensures
        ({
            let s = spec_region(events_view(events@), i as int, pairs_view(attrs@), old(b)@);
            match r {
                Ok((t, j)) => s == Ok::<(ModelState, int, int), LowerError>(
                    (final(b)@, j as int, t as int),
                ) && i < j <= events@.len(),
                Err(e) => s == Err::<(ModelState, int, int), LowerError>(e),
            }
        }),
    decreases events@.len() - i, 2int,
{
    let a = match Attributes::from_pairs(attrs) {
        Ok(a) => a,
        Err(e) => {
            return Err(e);
        },
    };
    let (kids, j) = match parse_body(events, i, "region", b) {
        Ok(x) => x,
        Err(e) => {
            return Err(e);
        },
    };
    let split = partition_results(&b.store, &kids);
    let tid = b.store.add(RVSDG::Region { id: a.id.clone(), body: split.0, results: split.1 });
    match b.table.register(a.id, tid) {
        Ok(_) => Ok((tid, j)),
        Err(e) => Err(e),
    }
}

fn parse_edge(
    events: &Vec<Event>,
    i: usize,
    attrs: &Vec<(String, String)>,
    b: &mut Builder,
) -> (r: Result<(TermId, usize), LowerError>)
    ensures
        ({
            let s = spec_edge(events_view(events@), i as int, pairs_view(attrs@), old(b)@);
            match r {
                Ok((t, j)) => s == Ok::<(ModelState, int, int), LowerError>(
                    (final(b)@, j as int, t as int),
                ) && i < j <= events@.len(),
                Err(e) => s == Err::<(ModelState, int, int), LowerError>(e),
            }
        }),
    decreases events@.len() - i, 2int,
{
    if i >= events.len() {
        return Err(LowerError::MalformedInput);
    }
    proof {
        assert(events_view(events@)[i as int] == events@[i as int]@);
    }
    match &events[i] {
        Event::Skip => parse_edge(events, i + 1, attrs, b),
        Event::End { name } => {
            if str_eq(name.as_str(), "edge") {
                let src = match lookup_attr(attrs, "source") {
                    Some(v) => v,
                    None => {
                        return Err(LowerError::MalformedInput);
                    },
                };
                let tgt = match lookup_attr(attrs, "target") {
                    Some(v) => v,
                    None => {
                        return Err(LowerError::MalformedInput);
                    },
                };
                let ident = edge_ident(src.as_str(), tgt.as_str());
                let ghost sv = src@;
                let ghost tv = tgt@;
                let n = b.store.len();
                let tid = b.store.add(RVSDG::Edge { ident, source: n, target: n });
                b.pending.push((tid, src, tgt));
                proof {
                    assert(pending_view(b.pending@) =~= pending_view(old(b).pending@).push(
                        (tid as int, sv, tv),
                    ));
                }
                Ok((tid, i + 1))
            } else {
                Err(LowerError::MalformedInput)
            }
        },
        _ => Err(LowerError::MalformedInput),
    }
}

fn parse_atom(
    events: &Vec<Event>,
    i: usize,
    tag: &str,
    attrs: &Vec<(String, String)>,
    b: &mut Builder,
) -> (r: Result<(TermId, usize), LowerError>)
    ensures
        ({
            let s = spec_atom(events_view(events@), i as int, tag@, pairs_view(attrs@), old(b)@);
            match r {
                Ok((t, j)) => s == Ok::<(ModelState, int, int), LowerError>(
                    (final(b)@, j as int, t as int),
                ) && i < j <= events@.len(),
                Err(e) => s == Err::<(ModelState, int, int), LowerError>(e),
            }
        }),
    decreases events@.len() - i, 2int,
{
    if i >= events.len() {
        return Err(LowerError::MalformedInput);
    }
    proof {
        assert(events_view(events@)[i as int] == events@[i as int]@);
    }
    match &events[i] {
        Event::Skip => parse_atom(events, i + 1, tag, attrs, b),
        Event::End { name } => {
            if str_eq(name.as_str(), tag) {
                let a = match Attributes::from_pairs(attrs) {
                    Ok(a) => a,
                    Err(e) => {
                        return Err(e);
                    },
                };
                let term = if str_eq(tag, "input") {
                    RVSDG::Input { id: a.id.clone() }
                } else if str_eq(tag, "output") {
                    RVSDG::Output { id: a.id.clone() }
                } else if str_eq(tag, "result") {
                    RVSDG::ResultPort { id: a.id.clone() }
                } else {
                    RVSDG::Argument { id: a.id.clone() }
                };
                let tid = b.store.add(term);
                match b.table.register(a.id, tid) {
                    Ok(_) => Ok((tid, i + 1)),
                    Err(e) => Err(e),
                }
            } else {
                Err(LowerError::MalformedInput)
            }
        },
        _ => Err(LowerError::MalformedInput),
    }
}

/// Splits a region's interim child list into its non-result body and its
/// results, preserving relative order within each side.
pub fn partition_results(store: &TermStore, kids: &Vec<TermId>) -> (r: (Vec<TermId>, Vec<TermId>))
    ensures
        ids_view(r.0@) == body_part(store@, ids_view(kids@)),
        ids_view(r.1@) == results_part(store@, ids_view(kids@)),
{
    let mut body: Vec<TermId> = Vec::new();
    let mut results: Vec<TermId> = Vec::new();
    let mut j: usize = 0;
    proof {
        assert(ids_view(kids@).take(0) =~= Seq::<int>::empty());
        assert(ids_view(body@) =~= body_part(store@, ids_view(kids@).take(0)));
        assert(ids_view(results@) =~= results_part(store@, ids_view(kids@).take(0)));
    }
    while j < kids.len()
        invariant
            j <= kids@.len(),
            ids_view(body@) == body_part(store@, ids_view(kids@).take(j as int)),
            ids_view(results@) == results_part(store@, ids_view(kids@).take(j as int)),
        decreases kids@.len() - j,
    {
        let k = kids[j];
        let is_res: bool = if k < store.len() {
            match store.get(k) {
                RVSDG::ResultPort { .. } => true,
                _ => false,
            }
        } else {
            false
        };
        let ghost bv = body@;
        let ghost rv = results@;
        if is_res {
            results.push(k);
        } else {
            body.push(k);
        }
        proof {
            assert(is_res == is_result_tid(store@, k as int));
            assert(ids_view(kids@).take(j as int + 1).drop_last() =~= ids_view(kids@).take(
                j as int,
            ));
            assert(ids_view(kids@).take(j as int + 1).last() == k as int);
            assert(ids_view(bv.push(k)) =~= ids_view(bv).push(k as int));
            assert(ids_view(rv.push(k)) =~= ids_view(rv).push(k as int));
        }
        j = j + 1;
    }
    proof {
        assert(ids_view(kids@).take(kids@.len() as int) =~= ids_view(kids@));
    }
    (body, results)
}

/// Resolves every deferred edge of the pass against the completed table.
fn resolve_pending(
    store: &mut TermStore,
    table: &IdTable,
    pending: &Vec<(TermId, String, String)>,
) -> (r: Result<(), LowerError>)
    ensures
        ({
            let s = spec_resolve_pending(old(store)@, table@, pending_view(pending@));
            match r {
                Ok(u) => s == Ok::<Seq<TermV>, LowerError>(final(store)@),
                Err(e) => s == Err::<Seq<TermV>, LowerError>(e),
            }
        }),
{
    let n = pending.len();
    let mut j: usize = 0;
    proof {
        assert(pending_view(pending@).skip(0) =~= pending_view(pending@));
    }
    while j < n
        invariant
            n == pending@.len(),
            j <= n,
            spec_resolve_pending(old(store)@, table@, pending_view(pending@))
                == spec_resolve_pending(store@, table@, pending_view(pending@).skip(j as int)),
        decreases n - j,
    {
        proof {
            assert(pending_view(pending@).skip(j as int).drop_first() =~= pending_view(
                pending@,
            ).skip(j as int + 1));
            assert(pending_view(pending@).skip(j as int)[0] == pending_view(pending@)[j as int]);
        }
        let src_id = match table.resolve(pending[j].1.as_str()) {
            Ok(t) => t,
            Err(e) => {
                return Err(e);
            },
        };
        let tgt_id = match table.resolve(pending[j].2.as_str()) {
            Ok(t) => t,
            Err(e) => {
                return Err(e);
            },
        };
        store.set_edge_endpoints(pending[j].0, src_id, tgt_id);
        j = j + 1;
    }
    Ok(())
}

/// Lowers a whole structural event sequence into a hash-consed term store
/// and the identity of its single top-level graph term, exactly as
/// `spec_lower` states: the root element must be a graph, every element's
/// textual id is registered exactly once, and every edge's endpoint
/// references are resolved against the completed table.
pub fn lower_events(events: &Vec<Event>) -> (r: Result<(TermStore, TermId), LowerError>)
    ensures
        ({
            let s = spec_lower(events_view(events@));
            match r {
                Ok(out) => s == Ok::<(Seq<TermV>, int), LowerError>((out.0@, out.1 as int)),
                Err(e) => s == Err::<(Seq<TermV>, int), LowerError>(e),
            }
        }),
{
    let i = skip_events(events, 0);
    if i >= events.len() {
        return Err(LowerError::MalformedInput);
    }
    proof {
        assert(events_view(events@)[i as int] == events@[i as int]@);
    }
    match &events[i] {
        Event::Start { name, attrs } => {
            if !str_eq(name.as_str(), "graph") {
                return Err(LowerError::MalformedInput);
            }
            let mut b = Builder {
                store: TermStore::new(),
                table: IdTable::new(),
                pending: Vec::new(),
            };
            proof {
                assert(pending_view(b.pending@) =~= Seq::<(int, Seq<char>, Seq<char>)>::empty());
                assert(b@ == empty_model());
            }
            let (root, j) = match parse_graph(events, i + 1, &mut b) {
                Ok(x) => x,
                Err(e) => {
                    return Err(e);
                },
            };
            let k = skip_events(events, j);
            if k < events.len() {
                return Err(LowerError::MalformedInput);
            }
            let Builder { mut store, table, pending } = b;
            match resolve_pending(&mut store, &table, &pending) {
                Ok(_) => Ok((store, root)),
                Err(e) => Err(e),
            }
        },
        _ => Err(LowerError::MalformedInput),
    }
}

} // verus!
