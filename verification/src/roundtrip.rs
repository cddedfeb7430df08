use vstd::prelude::*;

use crate::attrs::spec_attrs;
use crate::events::EventV;
use crate::lower::{
    body_part, empty_model, port_term, results_part, spec_atom, spec_body, spec_edge, spec_elem,
    spec_graph, spec_lower, spec_node, spec_region, spec_resolve_pending, spec_skip, ModelState,
};
use crate::store::{first_match, patch_edge};
use crate::term::{spec_matches, TermV};

verus! {

/// The structural shape of an event sequence: skippable events dropped and
/// attributes erased, leaving the element names and their nesting.
pub open spec fn doc_shape(es: Seq<EventV>) -> Seq<EventV>
    decreases es.len(),
{
    if es.len() == 0 {
        Seq::empty()
    } else {
        let rest = doc_shape(es.drop_first());
        match es[0] {
            EventV::Start { name, .. } => seq![start_tag(name)] + rest,
            EventV::End { name } => seq![end_tag(name)] + rest,
            EventV::Skip => rest,
            EventV::Other => seq![EventV::Other] + rest,
        }
    }
}

/// A bare element-open event.
pub open spec fn start_tag(name: Seq<char>) -> EventV {
    EventV::Start { name, attrs: Seq::empty() }
}

/// A bare element-close event.
pub open spec fn end_tag(name: Seq<char>) -> EventV {
    EventV::End { name }
}

/// The element name a term re-serializes under.
pub open spec fn term_tag(t: TermV) -> Seq<char> {
    match t {
        TermV::Graph { .. } => "graph"@,
        TermV::Node { .. } => "node"@,
        TermV::Region { .. } => "region"@,
        TermV::Edge { .. } => "edge"@,
        TermV::Input { .. } => "input"@,
        TermV::Output { .. } => "output"@,
        TermV::ResultPort { .. } => "result"@,
        TermV::Argument { .. } => "argument"@,
    }
}

/// The structural shape the term at `t` re-serializes to: its element name,
/// its child terms in their stored order (a region's body before its
/// results), and the matching close event. Edges and ports are leaves;
/// synthesized edge identities and endpoint references do not appear.
#[verifier::opaque]
pub open spec fn render_term(terms: Seq<TermV>, t: int) -> Seq<EventV>
    decreases t, 1int, 0int,
{
    if 0 <= t < terms.len() {
        match terms[t] {
            TermV::Graph { children } => seq![start_tag("graph"@)] + render_list(
                terms,
                children,
                t,
            ) + seq![end_tag("graph"@)],
            TermV::Node { children, .. } => seq![start_tag("node"@)] + render_list(
                terms,
                children,
                t,
            ) + seq![end_tag("node"@)],
            TermV::Region { body, results, .. } => seq![start_tag("region"@)] + render_list(
                terms,
                body,
                t,
            ) + render_list(terms, results, t) + seq![end_tag("region"@)],
            _ => seq![start_tag(term_tag(terms[t])), end_tag(term_tag(terms[t]))],
        }
    } else {
        Seq::empty()
    }
}

/// The shapes of the terms a child list denotes, concatenated. Lowering
/// interns children before their parent, so every child identity lies below
/// its parent's; an identity at or above `bound` renders nothing.
#[verifier::opaque]
pub open spec fn render_list(terms: Seq<TermV>, kids: Seq<int>, bound: int) -> Seq<EventV>
    decreases bound, 0int, kids.len(),
{
    if kids.len() == 0 {
        Seq::empty()
    } else {
        (if 0 <= kids[0] < bound {
            render_term(terms, kids[0])
        } else {
            Seq::empty()
        }) + render_list(terms, kids.drop_first(), bound)
    }
}

/// `b` extends `a`: the terms of `a` stand unchanged at the start of `b`.
pub open spec fn terms_extend(a: Seq<TermV>, b: Seq<TermV>) -> bool {
    a.len() <= b.len() && forall|k: int| 0 <= k < a.len() ==> #[trigger] b[k] == a[k]
}

/// The intrinsic textual id of a term, for the variants that carry one.
pub open spec fn term_key(t: TermV) -> Option<Seq<char>> {
    match t {
        TermV::Node { id, .. } => Some(id),
        TermV::Region { id, .. } => Some(id),
        TermV::Input { id } => Some(id),
        TermV::Output { id } => Some(id),
        TermV::ResultPort { id } => Some(id),
        TermV::Argument { id } => Some(id),
        _ => None,
    }
}

/// The working-state invariant of a lowering pass: every term carrying a
/// textual id stands in the table, so an id the table does not know always
/// interns a fresh term.
pub open spec fn wf_model(m: ModelState) -> bool {
    forall|k: int|
        0 <= k < m.terms.len() ==> (term_key(#[trigger] m.terms[k]) matches Some(id)
            ==> m.table.contains_key(id))
}

/// `b` is `a` with some edge terms' payloads overwritten: what edge-endpoint
/// resolution does to an arena.
pub open spec fn edges_patched(a: Seq<TermV>, b: Seq<TermV>) -> bool {
    b.len() == a.len() && forall|k: int|
        0 <= k < a.len() ==> (#[trigger] b[k] == a[k] || (a[k] is Edge && b[k] is Edge))
}

proof fn lemma_doc_shape_add(a: Seq<EventV>, b: Seq<EventV>)
    ensures
        doc_shape(a + b) == doc_shape(a) + doc_shape(b),
    decreases a.len(),
{
    if a.len() == 0 {
        assert(a + b =~= b);
        assert(doc_shape(a) + doc_shape(b) =~= doc_shape(b));
    } else {
        assert((a + b).drop_first() =~= a.drop_first() + b);
        assert((a + b)[0] == a[0]);
        lemma_doc_shape_add(a.drop_first(), b);
        assert(doc_shape(a + b) =~= doc_shape(a) + doc_shape(b));
    }
}

proof fn lemma_doc_shape_split(es: Seq<EventV>, i: int, j: int, k: int)
    requires
        0 <= i <= j <= k <= es.len(),
    ensures
        doc_shape(es.subrange(i, k)) == doc_shape(es.subrange(i, j)) + doc_shape(
            es.subrange(j, k),
        ),
{
    assert(es.subrange(i, k) =~= es.subrange(i, j) + es.subrange(j, k));
    lemma_doc_shape_add(es.subrange(i, j), es.subrange(j, k));
}

proof fn lemma_doc_shape_one(e: EventV)
    ensures
        doc_shape(seq![e]) == match e {
            EventV::Start { name, .. } => seq![start_tag(name)],
            EventV::End { name } => seq![end_tag(name)],
            EventV::Skip => Seq::<EventV>::empty(),
            EventV::Other => seq![EventV::Other],
        },
{
    assert(seq![e].drop_first() =~= Seq::<EventV>::empty());
    assert(doc_shape(seq![e].drop_first()) =~= Seq::<EventV>::empty());
    match e {
        EventV::Start { name, .. } => {
            assert(doc_shape(seq![e]) =~= seq![start_tag(name)]);
        },
        EventV::End { name } => {
            assert(doc_shape(seq![e]) =~= seq![end_tag(name)]);
        },
        EventV::Skip => {},
        EventV::Other => {
            assert(doc_shape(seq![e]) =~= seq![EventV::Other]);
        },
    }
}

proof fn lemma_render_term_stable(terms: Seq<TermV>, ext: Seq<TermV>, t: int)
    requires
        terms_extend(terms, ext),
        0 <= t < terms.len(),
    ensures
        render_term(ext, t) == render_term(terms, t),
    decreases t, 1int, 0int,
{
    reveal(render_term);
    reveal(render_list);
    assert(ext[t] == terms[t]);
    match terms[t] {
        TermV::Graph { children } => {
            lemma_render_list_stable(terms, ext, children, t);
        },
        TermV::Node { children, .. } => {
            lemma_render_list_stable(terms, ext, children, t);
        },
        TermV::Region { body, results, .. } => {
            lemma_render_list_stable(terms, ext, body, t);
            lemma_render_list_stable(terms, ext, results, t);
        },
        _ => {},
    }
}

proof fn lemma_render_list_stable(terms: Seq<TermV>, ext: Seq<TermV>, kids: Seq<int>, bound: int)
    requires
        terms_extend(terms, ext),
        0 <= bound <= terms.len(),
    ensures
        render_list(ext, kids, bound) == render_list(terms, kids, bound),
    decreases bound, 0int, kids.len(),
{
    reveal(render_term);
    reveal(render_list);
    if kids.len() > 0 {
        if 0 <= kids[0] < bound {
            lemma_render_term_stable(terms, ext, kids[0]);
        }
        lemma_render_list_stable(terms, ext, kids.drop_first(), bound);
    }
}

proof fn lemma_render_list_add(terms: Seq<TermV>, k1: Seq<int>, k2: Seq<int>, bound: int)
    ensures
        render_list(terms, k1 + k2, bound) == render_list(terms, k1, bound) + render_list(
            terms,
            k2,
            bound,
        ),
    decreases k1.len(),
{
    reveal(render_list);
    if k1.len() == 0 {
        assert(k1 + k2 =~= k2);
        assert(render_list(terms, k1, bound) + render_list(terms, k2, bound) =~= render_list(
            terms,
            k2,
            bound,
        ));
    } else {
        assert((k1 + k2).drop_first() =~= k1.drop_first() + k2);
        assert((k1 + k2)[0] == k1[0]);
        lemma_render_list_add(terms, k1.drop_first(), k2, bound);
        assert(render_list(terms, k1 + k2, bound) =~= render_list(terms, k1, bound) + render_list(
            terms,
            k2,
            bound,
        ));
    }
}

proof fn lemma_render_term_patched(a: Seq<TermV>, b: Seq<TermV>, t: int)
    requires
        edges_patched(a, b),
    ensures
        render_term(b, t) == render_term(a, t),
    decreases t, 1int, 0int,
{
    reveal(render_term);
    reveal(render_list);
    if 0 <= t < a.len() {
        if a[t] is Edge {
            assert(b[t] is Edge);
        } else {
            assert(b[t] == a[t]);
            match a[t] {
                TermV::Graph { children } => {
                    lemma_render_list_patched(a, b, children, t);
                },
                TermV::Node { children, .. } => {
                    lemma_render_list_patched(a, b, children, t);
                },
                TermV::Region { body, results, .. } => {
                    lemma_render_list_patched(a, b, body, t);
                    lemma_render_list_patched(a, b, results, t);
                },
                _ => {},
            }
        }
    }
}

proof fn lemma_render_list_patched(a: Seq<TermV>, b: Seq<TermV>, kids: Seq<int>, bound: int)
    requires
        edges_patched(a, b),
    ensures
        render_list(b, kids, bound) == render_list(a, kids, bound),
    decreases bound, 0int, kids.len(),
{
    reveal(render_term);
    reveal(render_list);
    if kids.len() > 0 {
        if 0 <= kids[0] < bound {
            lemma_render_term_patched(a, b, kids[0]);
        }
        lemma_render_list_patched(a, b, kids.drop_first(), bound);
    }
}

proof fn lemma_first_match_range(terms: Seq<TermV>, t: TermV, j: int)
    requires
        0 <= j <= terms.len(),
    ensures
        j <= first_match(terms, t, j) <= terms.len(),
        first_match(terms, t, j) < terms.len() ==> spec_matches(
            terms[first_match(terms, t, j)],
            t,
        ),
        (forall|k: int| j <= k < terms.len() ==> !spec_matches(#[trigger] terms[k], t))
            ==> first_match(terms, t, j) == terms.len(),
    decreases terms.len() - j,
{
    if j < terms.len() && !spec_matches(terms[j], t) {
        lemma_first_match_range(terms, t, j + 1);
    }
}

proof fn lemma_intern_fresh(m: ModelState, t: TermV, id: Seq<char>)
    requires
        wf_model(m),
        term_key(t) == Some(id),
        !m.table.contains_key(id),
    ensures
        first_match(m.terms, t, 0) == m.terms.len(),
{
    assert forall|k: int| 0 <= k < m.terms.len() implies !spec_matches(
        #[trigger] m.terms[k],
        t,
    ) by {
        if spec_matches(m.terms[k], t) {
            assert(term_key(m.terms[k]) == Some(id));
        }
    };
    lemma_first_match_range(m.terms, t, 0);
}

/// Within each region element of the document, the result children come
/// after the non-result children, so the split a region term stores loses
/// no ordering information.
pub open spec fn regions_separated(es: Seq<EventV>) -> bool {
    forall|i: int, m: ModelState|
        (#[trigger] spec_body(es, i, "region"@, m)) matches Ok(r) ==> r.2 == body_part(
            r.0.terms,
            r.2,
        ) + results_part(r.0.terms, r.2)
}

proof fn lemma_wf_push(m: ModelState, m2: ModelState, t: TermV)
    requires
        wf_model(m),
        m2.terms == m.terms.push(t),
        term_key(t) matches Some(id) ==> m2.table.contains_key(id),
        forall|id: Seq<char>| m.table.contains_key(id) ==> #[trigger] m2.table.contains_key(id),
    ensures
        wf_model(m2),
{
    assert forall|k: int| 0 <= k < m2.terms.len() implies (term_key(#[trigger] m2.terms[k]) matches
        Some(id) ==> m2.table.contains_key(id)) by {
        if k < m.terms.len() {
            assert(m2.terms[k] == m.terms[k]);
            assert(term_key(m.terms[k]) matches Some(id) ==> m.table.contains_key(id));
        }
    };
}

proof fn rt_elem(es: Seq<EventV>, i: int, m: ModelState)
    requires
        regions_separated(es),
        wf_model(m),
        spec_elem(es, i, m) is Ok,
    ensures
        ({
            let r = spec_elem(es, i, m)->Ok_0;
            &&& terms_extend(m.terms, r.0.terms)
            &&& wf_model(r.0)
            &&& i < r.1 <= es.len()
            &&& 0 <= r.2 < r.0.terms.len()
            &&& render_term(r.0.terms, r.2) == doc_shape(es.subrange(i, r.1))
        }),
    decreases es.len() - i, 0int,
{
    let r = spec_elem(es, i, m)->Ok_0;
    let name = es[i]->Start_name;
    let attrs = es[i]->Start_attrs;
    if name == "graph"@ {
        rt_graph(es, i + 1, m);
    } else if name == "node"@ {
        rt_node(es, i + 1, attrs, m);
    } else if name == "region"@ {
        rt_region(es, i + 1, attrs, m);
    } else if name == "edge"@ {
        rt_edge(es, i + 1, attrs, m);
    } else {
        rt_atom(es, i + 1, name, attrs, m);
    }
    assert(es.subrange(i, r.1) =~= seq![es[i]] + es.subrange(i + 1, r.1));
    lemma_doc_shape_add(seq![es[i]], es.subrange(i + 1, r.1));
    lemma_doc_shape_one(es[i]);
    assert(render_term(r.0.terms, r.2) == doc_shape(es.subrange(i, r.1)));
}

proof fn rt_body(es: Seq<EventV>, i: int, close: Seq<char>, m: ModelState)
    requires
        regions_separated(es),
        wf_model(m),
        spec_body(es, i, close, m) is Ok,
    ensures
        ({
            let r = spec_body(es, i, close, m)->Ok_0;
            &&& terms_extend(m.terms, r.0.terms)
            &&& wf_model(r.0)
            &&& i < r.1 <= es.len()
            &&& doc_shape(es.subrange(i, r.1)) == render_list(
                r.0.terms,
                r.2,
                r.0.terms.len() as int,
            ) + seq![end_tag(close)]
        }),
    decreases es.len() - i, 1int,
{
    reveal(render_list);
    let r = spec_body(es, i, close, m)->Ok_0;
    match es[i] {
        EventV::End { name } => {
            assert(es.subrange(i, i + 1) =~= seq![es[i]]);
            lemma_doc_shape_one(es[i]);
            assert(render_list(r.0.terms, r.2, r.0.terms.len() as int) + seq![end_tag(close)]
                =~= seq![end_tag(close)]);
        },
        EventV::Skip => {
            rt_body(es, i + 1, close, m);
            assert(es.subrange(i, r.1) =~= seq![es[i]] + es.subrange(i + 1, r.1));
            lemma_doc_shape_add(seq![es[i]], es.subrange(i + 1, r.1));
            lemma_doc_shape_one(es[i]);
            assert(Seq::<EventV>::empty() + doc_shape(es.subrange(i + 1, r.1)) =~= doc_shape(
                es.subrange(i + 1, r.1),
            ));
        },
        EventV::Start { .. } => {
            rt_elem(es, i, m);
            let re = spec_elem(es, i, m)->Ok_0;
            rt_body(es, re.1, close, re.0);
            let rb = spec_body(es, re.1, close, re.0)->Ok_0;
            let kids = seq![re.2] + rb.2;
            assert(r.2 == kids);
            lemma_doc_shape_split(es, i, re.1, rb.1);
            lemma_render_term_stable(re.0.terms, rb.0.terms, re.2);
            assert(kids[0] == re.2);
            assert(kids.drop_first() =~= rb.2);
            assert(terms_extend(m.terms, rb.0.terms));
            assert(render_list(rb.0.terms, kids, rb.0.terms.len() as int) == render_term(
                rb.0.terms,
                re.2,
            ) + render_list(rb.0.terms, rb.2, rb.0.terms.len() as int)) by {
                reveal(render_term);
                reveal(render_list);
            };
            assert(doc_shape(es.subrange(i, r.1)) == render_list(
                r.0.terms,
                r.2,
                r.0.terms.len() as int,
            ) + seq![end_tag(close)]) by {
                assert(doc_shape(es.subrange(i, re.1)) + (render_list(
                    rb.0.terms,
                    rb.2,
                    rb.0.terms.len() as int,
                ) + seq![end_tag(close)]) =~= (doc_shape(es.subrange(i, re.1)) + render_list(
                    rb.0.terms,
                    rb.2,
                    rb.0.terms.len() as int,
                )) + seq![end_tag(close)]);
            };
        },
        EventV::Other => {
            assert(false);
        },
    }
}

proof fn rt_graph(es: Seq<EventV>, i: int, m: ModelState)
    requires
        regions_separated(es),
        wf_model(m),
        spec_graph(es, i, m) is Ok,
    ensures
        ({
            let r = spec_graph(es, i, m)->Ok_0;
            &&& terms_extend(m.terms, r.0.terms)
            &&& wf_model(r.0)
            &&& i < r.1 <= es.len()
            &&& 0 <= r.2 < r.0.terms.len()
            &&& render_term(r.0.terms, r.2) == seq![start_tag("graph"@)] + doc_shape(
                es.subrange(i, r.1),
            )
        }),
    decreases es.len() - i, 2int,
{
    reveal(render_term);
    let r = spec_graph(es, i, m)->Ok_0;
    rt_body(es, i, "graph"@, m);
    let rb = spec_body(es, i, "graph"@, m)->Ok_0;
    let gt = TermV::Graph { children: rb.2 };
    assert forall|k: int| 0 <= k < rb.0.terms.len() implies !spec_matches(
        #[trigger] rb.0.terms[k],
        gt,
    ) by {}
    lemma_first_match_range(rb.0.terms, gt, 0);
    let t = rb.0.terms.len() as int;
    assert(r.0.terms == rb.0.terms.push(gt));
    assert(r.2 == t);
    lemma_wf_push(rb.0, r.0, gt);
    lemma_render_list_stable(rb.0.terms, r.0.terms, rb.2, t);
    assert(r.0.terms[t] == gt);
    assert(render_term(r.0.terms, t) == seq![start_tag("graph"@)] + render_list(
        r.0.terms,
        rb.2,
        t,
    ) + seq![end_tag("graph"@)]) by {
        reveal(render_term);
        reveal(render_list);
    };
    assert(render_term(r.0.terms, t) == seq![start_tag("graph"@)] + render_list(
        rb.0.terms,
        rb.2,
        t,
    ) + seq![end_tag("graph"@)]);
    assert(seq![start_tag("graph"@)] + render_list(rb.0.terms, rb.2, t) + seq![end_tag("graph"@)]
        =~= seq![start_tag("graph"@)] + (render_list(rb.0.terms, rb.2, t) + seq![end_tag(
        "graph"@,
    )]));
    assert(terms_extend(m.terms, r.0.terms));
}

proof fn rt_node(es: Seq<EventV>, i: int, attrs: Seq<(Seq<char>, Seq<char>)>, m: ModelState)
    requires
        regions_separated(es),
        wf_model(m),
        spec_node(es, i, attrs, m) is Ok,
    ensures
        ({
            let r = spec_node(es, i, attrs, m)->Ok_0;
            &&& terms_extend(m.terms, r.0.terms)
            &&& wf_model(r.0)
            &&& i < r.1 <= es.len()
            &&& 0 <= r.2 < r.0.terms.len()
            &&& render_term(r.0.terms, r.2) == seq![start_tag("node"@)] + doc_shape(
                es.subrange(i, r.1),
            )
        }),
    decreases es.len() - i, 2int,
{
    reveal(render_term);
    let r = spec_node(es, i, attrs, m)->Ok_0;
    let a = spec_attrs(attrs)->Ok_0;
    rt_body(es, i, "node"@, m);
    let rb = spec_body(es, i, "node"@, m)->Ok_0;
    let nt = TermV::Node { id: a.id, name: a.name, kind: a.kind, children: rb.2 };
    assert(!rb.0.table.contains_key(a.id));
    lemma_intern_fresh(rb.0, nt, a.id);
    let t = rb.0.terms.len() as int;
    assert(r.0.terms == rb.0.terms.push(nt));
    assert(r.2 == t);
    assert(r.0.table == rb.0.table.insert(a.id, t));
    lemma_wf_push(rb.0, r.0, nt);
    lemma_render_list_stable(rb.0.terms, r.0.terms, rb.2, t);
    assert(r.0.terms[t] == nt);
    assert(render_term(r.0.terms, t) == seq![start_tag("node"@)] + render_list(
        r.0.terms,
        rb.2,
        t,
    ) + seq![end_tag("node"@)]) by {
        reveal(render_term);
        reveal(render_list);
    };
    assert(render_term(r.0.terms, t) == seq![start_tag("node"@)] + render_list(
        rb.0.terms,
        rb.2,
        t,
    ) + seq![end_tag("node"@)]);
    assert(seq![start_tag("node"@)] + render_list(rb.0.terms, rb.2, t) + seq![end_tag("node"@)]
        =~= seq![start_tag("node"@)] + (render_list(rb.0.terms, rb.2, t) + seq![end_tag(
        "node"@,
    )]));
    assert(terms_extend(m.terms, r.0.terms));
}

proof fn lemma_region_render(
    terms: Seq<TermV>,
    ext: Seq<TermV>,
    bp: Seq<int>,
    rp: Seq<int>,
    id: Seq<char>,
    t: int,
)
    requires
        t == terms.len(),
        ext == terms.push(TermV::Region { id, body: bp, results: rp }),
    ensures
        render_term(ext, t) == seq![start_tag("region"@)] + (render_list(terms, bp + rp, t)
            + seq![end_tag("region"@)]),
{
    reveal(render_term);
    reveal(render_list);
    assert(terms_extend(terms, ext));
    lemma_render_list_stable(terms, ext, bp, t);
    lemma_render_list_stable(terms, ext, rp, t);
    lemma_render_list_add(terms, bp, rp, t);
    let s = seq![start_tag("region"@)];
    let e = seq![end_tag("region"@)];
    let lb = render_list(terms, bp, t);
    let lr = render_list(terms, rp, t);
    assert(ext[t] == TermV::Region { id, body: bp, results: rp });
    assert(render_term(ext, t) == s + render_list(ext, bp, t) + render_list(ext, rp, t) + e);
    assert(s + lb + lr + e =~= s + ((lb + lr) + e));
}

proof fn rt_region_core(mb: ModelState, m2: ModelState, kids: Seq<int>, id: Seq<char>, t: int)
    requires
        wf_model(mb),
        !mb.table.contains_key(id),
        kids == body_part(mb.terms, kids) + results_part(mb.terms, kids),
        t == mb.terms.len(),
        m2.terms == crate::store::intern_terms(
            mb.terms,
            TermV::Region {
                id,
                body: body_part(mb.terms, kids),
                results: results_part(mb.terms, kids),
            },
        ),
        m2.table == mb.table.insert(
            id,
            crate::store::intern_index(
                mb.terms,
                TermV::Region {
                    id,
                    body: body_part(mb.terms, kids),
                    results: results_part(mb.terms, kids),
                },
            ),
        ),
    ensures
        crate::store::intern_index(
            mb.terms,
            TermV::Region {
                id,
                body: body_part(mb.terms, kids),
                results: results_part(mb.terms, kids),
            },
        ) == t,
        terms_extend(mb.terms, m2.terms),
        wf_model(m2),
        t < m2.terms.len(),
        render_term(m2.terms, t) == seq![start_tag("region"@)] + (render_list(mb.terms, kids, t)
            + seq![end_tag("region"@)]),
{
    let bp = body_part(mb.terms, kids);
    let rp = results_part(mb.terms, kids);
    let rt = TermV::Region { id, body: bp, results: rp };
    lemma_intern_fresh(mb, rt, id);
    assert(m2.terms == mb.terms.push(rt));
    lemma_wf_push(mb, m2, rt);
    lemma_region_render(mb.terms, m2.terms, bp, rp, id, t);
    assert(render_list(mb.terms, bp + rp, t) == render_list(mb.terms, kids, t));
}

proof fn rt_region(es: Seq<EventV>, i: int, attrs: Seq<(Seq<char>, Seq<char>)>, m: ModelState)
    requires
        regions_separated(es),
        wf_model(m),
        spec_region(es, i, attrs, m) is Ok,
    ensures
        ({
            let r = spec_region(es, i, attrs, m)->Ok_0;
            &&& terms_extend(m.terms, r.0.terms)
            &&& wf_model(r.0)
            &&& i < r.1 <= es.len()
            &&& 0 <= r.2 < r.0.terms.len()
            &&& render_term(r.0.terms, r.2) == seq![start_tag("region"@)] + doc_shape(
                es.subrange(i, r.1),
            )
        }),
    decreases es.len() - i, 2int,
{
    let r = spec_region(es, i, attrs, m)->Ok_0;
    let a = spec_attrs(attrs)->Ok_0;
    rt_body(es, i, "region"@, m);
    let rb = spec_body(es, i, "region"@, m)->Ok_0;
    assert(rb.2 == body_part(rb.0.terms, rb.2) + results_part(rb.0.terms, rb.2));
    assert(!rb.0.table.contains_key(a.id));
    let t = rb.0.terms.len() as int;
    rt_region_core(rb.0, r.0, rb.2, a.id, t);
    assert(r.2 == t);
    assert(terms_extend(m.terms, r.0.terms));
}

proof fn rt_edge(es: Seq<EventV>, i: int, attrs: Seq<(Seq<char>, Seq<char>)>, m: ModelState)
    requires
        regions_separated(es),
        wf_model(m),
        spec_edge(es, i, attrs, m) is Ok,
    ensures
        ({
            let r = spec_edge(es, i, attrs, m)->Ok_0;
            &&& terms_extend(m.terms, r.0.terms)
            &&& wf_model(r.0)
            &&& i < r.1 <= es.len()
            &&& 0 <= r.2 < r.0.terms.len()
            &&& render_term(r.0.terms, r.2) == seq![start_tag("edge"@)] + doc_shape(
                es.subrange(i, r.1),
            )
        }),
    decreases es.len() - i, 2int,
{
    reveal(render_term);
    let r = spec_edge(es, i, attrs, m)->Ok_0;
    match es[i] {
        EventV::Skip => {
            rt_edge(es, i + 1, attrs, m);
            assert(es.subrange(i, r.1) =~= seq![es[i]] + es.subrange(i + 1, r.1));
            lemma_doc_shape_add(seq![es[i]], es.subrange(i + 1, r.1));
            lemma_doc_shape_one(es[i]);
            assert(Seq::<EventV>::empty() + doc_shape(es.subrange(i + 1, r.1)) =~= doc_shape(
                es.subrange(i + 1, r.1),
            ));
        },
        EventV::End { name } => {
            let src = crate::attrs::attr_lookup(attrs, "source"@)->Some_0;
            let tgt = crate::attrs::attr_lookup(attrs, "target"@)->Some_0;
            let probe = TermV::Edge {
                ident: crate::ident::spec_edge_ident(src, tgt),
                source: m.terms.len() as int,
                target: m.terms.len() as int,
            };
            lemma_first_match_range(m.terms, probe, 0);
            let idx = first_match(m.terms, probe, 0);
            if idx < m.terms.len() {
                assert(spec_matches(m.terms[idx], probe));
                assert(r.0.terms[idx] is Edge);
            } else {
                assert(r.0.terms == m.terms.push(probe));
                lemma_wf_push(
                    ModelState { terms: m.terms, table: m.table, pending: m.pending },
                    ModelState { terms: r.0.terms, table: m.table, pending: r.0.pending },
                    probe,
                );
                assert(wf_model(r.0));
            }
            assert(es.subrange(i, i + 1) =~= seq![es[i]]);
            lemma_doc_shape_one(es[i]);
            assert(seq![start_tag("edge"@), end_tag("edge"@)] =~= seq![start_tag("edge"@)]
                + seq![end_tag("edge"@)]);
        },
        _ => {
            assert(false);
        },
    }
}

proof fn rt_atom(
    es: Seq<EventV>,
    i: int,
    tag: Seq<char>,
    attrs: Seq<(Seq<char>, Seq<char>)>,
    m: ModelState,
)
    requires
        regions_separated(es),
        wf_model(m),
        spec_atom(es, i, tag, attrs, m) is Ok,
        tag == "input"@ || tag == "output"@ || tag == "result"@ || tag == "argument"@,
    ensures
        ({
            let r = spec_atom(es, i, tag, attrs, m)->Ok_0;
            &&& terms_extend(m.terms, r.0.terms)
            &&& wf_model(r.0)
            &&& i < r.1 <= es.len()
            &&& 0 <= r.2 < r.0.terms.len()
            &&& render_term(r.0.terms, r.2) == seq![start_tag(tag)] + doc_shape(
                es.subrange(i, r.1),
            )
        }),
    decreases es.len() - i, 2int,
{
    reveal(render_term);
    let r = spec_atom(es, i, tag, attrs, m)->Ok_0;
    match es[i] {
        EventV::Skip => {
            rt_atom(es, i + 1, tag, attrs, m);
            assert(es.subrange(i, r.1) =~= seq![es[i]] + es.subrange(i + 1, r.1));
            lemma_doc_shape_add(seq![es[i]], es.subrange(i + 1, r.1));
            lemma_doc_shape_one(es[i]);
            assert(Seq::<EventV>::empty() + doc_shape(es.subrange(i + 1, r.1)) =~= doc_shape(
                es.subrange(i + 1, r.1),
            ));
        },
        EventV::End { name } => {
            let a = spec_attrs(attrs)->Ok_0;
            let pt = port_term(tag, a.id);
            assert(term_key(pt) == Some(a.id));
            assert(!m.table.contains_key(a.id));
            lemma_intern_fresh(m, pt, a.id);
            let t = m.terms.len() as int;
            assert(r.0.terms == m.terms.push(pt));
            assert(r.2 == t);
            lemma_wf_push(m, r.0, pt);
            assert(term_tag(pt) == tag);
            assert(es.subrange(i, i + 1) =~= seq![es[i]]);
            lemma_doc_shape_one(es[i]);
            assert(seq![start_tag(tag), end_tag(tag)] =~= seq![start_tag(tag)] + seq![end_tag(
                tag,
            )]);
        },
        _ => {
            assert(false);
        },
    }
}

proof fn lemma_resolve_pending_patched(
    terms: Seq<TermV>,
    table: Map<Seq<char>, int>,
    pending: Seq<(int, Seq<char>, Seq<char>)>,
)
    requires
        spec_resolve_pending(terms, table, pending) is Ok,
    ensures
        edges_patched(terms, spec_resolve_pending(terms, table, pending)->Ok_0),
    decreases pending.len(),
{
    if pending.len() == 0 {
    } else {
        let terms2 = patch_edge(terms, pending[0].0, table[pending[0].1], table[pending[0].2]);
        assert(edges_patched(terms, terms2));
        lemma_resolve_pending_patched(terms2, table, pending.drop_first());
        let res = spec_resolve_pending(terms, table, pending)->Ok_0;
        assert forall|k: int| 0 <= k < terms.len() implies (#[trigger] res[k] == terms[k] || (
        terms[k] is Edge && res[k] is Edge)) by {
            assert(terms2[k] == terms[k] || (terms[k] is Edge && terms2[k] is Edge));
            assert(res[k] == terms2[k] || (terms2[k] is Edge && res[k] is Edge));
        };
    }
}

proof fn lemma_skip_prefix(es: Seq<EventV>, i: int)
    requires
        0 <= i <= es.len(),
    ensures
        i <= spec_skip(es, i) <= es.len(),
        doc_shape(es.subrange(i, spec_skip(es, i))) == Seq::<EventV>::empty(),
    decreases es.len() - i,
{
    if i < es.len() && (es[i] is Skip) {
        lemma_skip_prefix(es, i + 1);
        assert(es.subrange(i, spec_skip(es, i)) =~= seq![es[i]] + es.subrange(
            i + 1,
            spec_skip(es, i + 1),
        ));
        lemma_doc_shape_add(seq![es[i]], es.subrange(i + 1, spec_skip(es, i + 1)));
        lemma_doc_shape_one(es[i]);
        assert(Seq::<EventV>::empty() + doc_shape(es.subrange(i + 1, spec_skip(es, i + 1)))
            =~= doc_shape(es.subrange(i + 1, spec_skip(es, i + 1))));
    } else {
        assert(es.subrange(i, i) =~= Seq::<EventV>::empty());
    }
}

/// Round-trip identity: lowering a document and re-serializing the
/// resulting term store's structural shape — element names and nesting,
/// with synthesized edge identities and attributes ignored — reproduces the
/// document's own shape. The document must keep each region's result
/// children after its other children (`regions_separated`): a region term
/// stores its body and its results apart, so any other interleaving is not
/// recoverable from the store.
pub proof fn lemma_round_trip(es: Seq<EventV>)
    requires
        regions_separated(es),
        spec_lower(es) is Ok,
    ensures
        ({
            let r = spec_lower(es)->Ok_0;
            render_term(r.0, r.1) == doc_shape(es)
        }),
{
    let i = spec_skip(es, 0);
    lemma_skip_prefix(es, 0);
    let name = es[i]->Start_name;
    assert(wf_model(empty_model()));
    rt_graph(es, i + 1, empty_model());
    let rg = spec_graph(es, i + 1, empty_model())->Ok_0;
    let j = rg.1;
    lemma_skip_prefix(es, j);
    assert(spec_skip(es, j) == es.len());
    lemma_resolve_pending_patched(rg.0.terms, rg.0.table, rg.0.pending);
    let ft = spec_resolve_pending(rg.0.terms, rg.0.table, rg.0.pending)->Ok_0;
    lemma_render_term_patched(rg.0.terms, ft, rg.2);
    assert(es.subrange(0, es.len() as int) =~= es);
    lemma_doc_shape_split(es, 0, i, es.len() as int);
    lemma_doc_shape_split(es, i, i + 1, es.len() as int);
    lemma_doc_shape_split(es, i + 1, j, es.len() as int);
    assert(es.subrange(i, i + 1) =~= seq![es[i]]);
    lemma_doc_shape_one(es[i]);
    assert(doc_shape(es) == doc_shape(es.subrange(0, i)) + (seq![start_tag(name)] + (doc_shape(
        es.subrange(i + 1, j),
    ) + doc_shape(es.subrange(j, es.len() as int)))));
    assert(doc_shape(es) =~= seq![start_tag("graph"@)] + doc_shape(es.subrange(i + 1, j)));
}

} // verus!
