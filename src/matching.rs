use vstd::prelude::*;
use crate::atom::AtomId;
use crate::relation::{Relation, RelationId};
use crate::hypergraph::{Hypergraph, HypergraphView};
use crate::pattern::{Binding, ElementView, Pattern, PatternElement, PatternRelation, PatternRelationView};

verus! {

/// Element `e` of a pattern relation fits atom `a` under binding `b`.
pub open spec fn element_fits(e: ElementView, a: AtomId, b: Map<Seq<char>, AtomId>) -> bool {
    match e {
        ElementView::Atom(x) => x == a,
        ElementView::Var(v) => b.contains_key(v) && b[v] == a,
    }
}

/// Pattern relation `p` fits a relation over `atoms` under binding `b`: the
/// arities agree and every position fits.
pub open spec fn relation_fits(p: PatternRelationView, atoms: Seq<AtomId>, b: Map<Seq<char>, AtomId>) -> bool {
    &&& p.elements.len() == atoms.len()
    &&& forall|j: int| 0 <= j < atoms.len() ==> #[trigger] element_fits(p.elements[j], atoms[j], b)
}

/// The variables that occur in a sequence of pattern elements.
pub open spec fn element_vars(es: Seq<ElementView>) -> Set<Seq<char>> {
    Set::new(|v: Seq<char>| es.contains(ElementView::Var(v)))
}

/// The variables that occur in a pattern.
pub open spec fn pattern_vars(p: Seq<PatternRelationView>) -> Set<Seq<char>>
    decreases p.len(),
{
    if p.len() == 0 {
        Set::empty()
    } else {
        pattern_vars(p.drop_last()).union(element_vars(p.last().elements))
    }
}

/// `rels` and `b` embed pattern `p` into the hypergraph `g`: one distinct
/// stored relation for each pattern relation, in pattern order, each fitting
/// its pattern relation under `b`, which binds exactly the pattern's
/// variables.
pub open spec fn is_match(
    p: Seq<PatternRelationView>,
    g: HypergraphView,
    rels: Seq<RelationId>,
    b: Map<Seq<char>, AtomId>,
) -> bool {
    &&& rels.len() == p.len()
    &&& rels.no_duplicates()
    &&& forall|i: int| 0 <= i < rels.len() ==> g.relations.contains_key(#[trigger] rels[i].0)
    &&& forall|i: int| 0 <= i < rels.len() ==> relation_fits(#[trigger] p[i], g.relations[rels[i].0].atoms, b)
    &&& b.dom() == pattern_vars(p)
}

/// `a` comes before `b` in the lexicographic order of relation ids: they
/// agree up to some position, where `a` has the smaller id.
pub open spec fn lex_before(a: Seq<RelationId>, b: Seq<RelationId>) -> bool {
    exists|j: int| 0 <= j < a.len() && j < b.len() && a.take(j) == b.take(j) && #[trigger] a[j].0 < #[trigger] b[j].0
}

/// One embedding of a pattern: the binding of its variables and the matched
/// relations, one per pattern relation, in pattern order.
#[derive(Debug, Clone, PartialEq, Eq)]
pub struct PatternMatch {
    pub binding: Binding,
    pub matched_relations: Vec<RelationId>,
}

impl PatternMatch {
    /// Creates a match from its parts.
    pub fn new(binding: Binding, matched_relations: Vec<RelationId>) -> (r: PatternMatch)
        ensures
            r.binding@ == binding@,
            r.matched_relations@ == matched_relations@,
    {
        PatternMatch { binding, matched_relations }
    }
}

proof fn lemma_fits_grow(p: PatternRelationView, atoms: Seq<AtomId>, b1: Map<Seq<char>, AtomId>, b2: Map<Seq<char>, AtomId>)
    requires
        b1.submap_of(b2),
        relation_fits(p, atoms, b1),
    ensures
        relation_fits(p, atoms, b2),
{
    assert forall|j: int| 0 <= j < atoms.len() implies #[trigger] element_fits(p.elements[j], atoms[j], b2) by {
        assert(element_fits(p.elements[j], atoms[j], b1));
    }
}

proof fn lemma_vars_take(es: Seq<ElementView>, j: int)
    requires
        0 <= j < es.len(),
    ensures
        element_vars(es.take(j + 1)) == element_vars(es.take(j)).union(
            match es[j] {
                ElementView::Var(v) => set![v],
                ElementView::Atom(_) => Set::empty(),
            },
        ),
{
    let t1 = es.take(j + 1);
    let t0 = es.take(j);
    assert(t1 =~= t0.push(es[j]));
    let extra = match es[j] {
        ElementView::Var(v) => set![v],
        ElementView::Atom(_) => Set::<Seq<char>>::empty(),
    };
    assert forall|v: Seq<char>| element_vars(t1).contains(v) <==> (element_vars(t0).contains(v) || extra.contains(v)) by {
        if t1.contains(ElementView::Var(v)) {
            let k = choose|k: int| 0 <= k < t1.len() && #[trigger] t1[k] == ElementView::Var(v);
            if k < j {
                assert(t0[k] == ElementView::Var(v));
            }
        }
        if t0.contains(ElementView::Var(v)) {
            let k = choose|k: int| 0 <= k < t0.len() && #[trigger] t0[k] == ElementView::Var(v);
            assert(t1[k] == ElementView::Var(v));
        }
        if extra.contains(v) {
            assert(t1[j] == ElementView::Var(v));
        }
    }
    assert(element_vars(t1) =~= element_vars(t0).union(extra));
}

/// Tries to fit pattern relation `pattern_relation` to `relation`, extending
/// `current`. Returns the least extension of `current` under which it fits,
/// or `None` when no extension makes it fit.
pub fn try_match_relation(pattern_relation: &PatternRelation, relation: &Relation, current: &Binding) -> (r:
    Option<Binding>)
    ensures
        r is Some ==> {
            &&& r.unwrap()@.dom() == current@.dom().union(element_vars(pattern_relation@.elements))
            &&& current@.submap_of(r.unwrap()@)
            &&& relation_fits(pattern_relation@, relation.atoms@, r.unwrap()@)
        },
        forall|m: Map<Seq<char>, AtomId>|
            current@.submap_of(m) && element_vars(pattern_relation@.elements).subset_of(m.dom())
                && #[trigger] relation_fits(pattern_relation@, relation.atoms@, m) ==> r is Some
                && r.unwrap()@.submap_of(m),
{
    let es = pattern_relation.elements();
    let atoms = relation.atoms();
    let ghost pv = pattern_relation@;
    if es.len() != atoms.len() {
        return None;
    }
    let mut nb = current.clone();
    let mut j: usize = 0;
    while j < es.len()
        invariant
            0 <= j <= es@.len(),
            es@.len() == atoms@.len(),
            atoms@ == relation.atoms@,
            es@.map_values(|e: PatternElement| e@) == pv.elements,
            pv == pattern_relation@,
            nb@.dom() == current@.dom().union(element_vars(pv.elements.take(j as int))),
            current@.submap_of(nb@),
            forall|k: int| 0 <= k < j ==> #[trigger] element_fits(pv.elements[k], atoms@[k], nb@),
            forall|m: Map<Seq<char>, AtomId>|
                current@.submap_of(m) && element_vars(pv.elements).subset_of(m.dom())
                    && #[trigger] relation_fits(pv, atoms@, m) ==> nb@.submap_of(m),
        decreases es@.len() - j,
    {
        proof {
            lemma_vars_take(pv.elements, j as int);
            assert(pv.elements[j as int] == es@[j as int]@);
        }
        let ghost before = nb@;
        match &es[j] {
            PatternElement::Atom(x) => {
                if *x != atoms[j] {
                    proof {
                        assert forall|m: Map<Seq<char>, AtomId>|
                            current@.submap_of(m) && element_vars(pv.elements).subset_of(m.dom())
                                && #[trigger] relation_fits(pv, atoms@, m) implies false by {
                            assert(element_fits(pv.elements[j as int], atoms@[j as int], m));
                        }
                    }
                    return None;
                }
                proof {
                    assert(nb@.dom() =~= current@.dom().union(element_vars(pv.elements.take(j + 1))));
                }
            },
            PatternElement::Variable(v) => {
                let ghost name = v@;
                if !nb.bind(v.clone(), atoms[j]) {
                    proof {
                        assert forall|m: Map<Seq<char>, AtomId>|
                            current@.submap_of(m) && element_vars(pv.elements).subset_of(m.dom())
                                && #[trigger] relation_fits(pv, atoms@, m) implies false by {
                            assert(element_fits(pv.elements[j as int], atoms@[j as int], m));
                            assert(before.submap_of(m));
                        }
                    }
                    return None;
                }
                proof {
                    assert(nb@.dom() =~= current@.dom().union(element_vars(pv.elements.take(j + 1))));
                    assert forall|m: Map<Seq<char>, AtomId>|
                        current@.submap_of(m) && element_vars(pv.elements).subset_of(m.dom())
                            && #[trigger] relation_fits(pv, atoms@, m) implies nb@.submap_of(m) by {
                        assert(element_fits(pv.elements[j as int], atoms@[j as int], m));
                        assert(before.submap_of(m));
                    }
                }
            },
        }
        proof {
            assert forall|k: int| 0 <= k < j + 1 implies #[trigger] element_fits(pv.elements[k], atoms@[k], nb@) by {
                if k < j {
                    assert(element_fits(pv.elements[k], atoms@[k], before));
                }
            }
        }
        j = j + 1;
    }
    proof {
        assert(pv.elements.take(es@.len() as int) =~= pv.elements);
    }
    Some(nb)
}

/// Tells whether `x` occurs in `v`.
fn contains_relation_id(v: &Vec<RelationId>, x: RelationId) -> (r: bool)
    ensures
        r == v@.contains(x),
{
    let mut i: usize = 0;
    while i < v.len()
        invariant
            0 <= i <= v@.len(),
            forall|j: int| 0 <= j < i ==> v@[j] != x,
        decreases v@.len() - i,
    {
        if v[i] == x {
            return true;
        }
        i = i + 1;
    }
    false
}

/// Copies a sequence of relation ids.
pub fn copy_relation_ids(v: &Vec<RelationId>) -> (r: Vec<RelationId>)
    ensures
        r@ == v@,
{
    let mut r: Vec<RelationId> = Vec::new();
    for i in 0..v.len()
        invariant
            r@ == v@.take(i as int),
    {
        r.push(v[i]);
    }
    assert(r@ =~= v@);
    r
}

proof fn lemma_pattern_vars_take(p: Seq<PatternRelationView>, i: int)
    requires
        0 <= i < p.len(),
    ensures
        pattern_vars(p.take(i + 1)) == pattern_vars(p.take(i)).union(element_vars(p[i].elements)),
{
    assert(p.take(i + 1).drop_last() =~= p.take(i));
}

proof fn lemma_pattern_vars_cover(p: Seq<PatternRelationView>, i: int)
    requires
        0 <= i < p.len(),
    ensures
        element_vars(p[i].elements).subset_of(pattern_vars(p)),
    decreases p.len(),
{
    if i < p.len() - 1 {
        lemma_pattern_vars_cover(p.drop_last(), i);
    }
}

/// Extends the partial embedding `matched`, `binding` of the first `idx`
/// pattern relations in every possible way, appending each complete
/// embedding to `out`.
fn find_all_matches(
    pattern: &Pattern,
    hypergraph: &Hypergraph,
    idx: usize,
    binding: &Binding,
    matched: &mut Vec<RelationId>,
    candidates: &Vec<RelationId>,
    out: &mut Vec<PatternMatch>,
)
    requires
        hypergraph.wf(),
        idx <= pattern@.len(),
        old(matched)@.len() == idx,
        is_match(pattern@.take(idx as int), hypergraph@, old(matched)@, binding@),
        forall|k: u64| hypergraph@.relations.contains_key(k) ==> candidates@.contains(RelationId(k)),
        candidates@.no_duplicates(),
        forall|i: int, j: int| 0 <= i < j < candidates@.len() ==> candidates@[i].0 < candidates@[j].0,
    ensures
        forall|k1: int, k2: int|
            old(out)@.len() <= k1 < k2 < final(out)@.len() ==> lex_before(
                #[trigger] final(out)@[k1].matched_relations@,
                #[trigger] final(out)@[k2].matched_relations@,
            ),
        forall|k1: int, k2: int|
            old(out)@.len() <= k1 < k2 < final(out)@.len() ==> #[trigger] final(out)@[k1].matched_relations@
                != #[trigger] final(out)@[k2].matched_relations@,
        final(matched)@ == old(matched)@,
        final(out)@.len() >= old(out)@.len(),
        final(out)@.take(old(out)@.len() as int) == old(out)@,
        forall|k: int| old(out)@.len() <= k < final(out)@.len() ==> is_match(
            pattern@,
            hypergraph@,
            #[trigger] final(out)@[k].matched_relations@,
            final(out)@[k].binding@,
        ) && final(out)@[k].matched_relations@.take(idx as int) == old(matched)@,
        forall|rels: Seq<RelationId>, b: Map<Seq<char>, AtomId>|
            #[trigger] is_match(pattern@, hypergraph@, rels, b) && rels.take(idx as int) == old(matched)@
                && binding@.submap_of(b) ==> exists|k: int|
                old(out)@.len() <= k < final(out)@.len() && #[trigger] final(out)@[k].matched_relations@ == rels
                    && final(out)@[k].binding@ == b,
    decreases pattern@.len() - idx,
{
    let ghost p = pattern@;
    let ghost g = hypergraph@;
    let ghost m0 = matched@;
    let ghost o0 = out@;
    if idx == pattern.len() {
        let found = PatternMatch::new(binding.clone(), copy_relation_ids(matched));
        out.push(found);
        proof {
            assert(p.take(idx as int) =~= p);
            assert(out@.take(o0.len() as int) =~= o0);
            assert(m0.take(idx as int) =~= m0);
            assert forall|rels: Seq<RelationId>, b: Map<Seq<char>, AtomId>|
                #[trigger] is_match(p, g, rels, b) && rels.take(idx as int) == m0 && binding@.submap_of(b) implies exists|k: int|
                o0.len() <= k < out@.len() && #[trigger] out@[k].matched_relations@ == rels && out@[k].binding@ == b by {
                assert(rels =~= rels.take(idx as int));
                assert(b =~= binding@);
                assert(out@[o0.len() as int].matched_relations@ == rels);
            }
        }
        return;
    }
    let prs = pattern.relations();
    let pr = &prs[idx];
    proof {
        assert(pr@ == p[idx as int]);
        lemma_pattern_vars_take(p, idx as int);
        assert(p.take(idx + 1).drop_last() =~= p.take(idx as int));
    }
    let n = pattern.len();
    let mut c: usize = 0;
    while c < candidates.len()
        invariant
            0 <= c <= candidates@.len(),
            n == p.len(),
            hypergraph.wf(),
            p == pattern@,
            g == hypergraph@,
            idx < p.len(),
            pr@ == p[idx as int],
            pattern_vars(p.take(idx + 1)) == pattern_vars(p.take(idx as int)).union(element_vars(p[idx as int].elements)),
            matched@ == m0,
            m0.len() == idx,
            is_match(p.take(idx as int), g, m0, binding@),
            forall|k: u64| g.relations.contains_key(k) ==> candidates@.contains(RelationId(k)),
            candidates@.no_duplicates(),
            forall|i: int, j: int| 0 <= i < j < candidates@.len() ==> candidates@[i].0 < candidates@[j].0,
            forall|k1: int, k2: int|
                o0.len() <= k1 < k2 < out@.len() ==> lex_before(
                    #[trigger] out@[k1].matched_relations@,
                    #[trigger] out@[k2].matched_relations@,
                ),
            forall|k1: int, k2: int|
                o0.len() <= k1 < k2 < out@.len() ==> #[trigger] out@[k1].matched_relations@
                    != #[trigger] out@[k2].matched_relations@,
            forall|k: int| o0.len() <= k < out@.len() ==> candidates@.take(c as int).contains(
                #[trigger] out@[k].matched_relations@[idx as int]),
            out@.len() >= o0.len(),
            out@.take(o0.len() as int) == o0,
            forall|k: int| o0.len() <= k < out@.len() ==> is_match(p, g, #[trigger] out@[k].matched_relations@, out@[k].binding@)
                && out@[k].matched_relations@.take(idx as int) == m0,
            forall|rels: Seq<RelationId>, b: Map<Seq<char>, AtomId>|
                #[trigger] is_match(p, g, rels, b) && rels.take(idx as int) == m0 && binding@.submap_of(b)
                    && candidates@.take(c as int).contains(rels[idx as int]) ==> exists|k: int|
                    o0.len() <= k < out@.len() && #[trigger] out@[k].matched_relations@ == rels && out@[k].binding@ == b,
        decreases candidates@.len() - c,
    {
        let rid = candidates[c];
        let ghost out_before = out@;
        proof {
            crate::hypergraph::lemma_take_push(candidates@, c as int);
        }
        if !contains_relation_id(matched, rid) {
            match hypergraph.get_relation(rid) {
                Some(rel) => {
                    match try_match_relation(pr, rel, binding) {
                        Some(nb) => {
                            matched.push(rid);
                            proof {
                                let pt = p.take(idx + 1);
                                let ms = matched@;
                                assert(ms =~= m0.push(rid));
                                assert(ms.no_duplicates()) by {
                                    assert forall|i: int, j: int| 0 <= i < ms.len() && 0 <= j < ms.len() && i != j implies ms[i] != ms[j] by {
                                        if i < idx && j < idx {
                                            assert(m0[i] != m0[j]);
                                        } else if i == idx && j < idx {
                                            assert(m0.contains(m0[j]));
                                        } else if j == idx && i < idx {
                                            assert(m0.contains(m0[i]));
                                        }
                                    }
                                }
                                assert forall|i: int| 0 <= i < ms.len() implies g.relations.contains_key(#[trigger] ms[i].0) by {
                                    if i < idx {
                                        assert(m0[i] == ms[i]);
                                    }
                                }
                                assert forall|i: int| 0 <= i < ms.len() implies relation_fits(#[trigger] pt[i], g.relations[ms[i].0].atoms, nb@) by {
                                    if i < idx {
                                        assert(pt[i] == p.take(idx as int)[i]);
                                        assert(m0[i] == ms[i]);
                                        lemma_fits_grow(pt[i], g.relations[ms[i].0].atoms, binding@, nb@);
                                    }
                                }
                                assert(nb@.dom() =~= pattern_vars(pt));
                                assert(is_match(pt, g, ms, nb@));
                            }
                            find_all_matches(pattern, hypergraph, idx + 1, &nb, matched, candidates, out);
                            matched.pop();
                            proof {
                                assert(matched@ =~= m0);
                                assert forall|k: int| out_before.len() <= k < out@.len() implies #[trigger] out@[k].matched_relations@[idx as int] == rid by {
                                    let rs = out@[k].matched_relations@;
                                    assert(rs.take(idx + 1) == m0.push(rid));
                                    assert(rs.take(idx + 1)[idx as int] == rs[idx as int]);
                                }
                                assert(!candidates@.take(c as int).contains(rid)) by {
                                    if candidates@.take(c as int).contains(rid) {
                                        let j = choose|j: int| 0 <= j < c && candidates@.take(c as int)[j] == rid;
                                        assert(candidates@[j] == candidates@[c as int]);
                                    }
                                }
                                assert forall|k: int| o0.len() <= k < out@.len() implies candidates@.take(c + 1).contains(
                                    #[trigger] out@[k].matched_relations@[idx as int]) by {
                                    if k < out_before.len() {
                                        assert(out@.take(out_before.len() as int)[k] == out@[k]);
                                        assert(candidates@.take(c as int).contains(out_before[k].matched_relations@[idx as int]));
                                    } else {
                                        assert(candidates@.take(c + 1)[c as int] == rid);
                                    }
                                }
                                assert forall|k1: int, k2: int|
                                    o0.len() <= k1 < k2 < out@.len() implies lex_before(
                                        #[trigger] out@[k1].matched_relations@,
                                        #[trigger] out@[k2].matched_relations@,
                                    ) by {
                                    if k2 < out_before.len() {
                                        assert(out@.take(out_before.len() as int)[k1] == out@[k1]);
                                        assert(out@.take(out_before.len() as int)[k2] == out@[k2]);
                                        assert(lex_before(out_before[k1].matched_relations@, out_before[k2].matched_relations@));
                                    } else if k1 < out_before.len() {
                                        assert(out@.take(out_before.len() as int)[k1] == out@[k1]);
                                        let a = out@[k1].matched_relations@;
                                        let b2 = out@[k2].matched_relations@;
                                        assert(candidates@.take(c as int).contains(a[idx as int]));
                                        let cp = choose|cp: int| 0 <= cp < c && candidates@.take(c as int)[cp] == a[idx as int];
                                        assert(candidates@[cp] == a[idx as int]);
                                        assert(b2[idx as int] == rid);
                                        assert(a[idx as int].0 < b2[idx as int].0);
                                        assert(a.take(idx as int) == m0);
                                        assert(b2.take(idx as int) == m0);
                                        assert(lex_before(a, b2));
                                    } else {
                                        assert(lex_before(out@[k1].matched_relations@, out@[k2].matched_relations@));
                                    }
                                }
                                assert forall|k1: int, k2: int|
                                    o0.len() <= k1 < k2 < out@.len() implies #[trigger] out@[k1].matched_relations@
                                        != #[trigger] out@[k2].matched_relations@ by {
                                    if k2 < out_before.len() {
                                        assert(out@.take(out_before.len() as int)[k1] == out@[k1]);
                                        assert(out@.take(out_before.len() as int)[k2] == out@[k2]);
                                    } else if k1 < out_before.len() {
                                        assert(out@.take(out_before.len() as int)[k1] == out@[k1]);
                                        assert(candidates@.take(c as int).contains(out_before[k1].matched_relations@[idx as int]));
                                        assert(out@[k2].matched_relations@[idx as int] == rid);
                                    }
                                }
                                assert(out@.take(o0.len() as int) =~= o0) by {
                                    assert(out@.take(out_before.len() as int) == out_before);
                                    assert(out_before.take(o0.len() as int) == o0);
                                    assert forall|k: int| 0 <= k < o0.len() implies out@[k] == o0[k] by {
                                        assert(out@.take(out_before.len() as int)[k] == out@[k]);
                                        assert(out_before.take(o0.len() as int)[k] == out_before[k]);
                                    }
                                }
                                assert forall|k: int| o0.len() <= k < out@.len() implies is_match(p, g, #[trigger] out@[k].matched_relations@, out@[k].binding@)
                                    && out@[k].matched_relations@.take(idx as int) == m0 by {
                                    if k < out_before.len() {
                                        assert(out@.take(out_before.len() as int)[k] == out@[k]);
                                    } else {
                                        let rs = out@[k].matched_relations@;
                                        assert(rs.take(idx + 1) == m0.push(rid));
                                        assert(rs.take(idx as int) =~= rs.take(idx + 1).take(idx as int));
                                        assert(m0.push(rid).take(idx as int) =~= m0);
                                    }
                                }
                                assert forall|rels: Seq<RelationId>, b: Map<Seq<char>, AtomId>|
                                    #[trigger] is_match(p, g, rels, b) && rels.take(idx as int) == m0 && binding@.submap_of(b)
                                        && candidates@.take(c + 1).contains(rels[idx as int]) implies exists|k: int|
                                        o0.len() <= k < out@.len() && #[trigger] out@[k].matched_relations@ == rels && out@[k].binding@ == b by {
                                    if candidates@.take(c as int).contains(rels[idx as int]) {
                                        let k = choose|k: int|
                                            o0.len() <= k < out_before.len() && #[trigger] out_before[k].matched_relations@ == rels && out_before[k].binding@ == b;
                                        assert(out@.take(out_before.len() as int)[k] == out@[k]);
                                    } else {
                                        assert(rels[idx as int] == rid);
                                        assert(g.relations.contains_key(rels[idx as int].0));
                                        assert(relation_fits(p[idx as int], g.relations[rels[idx as int].0].atoms, b));
                                        lemma_pattern_vars_cover(p, idx as int);
                                        assert(rels.take(idx + 1) =~= m0.push(rid)) by {
                                            assert forall|i: int| 0 <= i < idx + 1 implies rels.take(idx + 1)[i] == m0.push(rid)[i] by {
                                                if i < idx {
                                                    assert(rels.take(idx as int)[i] == rels[i]);
                                                }
                                            }
                                        }
                                        assert(nb@.submap_of(b));
                                    }
                                }
                            }
                        },
                        None => {
                            proof {
                                assert forall|rels: Seq<RelationId>, b: Map<Seq<char>, AtomId>|
                                    #[trigger] is_match(p, g, rels, b) && rels.take(idx as int) == m0 && binding@.submap_of(b)
                                        && candidates@.take(c + 1).contains(rels[idx as int]) implies exists|k: int|
                                        o0.len() <= k < out@.len() && #[trigger] out@[k].matched_relations@ == rels && out@[k].binding@ == b by {
                                    if !candidates@.take(c as int).contains(rels[idx as int]) {
                                        assert(rels[idx as int] == rid);
                                        assert(relation_fits(p[idx as int], g.relations[rels[idx as int].0].atoms, b));
                                        lemma_pattern_vars_cover(p, idx as int);
                                    }
                                }
                            }
                        },
                    }
                },
                None => {},
            }
        } else {
            proof {
                assert forall|rels: Seq<RelationId>, b: Map<Seq<char>, AtomId>|
                    #[trigger] is_match(p, g, rels, b) && rels.take(idx as int) == m0 && binding@.submap_of(b)
                        && candidates@.take(c + 1).contains(rels[idx as int]) implies exists|k: int|
                        o0.len() <= k < out@.len() && #[trigger] out@[k].matched_relations@ == rels && out@[k].binding@ == b by {
                    if !candidates@.take(c as int).contains(rels[idx as int]) {
                        assert(rels[idx as int] == rid);
                        let j = choose|j: int| 0 <= j < m0.len() && m0[j] == rid;
                        assert(rels.take(idx as int)[j] == rels[j]);
                        assert(rels[j] == rels[idx as int]);
                    }
                }
            }
        }
        c = c + 1;
    }
    proof {
        assert(candidates@.take(candidates@.len() as int) =~= candidates@);
        assert forall|rels: Seq<RelationId>, b: Map<Seq<char>, AtomId>|
            #[trigger] is_match(p, g, rels, b) && rels.take(idx as int) == m0 && binding@.submap_of(b) implies exists|k: int|
            o0.len() <= k < out@.len() && #[trigger] out@[k].matched_relations@ == rels && out@[k].binding@ == b by {
            assert(g.relations.contains_key(rels[idx as int].0));
            assert(candidates@.contains(RelationId(rels[idx as int].0)));
        }
    }
}

/// Finds every embedding of `pattern` into `hypergraph`. An empty pattern
/// has no embedding.
pub fn find_pattern_matches(pattern: &Pattern, hypergraph: &Hypergraph) -> (r: Vec<PatternMatch>)
    requires
        hypergraph.wf(),
    ensures
        pattern@.len() == 0 ==> r@.len() == 0,
        forall|k: int| 0 <= k < r@.len() ==> is_match(pattern@, hypergraph@, #[trigger] r@[k].matched_relations@, r@[k].binding@),
        pattern@.len() > 0 ==> forall|rels: Seq<RelationId>, b: Map<Seq<char>, AtomId>|
            #[trigger] is_match(pattern@, hypergraph@, rels, b) ==> exists|k: int|
                0 <= k < r@.len() && #[trigger] r@[k].matched_relations@ == rels && r@[k].binding@ == b,
        forall|k1: int, k2: int|
            0 <= k1 < k2 < r@.len() ==> #[trigger] r@[k1].matched_relations@ != #[trigger] r@[k2].matched_relations@,
        forall|k1: int, k2: int|
            0 <= k1 < k2 < r@.len() ==> lex_before(#[trigger] r@[k1].matched_relations@, #[trigger] r@[k2].matched_relations@),
{
    let mut out: Vec<PatternMatch> = Vec::new();
    if pattern.is_empty() {
        return out;
    }
    let candidates = hypergraph.relation_ids();
    assert(candidates@.no_duplicates()) by {
        assert forall|i: int, j: int| 0 <= i < candidates@.len() && 0 <= j < candidates@.len() && i != j implies candidates@[i]
            != candidates@[j] by {
            if i < j {
                assert(candidates@[i].0 < candidates@[j].0);
            } else {
                assert(candidates@[j].0 < candidates@[i].0);
            }
        }
    }
    let binding = Binding::new();
    let mut matched: Vec<RelationId> = Vec::new();
    proof {
        assert(pattern@.take(0) =~= Seq::<PatternRelationView>::empty());
        assert(binding@.dom() =~= pattern_vars(pattern@.take(0)));
    }
    find_all_matches(pattern, hypergraph, 0, &binding, &mut matched, &candidates, &mut out);
    proof {
        assert forall|rels: Seq<RelationId>, b: Map<Seq<char>, AtomId>|
            #[trigger] is_match(pattern@, hypergraph@, rels, b) implies exists|k: int|
                0 <= k < out@.len() && #[trigger] out@[k].matched_relations@ == rels && out@[k].binding@ == b by {
            assert(rels.take(0) =~= Seq::<RelationId>::empty());
            assert(binding@.submap_of(b));
        }
    }
    out
}

} // verus!
