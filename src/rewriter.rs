use vstd::prelude::*;
use crate::atom::{AtomId, AtomView};
use crate::relation::{RelationId, RelationView};
use crate::hypergraph::{Hypergraph, HypergraphView};
use crate::pattern::{Binding, ElementView, Pattern, PatternElement, PatternRelationView};
use crate::matching::{PatternMatch, is_match, find_pattern_matches};
use crate::rule::Rule;

verus! {

/// The elements of a pattern, relation after relation, in order.
pub open spec fn flatten(p: Seq<PatternRelationView>) -> Seq<ElementView>
    decreases p.len(),
{
    if p.len() == 0 {
        Seq::empty()
    } else {
        flatten(p.drop_last()) + p.last().elements
    }
}

/// The variables of `es` that `b` leaves unbound, each once, in order of
/// first occurrence.
pub open spec fn new_vars(es: Seq<ElementView>, b: Map<Seq<char>, AtomId>) -> Seq<Seq<char>>
    decreases es.len(),
{
    if es.len() == 0 {
        Seq::empty()
    } else {
        let r = new_vars(es.drop_last(), b);
        match es.last() {
            ElementView::Var(v) => if b.contains_key(v) || r.contains(v) {
                r
            } else {
                r.push(v)
            },
            ElementView::Atom(_) => r,
        }
    }
}

/// The atom that element `e` of a replacement stands for: a concrete atom
/// itself, a bound variable its atom, and the `k`-th unbound variable of
/// `fresh` the `k`-th atom minted from `start` on.
pub open spec fn resolve(e: ElementView, b: Map<Seq<char>, AtomId>, fresh: Seq<Seq<char>>, start: u64) -> AtomId {
    match e {
        ElementView::Atom(a) => a,
        ElementView::Var(v) => if b.contains_key(v) {
            b[v]
        } else {
            AtomId((start + fresh.index_of(v)) as u64)
        },
    }
}

/// The atoms of the relation that replacement relation `p` becomes.
pub open spec fn resolved(p: PatternRelationView, b: Map<Seq<char>, AtomId>, fresh: Seq<Seq<char>>, start: u64) -> Seq<AtomId> {
    p.elements.map_values(|e: ElementView| resolve(e, b, fresh, start))
}

/// The atoms minted by a rewrite: ids `start .. start + n`, without metadata.
pub open spec fn minted_atoms(start: u64, n: int) -> Map<u64, AtomView> {
    Map::new(|a: u64| start <= a < start + n, |a: u64| AtomView { id: a, metadata: None })
}

/// The first `n` relations inserted by a rewrite with replacement `rep`:
/// ids `start .. start + n`.
pub open spec fn inserted_relations(
    rep: Seq<PatternRelationView>,
    b: Map<Seq<char>, AtomId>,
    fresh: Seq<Seq<char>>,
    atom_start: u64,
    start: u64,
    n: int,
) -> Map<u64, RelationView> {
    Map::new(
        |r: u64| start <= r < start + n,
        |r: u64|
            RelationView {
                id: r,
                atoms: resolved(rep[r - start], b, fresh, atom_start),
                metadata: rep[r - start].metadata,
            },
    )
}

/// The raw ids of a sequence of relation ids.
pub open spec fn raw_ids(rels: Seq<RelationId>) -> Seq<u64> {
    rels.map_values(|r: RelationId| r.0)
}

/// The raw ids of a sequence of relation ids, as a set.
pub open spec fn id_set(rels: Seq<RelationId>) -> Set<u64> {
    raw_ids(rels).to_set()
}

/// `after` is `before` rewritten by replacement `rep` at the match `rels`,
/// `b`: the matched relations are gone, one atom is minted per unbound
/// variable of `rep` (listed in `new_atoms`), and one relation is inserted
/// per relation of `rep` (listed in `new_relations`).
pub open spec fn rewritten(
    before: HypergraphView,
    after: HypergraphView,
    rep: Seq<PatternRelationView>,
    rels: Seq<RelationId>,
    b: Map<Seq<char>, AtomId>,
    new_atoms: Seq<AtomId>,
    new_relations: Seq<RelationId>,
) -> bool {
    let fresh = new_vars(flatten(rep), b);
    &&& new_atoms.len() == fresh.len()
    &&& forall|i: int| 0 <= i < new_atoms.len() ==> #[trigger] new_atoms[i].0 == before.next_atom_id + i
    &&& new_relations.len() == rep.len()
    &&& forall|i: int| 0 <= i < new_relations.len() ==> #[trigger] new_relations[i].0 == before.next_relation_id + i
    &&& after.atoms == before.atoms.union_prefer_right(minted_atoms(before.next_atom_id, fresh.len() as int))
    &&& after.relations == before.relations.remove_keys(id_set(rels)).union_prefer_right(
        inserted_relations(rep, b, fresh, before.next_atom_id, before.next_relation_id, rep.len() as int),
    )
    &&& after.next_atom_id == before.next_atom_id + fresh.len()
    &&& after.next_relation_id == before.next_relation_id + rep.len()
}

/// Every concrete atom of `rep` and every atom that `b` assigns is stored
/// in `g`, and both counters have room for what a rewrite mints.
pub open spec fn can_rewrite(g: HypergraphView, rep: Seq<PatternRelationView>, b: Map<Seq<char>, AtomId>) -> bool {
    &&& forall|a: AtomId| #[trigger] flatten(rep).contains(ElementView::Atom(a)) ==> g.atoms.contains_key(a.0)
    &&& forall|v: Seq<char>| #[trigger] b.contains_key(v) ==> g.atoms.contains_key(b[v].0)
    &&& g.next_atom_id + flatten(rep).len() <= u64::MAX
    &&& g.next_relation_id + rep.len() <= u64::MAX
}

/// The outcome of applying a rule at one match.
#[derive(Debug, Clone, PartialEq, Eq)]
pub struct RewriteResult {
    pub success: bool,
    pub new_atoms: Vec<AtomId>,
    pub new_relations: Vec<RelationId>,
    pub removed_relations: Vec<RelationId>,
    pub error_message: Option<String>,
}

impl RewriteResult {
    /// A successful outcome with the given lists.
    pub fn success(new_atoms: Vec<AtomId>, new_relations: Vec<RelationId>, removed_relations: Vec<RelationId>) -> (r:
        RewriteResult)
        ensures
            r.success,
            r.new_atoms@ == new_atoms@,
            r.new_relations@ == new_relations@,
            r.removed_relations@ == removed_relations@,
            r.error_message is None,
    {
        RewriteResult { success: true, new_atoms, new_relations, removed_relations, error_message: None }
    }

    /// A failed outcome carrying a diagnostic message.
    pub fn failure(error_message: String) -> (r: RewriteResult)
        ensures
            !r.success,
            r.new_atoms@.len() == 0,
            r.new_relations@.len() == 0,
            r.removed_relations@.len() == 0,
            r.error_message == Some(error_message),
    {
        RewriteResult {
            success: false,
            new_atoms: Vec::new(),
            new_relations: Vec::new(),
            removed_relations: Vec::new(),
            error_message: Some(error_message),
        }
    }
}

proof fn lemma_flatten_push(p: Seq<PatternRelationView>, i: int)
    requires
        0 <= i < p.len(),
    ensures
        flatten(p.take(i + 1)) == flatten(p.take(i)) + p[i].elements,
{
    assert(p.take(i + 1).drop_last() =~= p.take(i));
}

proof fn lemma_new_vars_facts(es: Seq<ElementView>, b: Map<Seq<char>, AtomId>)
    ensures
        new_vars(es, b).no_duplicates(),
        new_vars(es, b).len() <= es.len(),
        forall|v: Seq<char>| #[trigger] new_vars(es, b).contains(v) <==> (es.contains(ElementView::Var(v)) && !b.contains_key(v)),
    decreases es.len(),
{
    if es.len() > 0 {
        let t = es.drop_last();
        let x = es.last();
        lemma_new_vars_facts(t, b);
        let r = new_vars(t, b);
        assert(es =~= t.push(x));
        crate::hypergraph::lemma_push_contains(t, x);
        match x {
            ElementView::Var(w) => {
                if !(b.contains_key(w) || r.contains(w)) {
                    let s = r.push(w);
                    crate::hypergraph::lemma_push_contains(r, w);
                    assert forall|i: int, j: int| 0 <= i < s.len() && 0 <= j < s.len() && i != j implies s[i] != s[j] by {
                        if i < r.len() && j < r.len() {
                            assert(s[i] == r[i] && s[j] == r[j]);
                        } else if i == r.len() {
                            assert(s[j] == r[j]);
                            assert(r.contains(r[j]));
                        } else {
                            assert(s[i] == r[i]);
                            assert(r.contains(r[i]));
                        }
                    }
                }
                assert(es.drop_last() =~= t);
                if b.contains_key(w) || r.contains(w) {
                    assert(new_vars(es, b) == r);
                } else {
                    assert(new_vars(es, b) == r.push(w));
                    crate::hypergraph::lemma_push_contains(r, w);
                }
                assert forall|v: Seq<char>| #[trigger] new_vars(es, b).contains(v) <==> (es.contains(ElementView::Var(v))
                    && !b.contains_key(v)) by {
                    assert(t.push(x).contains(ElementView::Var(v)) <==> (t.contains(ElementView::Var(v)) || ElementView::Var(v) == x));
                    assert(es.contains(ElementView::Var(v)) <==> (t.contains(ElementView::Var(v)) || v == w));
                    assert(r.contains(v) <==> (t.contains(ElementView::Var(v)) && !b.contains_key(v)));
                    if !(b.contains_key(w) || r.contains(w)) {
                        assert(r.push(w).contains(v) <==> (r.contains(v) || v == w));
                    }
                }
            },
            ElementView::Atom(a) => {
                assert(es.drop_last() =~= t);
                assert(new_vars(es, b) == r);
                assert forall|v: Seq<char>| #[trigger] new_vars(es, b).contains(v) <==> (es.contains(ElementView::Var(v))
                    && !b.contains_key(v)) by {
                    assert(es.contains(ElementView::Var(v)) <==> t.contains(ElementView::Var(v)));
                }
            },
        }
    }
}

proof fn lemma_flatten_contains(p: Seq<PatternRelationView>, i: int, k: int)
    requires
        0 <= i < p.len(),
        0 <= k < p[i].elements.len(),
    ensures
        flatten(p).contains(p[i].elements[k]),
    decreases p.len(),
{
    let t = p.drop_last();
    if i < p.len() - 1 {
        lemma_flatten_contains(t, i, k);
        let j = choose|j: int| 0 <= j < flatten(t).len() && flatten(t)[j] == t[i].elements[k];
        assert(flatten(p)[j] == flatten(t)[j]);
    } else {
        assert(flatten(p)[flatten(t).len() + k] == p[i].elements[k]);
    }
}

proof fn lemma_index_of_unique(s: Seq<Seq<char>>, i: int)
    requires
        s.no_duplicates(),
        0 <= i < s.len(),
    ensures
        s.index_of(s[i]) == i,
{
    assert(s.contains(s[i]));
    let k = s.index_of(s[i]);
    assert(0 <= k < s.len() && s[k] == s[i]);
}

/// Lists the elements of a pattern, relation after relation.
pub fn flat_elements(p: &Pattern) -> (r: Vec<PatternElement>)
    ensures
        r@.map_values(|e: PatternElement| e@) == flatten(p@),
{
    let rels = p.relations();
    let ghost pv = p@;
    let mut out: Vec<PatternElement> = Vec::new();
    let mut i: usize = 0;
    while i < rels.len()
        invariant
            0 <= i <= rels@.len(),
            rels@.map_values(|r: crate::pattern::PatternRelation| r@) == pv,
            out@.map_values(|e: PatternElement| e@) == flatten(pv.take(i as int)),
        decreases rels@.len() - i,
    {
        let es = rels[i].elements();
        let ghost done = out@.map_values(|e: PatternElement| e@);
        proof {
            lemma_flatten_push(pv, i as int);
            assert(rels@[i as int]@ == pv[i as int]);
        }
        let mut j: usize = 0;
        while j < es.len()
            invariant
                0 <= j <= es@.len(),
                out@.map_values(|e: PatternElement| e@) == done + es@.map_values(|e: PatternElement| e@).take(j as int),
            decreases es@.len() - j,
        {
            let ghost before = out@;
            let e = es[j].clone();
            out.push(e);
            proof {
                let ev = es@.map_values(|e: PatternElement| e@);
                assert(ev.take(j + 1) =~= ev.take(j as int).push(ev[j as int]));
                assert(out@.map_values(|e: PatternElement| e@) =~= before.map_values(|e: PatternElement| e@).push(e@));
                assert(out@.map_values(|e: PatternElement| e@) =~= done + ev.take(j + 1));
            }
            j = j + 1;
        }
        proof {
            assert(es@.map_values(|e: PatternElement| e@).take(es@.len() as int) =~= es@.map_values(|e: PatternElement| e@));
        }
        i = i + 1;
    }
    proof {
        assert(pv.take(rels@.len() as int) =~= pv);
    }
    out
}

/// `after` is `before` with the matched relations `rels` taken out in order
/// up to the first one that is not stored (or is listed twice), which is
/// where the rewrite stopped; nothing else changed.
pub open spec fn stopped_at_missing(before: HypergraphView, after: HypergraphView, rels: Seq<RelationId>) -> bool {
    exists|k: int|
        0 <= k < rels.len() && (forall|j: int| 0 <= j < k ==> before.relations.contains_key(#[trigger] rels[j].0))
            && rels.take(k).no_duplicates() && (!before.relations.contains_key(rels[k].0) || rels.take(k).contains(rels[k]))
            && after == (HypergraphView { relations: before.relations.remove_keys(id_set(#[trigger] rels.take(k))), ..before })
}

/// No match of `p` in `g` comes before the relations `rels` in the
/// lexicographic order of relation ids.
pub open spec fn least_match(p: Seq<PatternRelationView>, g: HypergraphView, rels: Seq<RelationId>) -> bool {
    forall|rels2: Seq<RelationId>, b2: Map<Seq<char>, AtomId>|
        #[trigger] is_match(p, g, rels2, b2) ==> rels2 == rels || crate::matching::lex_before(rels, rels2)
}

/// Tells whether every atom that a rewrite by `rule` at `binding` refers
/// to is stored and both counters have room for what it mints.
pub fn can_rewrite_check(hypergraph: &Hypergraph, rule: &Rule, binding: &Binding) -> (r: bool)
    requires
        hypergraph.wf(),
    ensures
        r == can_rewrite(hypergraph@, rule.replacement@, binding@),
{
    if !rule_ready_check(hypergraph, rule) {
        return false;
    }
    let ps = binding.pairs();
    let mut i: usize = 0;
    while i < ps.len()
        invariant
            0 <= i <= ps@.len(),
            hypergraph.wf(),
            rule_ready(hypergraph@, *rule),
            forall|k: int| 0 <= k < ps@.len() ==> binding@.contains_key(#[trigger] ps@[k].0@) && binding@[ps@[k].0@] == ps@[k].1,
            forall|v: Seq<char>| #[trigger] binding@.contains_key(v) ==> exists|k: int| 0 <= k < ps@.len() && ps@[k].0@ == v,
            forall|k: int| 0 <= k < i ==> hypergraph@.atoms.contains_key(#[trigger] ps@[k].1.0),
        decreases ps@.len() - i,
    {
        if !hypergraph.contains_atom(ps[i].1) {
            proof {
                assert(binding@.contains_key(ps@[i as int].0@));
                assert(binding@[ps@[i as int].0@] == ps@[i as int].1);
            }
            return false;
        }
        i = i + 1;
    }
    proof {
        assert forall|v: Seq<char>| #[trigger] binding@.contains_key(v) implies hypergraph@.atoms.contains_key(binding@[v].0) by {
            let k = choose|k: int| 0 <= k < ps@.len() && ps@[k].0@ == v;
            assert(hypergraph@.atoms.contains_key(ps@[k].1.0));
        }
    }
    true
}

/// Every matched relation is stored and none is listed twice.
pub open spec fn matched_present(g: HypergraphView, rels: Seq<RelationId>) -> bool {
    rels.no_duplicates() && forall|i: int| 0 <= i < rels.len() ==> g.relations.contains_key(#[trigger] rels[i].0)
}

/// Tells whether every matched relation is stored and none is listed twice.
pub fn matched_present_check(hypergraph: &Hypergraph, rels: &Vec<RelationId>) -> (r: bool)
    requires
        hypergraph.wf(),
    ensures
        r == matched_present(hypergraph@, rels@),
{
    let mut i: usize = 0;
    while i < rels.len()
        invariant
            0 <= i <= rels@.len(),
            hypergraph.wf(),
            rels@.take(i as int).no_duplicates(),
            forall|k: int| 0 <= k < i ==> hypergraph@.relations.contains_key(#[trigger] rels@[k].0),
        decreases rels@.len() - i,
    {
        if !hypergraph.contains_relation(rels[i]) {
            return false;
        }
        let mut j: usize = 0;
        while j < i
            invariant
                0 <= j <= i < rels@.len(),
                forall|k: int| 0 <= k < j ==> rels@[k] != rels@[i as int],
            decreases i - j,
        {
            if rels[j] == rels[i] {
                proof {
                    assert(rels@[j as int] == rels@[i as int]);
                }
                return false;
            }
            j = j + 1;
        }
        proof {
            let t = rels@.take(i + 1);
            assert forall|x: int, y: int| 0 <= x < t.len() && 0 <= y < t.len() && x != y implies t[x] != t[y] by {
                if x < i && y < i {
                    assert(rels@.take(i as int)[x] == t[x] && rels@.take(i as int)[y] == t[y]);
                }
            }
        }
        i = i + 1;
    }
    proof {
        assert(rels@.take(rels@.len() as int) =~= rels@);
    }
    true
}

/// Applies `rule` to `hypergraph` at `pattern_match`: removes the matched
/// relations, mints one atom for each variable of the replacement that the
/// match leaves unbound, and inserts the replacement relations.
///
/// Fails when a matched relation is not stored (or is listed twice): the
/// relations are removed in order up to that one, and those removed stay
/// removed. When every matched relation is there but the replacement or the
/// binding names an atom that is not stored, or the counters would run out,
/// it fails without changing anything.
pub fn apply_rule(hypergraph: &mut Hypergraph, rule: &Rule, pattern_match: &PatternMatch) -> (r: RewriteResult)
    requires
        old(hypergraph).wf(),
    ensures
        final(hypergraph).wf(),
        r.success <==> (matched_present(old(hypergraph)@, pattern_match.matched_relations@) && can_rewrite(
            old(hypergraph)@,
            rule.replacement@,
            pattern_match.binding@,
        )),
        r.success ==> r.removed_relations@ == pattern_match.matched_relations@ && rewritten(
            old(hypergraph)@,
            final(hypergraph)@,
            rule.replacement@,
            pattern_match.matched_relations@,
            pattern_match.binding@,
            r.new_atoms@,
            r.new_relations@,
        ),
        !r.success ==> r.error_message is Some && r.new_atoms@.len() == 0 && r.new_relations@.len() == 0
            && r.removed_relations@.len() == 0,
        !matched_present(old(hypergraph)@, pattern_match.matched_relations@) ==> stopped_at_missing(
            old(hypergraph)@,
            final(hypergraph)@,
            pattern_match.matched_relations@,
        ),
        !r.success && matched_present(old(hypergraph)@, pattern_match.matched_relations@)
            ==> final(hypergraph)@ == old(hypergraph)@,
{
    if matched_present_check(hypergraph, &pattern_match.matched_relations) && !can_rewrite_check(
        hypergraph,
        rule,
        &pattern_match.binding,
    ) {
        return RewriteResult::failure("the rewrite names an atom that is not stored or runs out of ids".to_owned());
    }
    rewrite_at(hypergraph, rule, pattern_match)
}

/// Applies `rule` at `pattern_match` once every atom it needs is known to
/// be stored and the counters have room.
fn rewrite_at(hypergraph: &mut Hypergraph, rule: &Rule, pattern_match: &PatternMatch) -> (r: RewriteResult)
    requires
        old(hypergraph).wf(),
        matched_present(old(hypergraph)@, pattern_match.matched_relations@) ==> can_rewrite(
            old(hypergraph)@,
            rule.replacement@,
            pattern_match.binding@,
        ),
    ensures
        final(hypergraph).wf(),
        r.success <==> (pattern_match.matched_relations@.no_duplicates() && forall|i: int|
            0 <= i < pattern_match.matched_relations@.len() ==> old(hypergraph)@.relations.contains_key(
                #[trigger] pattern_match.matched_relations@[i].0,
            )),
        r.success ==> r.removed_relations@ == pattern_match.matched_relations@ && rewritten(
            old(hypergraph)@,
            final(hypergraph)@,
            rule.replacement@,
            pattern_match.matched_relations@,
            pattern_match.binding@,
            r.new_atoms@,
            r.new_relations@,
        ),
        !r.success ==> r.error_message is Some && r.new_atoms@.len() == 0 && r.new_relations@.len() == 0
            && r.removed_relations@.len() == 0 && stopped_at_missing(
            old(hypergraph)@,
            final(hypergraph)@,
            pattern_match.matched_relations@,
        ),
{
    let ghost g0 = hypergraph@;
    let ghost ms = pattern_match.matched_relations@;
    let ghost b = pattern_match.binding@;
    let ghost rep = rule.replacement@;
    let matched = &pattern_match.matched_relations;
    // Step 1: take out the matched relations.
    let mut removed: Vec<RelationId> = Vec::new();
    let mut i: usize = 0;
    proof {
        assert(raw_ids(ms.take(0)) =~= Seq::<u64>::empty());
        assert(id_set(ms.take(0)) =~= Set::<u64>::empty());
        assert(g0.relations.remove_keys(id_set(ms.take(0))) =~= g0.relations);
    }
    while i < matched.len()
        invariant
            0 <= i <= ms.len(),
            matched@ == ms,
            ms == pattern_match.matched_relations@,
            g0 == old(hypergraph)@,
            hypergraph.wf(),
            removed@ == ms.take(i as int),
            ms.take(i as int).no_duplicates(),
            forall|k: int| 0 <= k < i ==> g0.relations.contains_key(#[trigger] ms[k].0),
            hypergraph@ == (HypergraphView { relations: g0.relations.remove_keys(id_set(ms.take(i as int))), ..g0 }),
        decreases ms.len() - i,
    {
        let rid = matched[i];
        proof {
            crate::hypergraph::lemma_take_push(ms, i as int);
            assert(ms.take(i + 1) =~= ms.take(i as int).push(rid));
            assert(raw_ids(ms.take(i + 1)) =~= raw_ids(ms.take(i as int)).push(rid.0));
        }
        let ghost before = hypergraph@;
        match hypergraph.remove_relation(rid) {
            Some(_) => {
                removed.push(rid);
                proof {
                    let t = ms.take(i as int);
                    assert(!t.contains(rid)) by {
                        if t.contains(rid) {
                            let k = choose|k: int| 0 <= k < t.len() && #[trigger] t[k] == rid;
                            assert(raw_ids(t)[k] == rid.0);
                            assert(id_set(t).contains(rid.0));
                        }
                    }
                    let t2 = ms.take(i + 1);
                    assert(t2.no_duplicates()) by {
                        assert forall|x: int, y: int| 0 <= x < t2.len() && 0 <= y < t2.len() && x != y implies t2[x] != t2[y] by {
                            if x < i && y < i {
                                assert(t[x] != t[y]);
                            } else if x == i {
                                assert(t.contains(t2[y]));
                            } else {
                                assert(t.contains(t2[x]));
                            }
                        }
                    }
                    assert(id_set(t2) =~= id_set(t).insert(rid.0)) by {
                        assert(raw_ids(t2) =~= raw_ids(t).push(rid.0));
                        crate::hypergraph::lemma_push_contains(raw_ids(t), rid.0);
                    }
                    assert(hypergraph@.relations =~= g0.relations.remove_keys(id_set(t2)));
                }
            },
            None => {
                proof {
                    assert(hypergraph@.relations =~= before.relations);
                    assert(hypergraph@ == (HypergraphView { relations: g0.relations.remove_keys(id_set(ms.take(i as int))), ..g0 }));
                    assert(pattern_match.matched_relations@.take(i as int) == ms.take(i as int));
                    assert(!(pattern_match.matched_relations@.no_duplicates() && forall|k: int|
                        0 <= k < pattern_match.matched_relations@.len() ==> g0.relations.contains_key(
                            #[trigger] pattern_match.matched_relations@[k].0))) by {
                        if pattern_match.matched_relations@.no_duplicates() && forall|k: int|
                            0 <= k < pattern_match.matched_relations@.len() ==> g0.relations.contains_key(
                                #[trigger] pattern_match.matched_relations@[k].0) {
                            assert(g0.relations.contains_key(pattern_match.matched_relations@[i as int].0));
                        }
                    }
                    assert(!(ms.no_duplicates() && forall|k: int| 0 <= k < ms.len() ==> g0.relations.contains_key(#[trigger] ms[k].0))) by {
                        if ms.no_duplicates() && forall|k: int| 0 <= k < ms.len() ==> g0.relations.contains_key(#[trigger] ms[k].0) {
                            assert(g0.relations.contains_key(ms[i as int].0));
                            assert(id_set(ms.take(i as int)).contains(rid.0));
                            let t = ms.take(i as int);
                            assert(raw_ids(t).contains(rid.0));
                            let k = choose|k: int| 0 <= k < t.len() && #[trigger] raw_ids(t)[k] == rid.0;
                            assert(ms[k] == t[k]);
                            assert(ms[k] == ms[i as int]);
                        }
                    }
                }
                proof {
                    let t = ms.take(i as int);
                    assert(t == pattern_match.matched_relations@.take(i as int));
                    assert(!g0.relations.contains_key(rid.0) || t.contains(rid)) by {
                        if g0.relations.contains_key(rid.0) {
                            assert(id_set(t).contains(rid.0));
                            assert(raw_ids(t).contains(rid.0));
                            let k = choose|k: int| 0 <= k < t.len() && #[trigger] raw_ids(t)[k] == rid.0;
                            assert(t[k].0 == rid.0);
                            assert(t[k] == rid);
                        }
                    }
                    assert(stopped_at_missing(g0, hypergraph@, ms));
                }
                return RewriteResult::failure("a matched relation is no longer stored".to_owned());
            },
        }
        i = i + 1;
    }
    proof {
        assert(ms.take(ms.len() as int) =~= ms);
        assert(matched_present(g0, ms));
        assert(can_rewrite(g0, rep, b));
    }
    let ghost g1 = hypergraph@;
    // Step 2: mint one atom for each unbound variable of the replacement.
    let flat = flat_elements(&rule.replacement);
    let ghost fl = flatten(rep);
    let ghost start_a = g1.next_atom_id;
    let mut fresh = Binding::new();
    let mut new_atoms: Vec<AtomId> = Vec::new();
    let mut j: usize = 0;
    proof {
        lemma_new_vars_facts(fl, b);
        assert(fl.take(0) =~= Seq::<ElementView>::empty());
        assert(new_vars(fl.take(0), b) =~= Seq::<Seq<char>>::empty());
        assert(fresh@.dom() =~= new_vars(fl.take(0), b).to_set());
        assert(g1.atoms.union_prefer_right(minted_atoms(start_a, 0)) =~= g1.atoms);
    }
    while j < flat.len()
        invariant
            0 <= j <= fl.len(),
            flat@.map_values(|e: PatternElement| e@) == fl,
            hypergraph.wf(),
            g1 == (HypergraphView { relations: g0.relations.remove_keys(id_set(ms)), ..g0 }),
            can_rewrite(g0, rep, b),
            fl == flatten(rep),
            start_a == g0.next_atom_id,
            new_atoms@.len() == new_vars(fl.take(j as int), b).len(),
            new_vars(fl.take(j as int), b).len() <= j,
            new_vars(fl.take(j as int), b).no_duplicates(),
            forall|k: int| 0 <= k < new_atoms@.len() ==> #[trigger] new_atoms@[k].0 == start_a + k,
            fresh@.dom() == new_vars(fl.take(j as int), b).to_set(),
            forall|k: int| 0 <= k < new_atoms@.len() ==> fresh@[#[trigger] new_vars(fl.take(j as int), b)[k]] == new_atoms@[k],
            hypergraph@.atoms == g1.atoms.union_prefer_right(minted_atoms(start_a, new_atoms@.len() as int)),
            hypergraph@.next_atom_id == start_a + new_atoms@.len(),
            hypergraph@.relations == g1.relations,
            hypergraph@.next_relation_id == g1.next_relation_id,
            pattern_match.binding@ == b,
        decreases fl.len() - j,
    {
        let ghost nv0 = new_vars(fl.take(j as int), b);
        proof {
            assert(fl.take(j + 1).drop_last() =~= fl.take(j as int));
            assert(fl.take(j + 1).last() == fl[j as int]);
            assert(flat@[j as int]@ == fl[j as int]);
            lemma_new_vars_facts(fl.take(j + 1), b);
            lemma_new_vars_facts(fl.take(j as int), b);
        }
        match &flat[j] {
            PatternElement::Variable(v) => {
                if !pattern_match.binding.is_bound(v) && !fresh.is_bound(v) {
                    let ghost before = hypergraph@;
                    let id = hypergraph.create_atom();
                    fresh.bind(v.clone(), id);
                    new_atoms.push(id);
                    proof {
                        let nv1 = new_vars(fl.take(j + 1), b);
                        assert(!nv0.contains(v@)) by {
                            if nv0.contains(v@) {
                                assert(nv0.to_set().contains(v@));
                            }
                        }
                        assert(nv1 == nv0.push(v@));
                        crate::hypergraph::lemma_push_contains(nv0, v@);
                        assert(fresh@.dom() =~= nv1.to_set());
                        assert forall|k: int| 0 <= k < new_atoms@.len() implies fresh@[#[trigger] nv1[k]] == new_atoms@[k] by {
                            if k < nv0.len() {
                                assert(nv1[k] == nv0[k]);
                                assert(nv0.to_set().contains(nv0[k]));
                            }
                        }
                        assert(hypergraph@.atoms =~= g1.atoms.union_prefer_right(minted_atoms(start_a, new_atoms@.len() as int)));
                    }
                } else {
                    proof {
                        if !pattern_match.binding@.contains_key(v@) {
                            assert(nv0.to_set().contains(v@));
                            assert(nv0.contains(v@));
                        }
                    }
                }
            },
            PatternElement::Atom(_) => {},
        }
        j = j + 1;
    }
    proof {
        assert(fl.take(fl.len() as int) =~= fl);
    }
    let ghost fresh_vars = new_vars(fl, b);
    proof {
        lemma_new_vars_facts(fl, b);
        assert forall|k: int| 0 <= k < fresh_vars.len() implies fresh@[#[trigger] fresh_vars[k]] == AtomId((start_a + k) as u64) by {
            assert(new_atoms@[k].0 == start_a + k);
        }
    }
    let ghost g2 = hypergraph@;
    // Step 3: insert the replacement relations.
    let rels = rule.replacement.relations();
    let ghost start_r = g2.next_relation_id;
    let mut new_relations: Vec<RelationId> = Vec::new();
    let mut i: usize = 0;
    proof {
        assert(g1.relations.union_prefer_right(inserted_relations(rep, b, fresh_vars, start_a, start_r, 0)) =~= g1.relations);
    }
    while i < rels.len()
        invariant
            0 <= i <= rels@.len(),
            rels@.map_values(|r: crate::pattern::PatternRelation| r@) == rep,
            hypergraph.wf(),
            can_rewrite(g0, rep, b),
            fl == flatten(rep),
            fresh_vars == new_vars(fl, b),
            fresh_vars.no_duplicates(),
            fresh_vars.len() <= fl.len(),
            forall|v: Seq<char>| #[trigger] fresh_vars.contains(v) <==> (fl.contains(ElementView::Var(v)) && !b.contains_key(v)),
            new_atoms@.len() == fresh_vars.len(),
            fresh@.dom() == fresh_vars.to_set(),
            forall|k: int| 0 <= k < fresh_vars.len() ==> fresh@[#[trigger] fresh_vars[k]] == AtomId((start_a + k) as u64),
            g1.atoms == g0.atoms,
            g1.relations == g0.relations.remove_keys(id_set(ms)),
            start_a == g0.next_atom_id,
            start_r == g0.next_relation_id,
            pattern_match.binding@ == b,
            new_relations@.len() == i,
            forall|k: int| 0 <= k < i ==> #[trigger] new_relations@[k].0 == start_r + k,
            hypergraph@.atoms == g0.atoms.union_prefer_right(minted_atoms(start_a, fresh_vars.len() as int)),
            hypergraph@.next_atom_id == start_a + fresh_vars.len(),
            hypergraph@.relations == g1.relations.union_prefer_right(inserted_relations(rep, b, fresh_vars, start_a, start_r, i as int)),
            hypergraph@.next_relation_id == start_r + i,
        decreases rels@.len() - i,
    {
        let es = rels[i].elements();
        let ghost pr = rep[i as int];
        proof {
            assert(rels@[i as int]@ == pr);
        }
        let mut atoms: Vec<AtomId> = Vec::new();
        let mut k: usize = 0;
        while k < es.len()
            invariant
                0 <= k <= es@.len(),
                0 <= i < rep.len(),
                pr == rep[i as int],
                es@.map_values(|e: PatternElement| e@) == pr.elements,
                atoms@ == resolved(pr, b, fresh_vars, start_a).take(k as int),
                forall|x: int| 0 <= x < k ==> hypergraph@.atoms.contains_key(#[trigger] atoms@[x].0),
                hypergraph@.atoms == g0.atoms.union_prefer_right(minted_atoms(start_a, fresh_vars.len() as int)),
                can_rewrite(g0, rep, b),
                fl == flatten(rep),
                start_a == g0.next_atom_id,
                fresh_vars.len() <= fl.len(),
                pattern_match.binding@ == b,
                fresh@.dom() == fresh_vars.to_set(),
                fresh_vars.no_duplicates(),
                forall|v: Seq<char>| #[trigger] fresh_vars.contains(v) <==> (fl.contains(ElementView::Var(v)) && !b.contains_key(v)),
                forall|x: int| 0 <= x < fresh_vars.len() ==> fresh@[#[trigger] fresh_vars[x]] == AtomId((start_a + x) as u64),
            decreases es@.len() - k,
        {
            let ghost ev = pr.elements[k as int];
            proof {
                assert(es@[k as int]@ == ev);
                lemma_flatten_contains(rep, i as int, k as int);
            }
            let a = match &es[k] {
                PatternElement::Atom(a) => *a,
                PatternElement::Variable(v) => match pattern_match.binding.get_binding(v) {
                    Some(a) => a,
                    None => {
                        proof {
                            assert(fresh_vars.contains(v@));
                            assert(fresh@.dom().contains(v@));
                        }
                        match fresh.get_binding(v) {
                            Some(a) => a,
                            None => AtomId(0),
                        }
                    },
                },
            };
            proof {
                let rs = resolved(pr, b, fresh_vars, start_a);
                match ev {
                    ElementView::Var(w) => {
                        if !b.contains_key(w) {
                            let x = fresh_vars.index_of(w);
                            assert(fresh_vars.contains(w));
                            assert(0 <= x < fresh_vars.len() && fresh_vars[x] == w);
                            assert(fresh@[fresh_vars[x]] == AtomId((start_a + x) as u64));
                        }
                    },
                    ElementView::Atom(_) => {},
                }
                assert(a == rs[k as int]);
                assert(rs.take(k + 1) =~= rs.take(k as int).push(a));
                match ev {
                    ElementView::Var(w) => {
                        if b.contains_key(w) {
                            assert(g0.atoms.contains_key(b[w].0));
                        } else {
                            let x = fresh_vars.index_of(w);
                            assert(minted_atoms(start_a, fresh_vars.len() as int).contains_key((start_a + x) as u64));
                        }
                    },
                    ElementView::Atom(x) => {
                        assert(flatten(rep).contains(ElementView::Atom(x)));
                        assert(g0.atoms.contains_key(x.0));
                    },
                }
                assert(hypergraph@.atoms.contains_key(a.0));
            }
            atoms.push(a);
            k = k + 1;
        }
        proof {
            assert(resolved(pr, b, fresh_vars, start_a).take(es@.len() as int) =~= resolved(pr, b, fresh_vars, start_a));
            assert(hypergraph@.has_atoms(atoms@));
        }
        let meta = rels[i].metadata_copy();
        let ghost before = hypergraph@;
        let ghost atoms_view = atoms@;
        let id = match meta {
            Some(m) => hypergraph.create_relation_with_metadata(atoms, m),
            None => hypergraph.create_relation(atoms),
        };
        new_relations.push(id);
        proof {
            assert(id.0 == start_r + i);
            assert(hypergraph@.relations =~= g1.relations.union_prefer_right(
                inserted_relations(rep, b, fresh_vars, start_a, start_r, i + 1),
            ));
        }
        i = i + 1;
    }
    proof {
        assert(rels@.len() == rep.len());
        assert(hypergraph@.atoms == g0.atoms.union_prefer_right(minted_atoms(g0.next_atom_id, fresh_vars.len() as int)));
    }
    RewriteResult::success(new_atoms, new_relations, removed)
}


/// Pattern `p` has at least one embedding into `g`; an empty pattern has
/// none.
pub open spec fn has_match(p: Seq<PatternRelationView>, g: HypergraphView) -> bool {
    p.len() > 0 && exists|rels: Seq<RelationId>, b: Map<Seq<char>, AtomId>| #[trigger] is_match(p, g, rels, b)
}

/// Every concrete atom of the replacement of `rule` is stored in `g`, and
/// both counters have room for what one rewrite by `rule` mints.
pub open spec fn rule_ready(g: HypergraphView, rule: Rule) -> bool {
    &&& forall|a: AtomId| #[trigger] flatten(rule.replacement@).contains(ElementView::Atom(a)) ==> g.atoms.contains_key(a.0)
    &&& g.next_atom_id + flatten(rule.replacement@).len() <= u64::MAX
    &&& g.next_relation_id + rule.replacement@.len() <= u64::MAX
}

pub proof fn lemma_pattern_var_source(p: Seq<PatternRelationView>, v: Seq<char>)
    requires
        crate::matching::pattern_vars(p).contains(v),
    ensures
        exists|i: int, j: int| 0 <= i < p.len() && 0 <= j < p[i].elements.len() && #[trigger] p[i].elements[j] == ElementView::Var(v),
    decreases p.len(),
{
    let t = p.drop_last();
    if crate::matching::pattern_vars(t).contains(v) {
        lemma_pattern_var_source(t, v);
        let (i, j) = choose|i: int, j: int| 0 <= i < t.len() && 0 <= j < t[i].elements.len() && #[trigger] t[i].elements[j] == ElementView::Var(v);
        assert(p[i] == t[i]);
    } else {
        let es = p.last().elements;
        assert(es.contains(ElementView::Var(v)));
        let j = choose|j: int| 0 <= j < es.len() && es[j] == ElementView::Var(v);
        assert(p[p.len() - 1].elements[j] == ElementView::Var(v));
    }
}

/// Every atom that an embedding binds is stored.
pub proof fn lemma_match_atoms_stored(p: Seq<PatternRelationView>, g: HypergraphView, rels: Seq<RelationId>, b: Map<Seq<char>, AtomId>)
    requires
        g.valid(),
        is_match(p, g, rels, b),
    ensures
        forall|v: Seq<char>| #[trigger] b.contains_key(v) ==> g.atoms.contains_key(b[v].0),
{
    assert forall|v: Seq<char>| #[trigger] b.contains_key(v) implies g.atoms.contains_key(b[v].0) by {
        lemma_pattern_var_source(p, v);
        let (i, j) = choose|i: int, j: int| 0 <= i < p.len() && 0 <= j < p[i].elements.len() && #[trigger] p[i].elements[j] == ElementView::Var(v);
        assert(crate::matching::relation_fits(p[i], g.relations[rels[i].0].atoms, b));
        assert(crate::matching::element_fits(p[i].elements[j], g.relations[rels[i].0].atoms[j], b));
        assert(g.relations.contains_key(rels[i].0));
    }
}

/// `after` is `before` with `rule` applied at its first match in the
/// lexicographic order of relation ids, which removed `removed` and created
/// `new_atoms` and `new_relations`.
pub open spec fn applied(
    before: HypergraphView,
    after: HypergraphView,
    rule: Rule,
    removed: Seq<RelationId>,
    new_atoms: Seq<AtomId>,
    new_relations: Seq<RelationId>,
) -> bool {
    &&& least_match(rule.pattern@, before, removed)
    &&& exists|b: Map<Seq<char>, AtomId>|
        #[trigger] is_match(rule.pattern@, before, removed, b) && rule.pattern@.len() > 0
            && rewritten(before, after, rule.replacement@, removed, b, new_atoms, new_relations)
}

/// Tells whether `rule` can be applied to `hypergraph` without naming a
/// missing atom or running out of ids.
pub fn rule_ready_check(hypergraph: &Hypergraph, rule: &Rule) -> (r: bool)
    requires
        hypergraph.wf(),
    ensures
        r == rule_ready(hypergraph@, *rule),
{
    let flat = flat_elements(&rule.replacement);
    let ghost fl = flatten(rule.replacement@);
    let mut i: usize = 0;
    while i < flat.len()
        invariant
            0 <= i <= flat@.len(),
            flat@.map_values(|e: PatternElement| e@) == fl,
            fl == flatten(rule.replacement@),
            hypergraph.wf(),
            forall|k: int| 0 <= k < i ==> match #[trigger] fl[k] {
                ElementView::Atom(a) => hypergraph@.atoms.contains_key(a.0),
                ElementView::Var(_) => true,
            },
        decreases flat@.len() - i,
    {
        proof {
            assert(flat@[i as int]@ == fl[i as int]);
        }
        match &flat[i] {
            PatternElement::Atom(a) => {
                if !hypergraph.contains_atom(*a) {
                    proof {
                        assert(fl[i as int] == ElementView::Atom(*a));
                        assert(fl.contains(ElementView::Atom(*a)));
                    }
                    return false;
                }
            },
            PatternElement::Variable(_) => {},
        }
        i = i + 1;
    }
    proof {
        assert forall|a: AtomId| #[trigger] fl.contains(ElementView::Atom(a)) implies hypergraph@.atoms.contains_key(a.0) by {
            let k = choose|k: int| 0 <= k < fl.len() && fl[k] == ElementView::Atom(a);
            assert(match fl[k] {
                ElementView::Atom(a) => hypergraph@.atoms.contains_key(a.0),
                ElementView::Var(_) => true,
            });
        }
    }
    let n_atoms = hypergraph.next_atom_id();
    let n_relations = hypergraph.next_relation_id();
    let n_elements = flat.len() as u64;
    let n_rep = rule.replacement.len() as u64;
    proof {
        assert(flat@.len() == fl.len());
    }
    n_elements <= u64::MAX - n_atoms && n_rep <= u64::MAX - n_relations
}

/// Rule `i` is the first rule of `rules` with a match in `g`.
pub open spec fn first_matching(rules: Seq<Rule>, g: HypergraphView, i: int) -> bool {
    &&& 0 <= i < rules.len()
    &&& has_match(rules[i].pattern@, g)
    &&& forall|j: int| 0 <= j < i ==> !has_match(#[trigger] rules[j].pattern@, g)
}

/// Tries the rules in order and applies the first one that has a match, at
/// its first match in the lexicographic order of relation ids (the first
/// match that `find_pattern_matches` reports); returns its position with the outcome. The rewrite
/// succeeds exactly when the rule's replacement names only stored atoms and
/// the counters have room; when it fails nothing changes. Returns `None`,
/// changing nothing, when no rule has a match.
pub fn apply_first_rule(hypergraph: &mut Hypergraph, rules: &[Rule]) -> (r: Option<(usize, RewriteResult)>)
    requires
        old(hypergraph).wf(),
    ensures
        final(hypergraph).wf(),
        r is None <==> forall|i: int| 0 <= i < rules@.len() ==> !has_match(#[trigger] rules@[i].pattern@, old(hypergraph)@),
        r is None ==> final(hypergraph)@ == old(hypergraph)@,
        r is Some ==> {
            let (i, res) = r.unwrap();
            &&& first_matching(rules@, old(hypergraph)@, i as int)
            &&& res.success <==> rule_ready(old(hypergraph)@, rules@[i as int])
            &&& res.success ==> applied(old(hypergraph)@, final(hypergraph)@, rules@[i as int], res.removed_relations@, res.new_atoms@, res.new_relations@)
            &&& !res.success ==> final(hypergraph)@ == old(hypergraph)@
        },
{
    let mut i: usize = 0;
    while i < rules.len()
        invariant
            0 <= i <= rules@.len(),
            hypergraph.wf(),
            hypergraph@ == old(hypergraph)@,
            forall|j: int| 0 <= j < i ==> !has_match(#[trigger] rules@[j].pattern@, old(hypergraph)@),
        decreases rules@.len() - i,
    {
        let rule = &rules[i];
        let matches = find_pattern_matches(&rule.pattern, hypergraph);
        if matches.len() > 0 {
            let m = &matches[0];
            let ghost g0 = hypergraph@;
            proof {
                assert(is_match(rule.pattern@, hypergraph@, matches@[0].matched_relations@, matches@[0].binding@));
                lemma_match_atoms_stored(rule.pattern@, hypergraph@, m.matched_relations@, m.binding@);
                assert(can_rewrite(g0, rule.replacement@, m.binding@) <==> rule_ready(g0, rules@[i as int]));
                assert(has_match(rule.pattern@, g0));
                assert(least_match(rule.pattern@, g0, m.matched_relations@)) by {
                    assert forall|rels2: Seq<RelationId>, b2: Map<Seq<char>, AtomId>|
                        #[trigger] is_match(rule.pattern@, g0, rels2, b2) implies rels2 == m.matched_relations@
                            || crate::matching::lex_before(m.matched_relations@, rels2) by {
                        let k = choose|k: int|
                            0 <= k < matches@.len() && #[trigger] matches@[k].matched_relations@ == rels2 && matches@[k].binding@ == b2;
                        if k > 0 {
                            assert(crate::matching::lex_before(matches@[0].matched_relations@, matches@[k].matched_relations@));
                        }
                    }
                }
            }
            let res = apply_rule(hypergraph, rule, m);
            return Some((i, res));
        }
        proof {
            if has_match(rule.pattern@, hypergraph@) {
                let (rels, b) = choose|rels: Seq<RelationId>, b: Map<Seq<char>, AtomId>| #[trigger] is_match(rule.pattern@, hypergraph@, rels, b);
            }
        }
        i = i + 1;
    }
    None
}

/// Tries the rules in order and applies the first one that has a match, at
/// its first match in the lexicographic order of relation ids (the first
/// match that `find_pattern_matches` reports). Returns `None`, changing nothing, when no rule has a
/// match. The rewrite succeeds exactly when the rule's replacement names
/// only stored atoms and the counters have room; when it fails nothing
/// changes.
pub fn apply_first_available_rule(hypergraph: &mut Hypergraph, rules: &[Rule]) -> (r: Option<RewriteResult>)
    requires
        old(hypergraph).wf(),
    ensures
        final(hypergraph).wf(),
        r is None <==> forall|i: int| 0 <= i < rules@.len() ==> !has_match(#[trigger] rules@[i].pattern@, old(hypergraph)@),
        r is None ==> final(hypergraph)@ == old(hypergraph)@,
        r is Some ==> exists|i: int|
            #[trigger] first_matching(rules@, old(hypergraph)@, i) && (r.unwrap().success <==> rule_ready(
                old(hypergraph)@,
                rules@[i],
            )) && (r.unwrap().success ==> applied(
                old(hypergraph)@,
                final(hypergraph)@,
                rules@[i],
                r.unwrap().removed_relations@,
                r.unwrap().new_atoms@,
                r.unwrap().new_relations@,
            )) && (!r.unwrap().success ==> final(hypergraph)@ == old(hypergraph)@),
{
    match apply_first_rule(hypergraph, rules) {
        Some((i, res)) => {
            proof {
                assert(first_matching(rules@, old(hypergraph)@, i as int));
            }
            Some(res)
        },
        None => None,
    }
}

/// A rewrite keeps both counters above every id in use.
pub proof fn lemma_rewrite_keeps_counters_fresh(
    before: HypergraphView,
    after: HypergraphView,
    rep: Seq<PatternRelationView>,
    rels: Seq<RelationId>,
    b: Map<Seq<char>, AtomId>,
    new_atoms: Seq<AtomId>,
    new_relations: Seq<RelationId>,
)
    requires
        before.counters_fresh(),
        rewritten(before, after, rep, rels, b, new_atoms, new_relations),
    ensures
        after.counters_fresh(),
{
}

} // verus!
