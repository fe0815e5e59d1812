use vstd::prelude::*;
use crate::atom::{Atom, AtomId, AtomView, text_as_str};
use crate::relation::{Relation, RelationId, RelationView};
use crate::hypergraph::HypergraphView;
use crate::rule::RuleId;

verus! {

/// One applied step: which rule ran and what it created and removed.
#[derive(Debug, PartialEq, Eq)]
pub struct SimulationEvent {
    pub step_number: u64,
    pub rule_id: RuleId,
    pub atoms_created: Vec<AtomId>,
    pub relations_created: Vec<RelationId>,
    pub relations_removed: Vec<RelationId>,
    pub description: Option<String>,
}

/// Two events record the same step.
pub open spec fn same_event(a: SimulationEvent, b: SimulationEvent) -> bool {
    &&& a.step_number == b.step_number
    &&& a.rule_id == b.rule_id
    &&& a.atoms_created@ == b.atoms_created@
    &&& a.relations_created@ == b.relations_created@
    &&& a.relations_removed@ == b.relations_removed@
    &&& a.description == b.description
}

/// Copies a sequence of atom ids.
fn copy_atom_ids_of(v: &Vec<AtomId>) -> (r: Vec<AtomId>)
    ensures
        r@ == v@,
{
    crate::relation::copy_atom_ids(v)
}

impl Clone for SimulationEvent {
    fn clone(&self) -> (r: Self)
        ensures
            same_event(r, *self),
    {
        SimulationEvent {
            step_number: self.step_number,
            rule_id: self.rule_id,
            atoms_created: copy_atom_ids_of(&self.atoms_created),
            relations_created: crate::matching::copy_relation_ids(&self.relations_created),
            relations_removed: crate::matching::copy_relation_ids(&self.relations_removed),
            description: crate::atom::copy_text(&self.description),
        }
    }
}

impl SimulationEvent {
    /// Creates an event without description.
    pub fn new(
        step_number: u64,
        rule_id: RuleId,
        atoms_created: Vec<AtomId>,
        relations_created: Vec<RelationId>,
        relations_removed: Vec<RelationId>,
    ) -> (r: SimulationEvent)
        ensures
            r.step_number == step_number,
            r.rule_id == rule_id,
            r.atoms_created@ == atoms_created@,
            r.relations_created@ == relations_created@,
            r.relations_removed@ == relations_removed@,
            r.description is None,
    {
        SimulationEvent { step_number, rule_id, atoms_created, relations_created, relations_removed, description: None }
    }

    /// Creates an event with a description.
    pub fn with_description(
        step_number: u64,
        rule_id: RuleId,
        atoms_created: Vec<AtomId>,
        relations_created: Vec<RelationId>,
        relations_removed: Vec<RelationId>,
        description: String,
    ) -> (r: SimulationEvent)
        ensures
            r.step_number == step_number,
            r.rule_id == rule_id,
            r.atoms_created@ == atoms_created@,
            r.relations_created@ == relations_created@,
            r.relations_removed@ == relations_removed@,
            r.description == Some(description),
    {
        SimulationEvent {
            step_number,
            rule_id,
            atoms_created,
            relations_created,
            relations_removed,
            description: Some(description),
        }
    }

    /// Returns the step number of this event.
    pub fn step_number(&self) -> (r: u64)
        ensures
            r == self.step_number,
    {
        self.step_number
    }

    /// Returns the id of the rule applied.
    pub fn rule_id(&self) -> (r: RuleId)
        ensures
            r == self.rule_id,
    {
        self.rule_id
    }

    /// Returns the atoms created.
    pub fn atoms_created(&self) -> (r: &[AtomId])
        ensures
            r@ == self.atoms_created@,
    {
        self.atoms_created.as_slice()
    }

    /// Returns the relations created.
    pub fn relations_created(&self) -> (r: &[RelationId])
        ensures
            r@ == self.relations_created@,
    {
        self.relations_created.as_slice()
    }

    /// Returns the relations removed.
    pub fn relations_removed(&self) -> (r: &[RelationId])
        ensures
            r@ == self.relations_removed@,
    {
        self.relations_removed.as_slice()
    }

    /// Returns the description, if any.
    pub fn description(&self) -> (r: Option<&str>)
        ensures
            r is Some <==> self.description is Some,
            r is Some ==> r.unwrap()@ == self.description.unwrap()@,
    {
        text_as_str(&self.description)
    }

    /// Replaces the description.
    pub fn set_description(&mut self, description: Option<String>)
        ensures
            final(self).step_number == old(self).step_number,
            final(self).rule_id == old(self).rule_id,
            final(self).atoms_created == old(self).atoms_created,
            final(self).relations_created == old(self).relations_created,
            final(self).relations_removed == old(self).relations_removed,
            final(self).description == description,
    {
        self.description = description;
    }
}

/// A self-contained snapshot of a hypergraph, its step number and its
/// counters.
#[derive(Debug, Clone, PartialEq, Eq)]
pub struct HypergraphState {
    pub atoms: Vec<Atom>,
    pub relations: Vec<Relation>,
    pub step_number: u64,
    pub next_atom_id: u64,
    pub next_relation_id: u64,
}

/// The atoms of a snapshot keyed by id; a later atom with an id wins.
pub open spec fn atoms_map(s: Seq<Atom>) -> Map<u64, AtomView>
    decreases s.len(),
{
    if s.len() == 0 {
        Map::empty()
    } else {
        atoms_map(s.drop_last()).insert(s.last().id.0, s.last()@)
    }
}

/// The relations of a snapshot keyed by id; a later relation with an id wins.
pub open spec fn relations_map(s: Seq<Relation>) -> Map<u64, RelationView>
    decreases s.len(),
{
    if s.len() == 0 {
        Map::empty()
    } else {
        relations_map(s.drop_last()).insert(s.last().id.0, s.last()@)
    }
}

/// Some atom of `s` has id `a`.
pub open spec fn lists_atom(s: Seq<Atom>, a: AtomId) -> bool {
    exists|k: int| 0 <= k < s.len() && #[trigger] s[k].id == a
}

/// The snapshot can be rebuilt: every atom that a relation references is
/// listed, and both counters lie above every listed id.
pub open spec fn state_valid(st: HypergraphState) -> bool {
    &&& forall|i: int, j: int|
        0 <= i < st.relations@.len() && 0 <= j < st.relations@[i].atoms@.len() ==> lists_atom(
            st.atoms@,
            #[trigger] st.relations@[i].atoms@[j],
        )
    &&& forall|k: int| 0 <= k < st.atoms@.len() ==> (#[trigger] st.atoms@[k]).id.0 < st.next_atom_id
    &&& forall|k: int| 0 <= k < st.relations@.len() ==> (#[trigger] st.relations@[k]).id.0 < st.next_relation_id
}

/// The hypergraph that a snapshot rebuilds into.
pub open spec fn rebuilt(st: HypergraphState) -> HypergraphView {
    HypergraphView {
        atoms: atoms_map(st.atoms@),
        relations: relations_map(st.relations@),
        next_atom_id: st.next_atom_id,
        next_relation_id: st.next_relation_id,
    }
}

/// `st` lists the atoms and relations of `g` once each, in increasing order
/// of id, with the counters of `g`.
pub open spec fn snapshot_of(st: HypergraphState, g: HypergraphView) -> bool {
    &&& st.atoms@.len() == g.atoms.len()
    &&& forall|k: int| 0 <= k < st.atoms@.len() ==> g.atoms.contains_key(#[trigger] st.atoms@[k].id.0)
        && st.atoms@[k]@ == g.atoms[st.atoms@[k].id.0]
    &&& forall|a: u64| g.atoms.contains_key(a) ==> exists|k: int| 0 <= k < st.atoms@.len() && #[trigger] st.atoms@[k].id.0 == a
    &&& forall|i: int, j: int| 0 <= i < j < st.atoms@.len() ==> st.atoms@[i].id.0 < st.atoms@[j].id.0
    &&& st.relations@.len() == g.relations.len()
    &&& forall|k: int| 0 <= k < st.relations@.len() ==> g.relations.contains_key(#[trigger] st.relations@[k].id.0)
        && st.relations@[k]@ == g.relations[st.relations@[k].id.0]
    &&& forall|r: u64| g.relations.contains_key(r) ==> exists|k: int| 0 <= k < st.relations@.len() && #[trigger] st.relations@[k].id.0 == r
    &&& forall|i: int, j: int| 0 <= i < j < st.relations@.len() ==> st.relations@[i].id.0 < st.relations@[j].id.0
    &&& st.next_atom_id == g.next_atom_id
    &&& st.next_relation_id == g.next_relation_id
}

pub proof fn lemma_atoms_map(s: Seq<Atom>)
    ensures
        forall|a: u64| #[trigger] atoms_map(s).contains_key(a) <==> exists|k: int| 0 <= k < s.len() && #[trigger] s[k].id.0 == a,
        forall|k: int| 0 <= k < s.len() && (forall|j: int| k < j < s.len() ==> s[j].id != s[k].id) ==> #[trigger] atoms_map(s)[s[k].id.0] == s[k]@,
    decreases s.len(),
{
    if s.len() > 0 {
        let t = s.drop_last();
        lemma_atoms_map(t);
        assert forall|a: u64| #[trigger] atoms_map(s).contains_key(a) <==> exists|k: int| 0 <= k < s.len() && #[trigger] s[k].id.0 == a by {
            if atoms_map(t).contains_key(a) {
                let k = choose|k: int| 0 <= k < t.len() && #[trigger] t[k].id.0 == a;
                assert(s[k] == t[k]);
            }
            if exists|k: int| 0 <= k < s.len() && #[trigger] s[k].id.0 == a {
                let k = choose|k: int| 0 <= k < s.len() && #[trigger] s[k].id.0 == a;
                if k < t.len() {
                    assert(t[k] == s[k]);
                }
            }
        }
        assert forall|k: int| 0 <= k < s.len() && (forall|j: int| k < j < s.len() ==> s[j].id != s[k].id) implies #[trigger] atoms_map(s)[s[k].id.0] == s[k]@ by {
            if k < t.len() {
                assert(t[k] == s[k]);
                assert(forall|j: int| k < j < t.len() ==> t[j] == s[j]);
                assert(s[s.len() - 1].id != s[k].id);
                assert(s.last().id.0 != s[k].id.0);
                assert(atoms_map(t)[t[k].id.0] == t[k]@);
            }
        }
    }
}

pub proof fn lemma_relations_map(s: Seq<Relation>)
    ensures
        forall|r: u64| #[trigger] relations_map(s).contains_key(r) <==> exists|k: int| 0 <= k < s.len() && #[trigger] s[k].id.0 == r,
        forall|k: int| 0 <= k < s.len() && (forall|j: int| k < j < s.len() ==> s[j].id != s[k].id) ==> #[trigger] relations_map(s)[s[k].id.0] == s[k]@,
    decreases s.len(),
{
    if s.len() > 0 {
        let t = s.drop_last();
        lemma_relations_map(t);
        assert forall|r: u64| #[trigger] relations_map(s).contains_key(r) <==> exists|k: int| 0 <= k < s.len() && #[trigger] s[k].id.0 == r by {
            if relations_map(t).contains_key(r) {
                let k = choose|k: int| 0 <= k < t.len() && #[trigger] t[k].id.0 == r;
                assert(s[k] == t[k]);
            }
            if exists|k: int| 0 <= k < s.len() && #[trigger] s[k].id.0 == r {
                let k = choose|k: int| 0 <= k < s.len() && #[trigger] s[k].id.0 == r;
                if k < t.len() {
                    assert(t[k] == s[k]);
                }
            }
        }
        assert forall|k: int| 0 <= k < s.len() && (forall|j: int| k < j < s.len() ==> s[j].id != s[k].id) implies #[trigger] relations_map(s)[s[k].id.0] == s[k]@ by {
            if k < t.len() {
                assert(t[k] == s[k]);
                assert(forall|j: int| k < j < t.len() ==> t[j] == s[j]);
                assert(s[s.len() - 1].id != s[k].id);
                assert(s.last().id.0 != s[k].id.0);
                assert(relations_map(t)[t[k].id.0] == t[k]@);
            }
        }
    }
}

/// A snapshot taken of a well-formed hypergraph whose counters lie above
/// every id is valid, and rebuilding it gives back the same hypergraph.
pub proof fn lemma_snapshot_round_trip(g: HypergraphView, st: HypergraphState)
    requires
        g.valid(),
        g.counters_fresh(),
        snapshot_of(st, g),
    ensures
        state_valid(st),
        rebuilt(st) == g,
{
    lemma_atoms_map(st.atoms@);
    lemma_relations_map(st.relations@);
    assert forall|i: int, j: int|
        0 <= i < st.relations@.len() && 0 <= j < st.relations@[i].atoms@.len() implies lists_atom(
            st.atoms@,
            #[trigger] st.relations@[i].atoms@[j],
        ) by {
        let r = st.relations@[i].id.0;
        assert(g.relations.contains_key(r));
        assert(g.relations[r].atoms[j] == st.relations@[i].atoms@[j]);
        assert(g.atoms.contains_key(g.relations[r].atoms[j].0));
        let a = st.relations@[i].atoms@[j];
        let k = choose|k: int| 0 <= k < st.atoms@.len() && #[trigger] st.atoms@[k].id.0 == a.0;
        assert(st.atoms@[k].id == a);
    }
    assert forall|k: int| 0 <= k < st.atoms@.len() implies (#[trigger] st.atoms@[k]).id.0 < st.next_atom_id by {
        assert(g.atoms.contains_key(st.atoms@[k].id.0));
    }
    assert forall|k: int| 0 <= k < st.relations@.len() implies (#[trigger] st.relations@[k]).id.0 < st.next_relation_id by {
        assert(g.relations.contains_key(st.relations@[k].id.0));
    }
    assert(atoms_map(st.atoms@) =~= g.atoms) by {
        assert forall|a: u64| #[trigger] atoms_map(st.atoms@).contains_key(a) implies g.atoms.contains_key(a) && atoms_map(st.atoms@)[a] == g.atoms[a] by {
            let k = choose|k: int| 0 <= k < st.atoms@.len() && #[trigger] st.atoms@[k].id.0 == a;
            assert(forall|j: int| k < j < st.atoms@.len() ==> st.atoms@[j].id.0 > st.atoms@[k].id.0);
            assert(forall|j: int| k < j < st.atoms@.len() ==> st.atoms@[j].id != st.atoms@[k].id);
        }
        assert forall|a: u64| g.atoms.contains_key(a) implies #[trigger] atoms_map(st.atoms@).contains_key(a) by {
            let k = choose|k: int| 0 <= k < st.atoms@.len() && #[trigger] st.atoms@[k].id.0 == a;
        }
    }
    assert(relations_map(st.relations@) =~= g.relations) by {
        assert forall|r: u64| #[trigger] relations_map(st.relations@).contains_key(r) implies g.relations.contains_key(r) && relations_map(st.relations@)[r] == g.relations[r] by {
            let k = choose|k: int| 0 <= k < st.relations@.len() && #[trigger] st.relations@[k].id.0 == r;
            assert(forall|j: int| k < j < st.relations@.len() ==> st.relations@[j].id.0 > st.relations@[k].id.0);
            assert(forall|j: int| k < j < st.relations@.len() ==> st.relations@[j].id != st.relations@[k].id);
        }
        assert forall|r: u64| g.relations.contains_key(r) implies #[trigger] relations_map(st.relations@).contains_key(r) by {
            let k = choose|k: int| 0 <= k < st.relations@.len() && #[trigger] st.relations@[k].id.0 == r;
        }
    }
}

impl HypergraphState {
    /// Creates a snapshot from its parts.
    pub fn new(
        atoms: Vec<Atom>,
        relations: Vec<Relation>,
        step_number: u64,
        next_atom_id: u64,
        next_relation_id: u64,
    ) -> (r: HypergraphState)
        ensures
            r.atoms@ == atoms@,
            r.relations@ == relations@,
            r.step_number == step_number,
            r.next_atom_id == next_atom_id,
            r.next_relation_id == next_relation_id,
    {
        HypergraphState { atoms, relations, step_number, next_atom_id, next_relation_id }
    }

    /// Returns the atoms of this snapshot.
    pub fn atoms(&self) -> (r: &[Atom])
        ensures
            r@ == self.atoms@,
    {
        self.atoms.as_slice()
    }

    /// Returns the relations of this snapshot.
    pub fn relations(&self) -> (r: &[Relation])
        ensures
            r@ == self.relations@,
    {
        self.relations.as_slice()
    }

    /// Returns the step number of this snapshot.
    pub fn step_number(&self) -> (r: u64)
        ensures
            r == self.step_number,
    {
        self.step_number
    }

    /// Returns the id the next created atom receives.
    pub fn next_atom_id(&self) -> (r: u64)
        ensures
            r == self.next_atom_id,
    {
        self.next_atom_id
    }

    /// Returns the id the next created relation receives.
    pub fn next_relation_id(&self) -> (r: u64)
        ensures
            r == self.next_relation_id,
    {
        self.next_relation_id
    }
}

} // verus!
