use vstd::prelude::*;
use crate::atom::{Atom, AtomId};
use crate::relation::{Relation, RelationId};
use crate::hypergraph::{Hypergraph, HypergraphView};
use crate::rule::{Rule, RuleSet, split_left, split_right, var_pair};
use crate::pattern::{ElementView, PatternRelationView};
use crate::matching::{is_match, element_vars, pattern_vars};
use crate::rewriter::{rewritten, flatten, new_vars, raw_ids, id_set};
use crate::rewriter::{applied, apply_first_rule, first_matching, has_match, rule_ready, lemma_rewrite_keeps_counters_fresh};
use crate::event::{
    HypergraphState, SimulationEvent, same_event, atoms_map, relations_map, lists_atom, state_valid, rebuilt, snapshot_of,
    lemma_atoms_map, lemma_relations_map,
};

verus! {

/// Why a snapshot cannot be rebuilt into a hypergraph.
#[derive(Debug, Clone, Copy, PartialEq, Eq, Structural)]
pub enum StateError {
    /// A relation references an atom that the snapshot does not list.
    DanglingAtom { relation_id: u64, atom_id: u64 },
    /// An atom id is not below the snapshot's next atom id.
    AtomCounterTooLow { atom_id: u64, next_atom_id: u64 },
    /// A relation id is not below the snapshot's next relation id.
    RelationCounterTooLow { relation_id: u64, next_relation_id: u64 },
}

/// Tells whether some atom of `atoms` has id `a`.
fn lists_atom_exec(atoms: &Vec<Atom>, a: AtomId) -> (r: bool)
    ensures
        r == lists_atom(atoms@, a),
{
    let mut k: usize = 0;
    while k < atoms.len()
        invariant
            0 <= k <= atoms@.len(),
            forall|j: int| 0 <= j < k ==> atoms@[j].id != a,
        decreases atoms@.len() - k,
    {
        if atoms[k].id == a {
            return true;
        }
        k = k + 1;
    }
    false
}

/// Checks that a snapshot can be rebuilt: every atom a relation references
/// is listed and both counters lie above every listed id. Reports the first
/// problem found.
pub fn validate_state(state: &HypergraphState) -> (r: Result<(), StateError>)
    ensures
        r is Ok <==> state_valid(*state),
        r matches Err(StateError::DanglingAtom { relation_id, atom_id }) ==> exists|i: int|
            0 <= i < state.relations@.len() && #[trigger] state.relations@[i].id.0 == relation_id
                && state.relations@[i].atoms@.contains(AtomId(atom_id)) && !lists_atom(state.atoms@, AtomId(atom_id)),
        r matches Err(StateError::AtomCounterTooLow { atom_id, next_atom_id }) ==> next_atom_id == state.next_atom_id
            && atom_id >= next_atom_id && lists_atom(state.atoms@, AtomId(atom_id)),
        r matches Err(StateError::RelationCounterTooLow { relation_id, next_relation_id }) ==> next_relation_id
            == state.next_relation_id && relation_id >= next_relation_id && exists|i: int|
            0 <= i < state.relations@.len() && #[trigger] state.relations@[i].id.0 == relation_id,
{
    let mut i: usize = 0;
    while i < state.relations.len()
        invariant
            0 <= i <= state.relations@.len(),
            forall|x: int, j: int|
                0 <= x < i && 0 <= j < state.relations@[x].atoms@.len() ==> lists_atom(
                    state.atoms@,
                    #[trigger] state.relations@[x].atoms@[j],
                ),
        decreases state.relations@.len() - i,
    {
        let rel = &state.relations[i];
        let mut j: usize = 0;
        while j < rel.atoms.len()
            invariant
                0 <= j <= rel.atoms@.len(),
                0 <= i < state.relations@.len(),
                *rel == state.relations@[i as int],
                forall|y: int| 0 <= y < j ==> lists_atom(state.atoms@, #[trigger] rel.atoms@[y]),
            decreases rel.atoms@.len() - j,
        {
            let a = rel.atoms[j];
            if !lists_atom_exec(&state.atoms, a) {
                proof {
                    assert(state.relations@[i as int].atoms@.contains(a));
                    assert(AtomId(a.0) == a);
                }
                return Err(StateError::DanglingAtom { relation_id: rel.id.0, atom_id: a.0 });
            }
            j = j + 1;
        }
        i = i + 1;
    }
    let mut k: usize = 0;
    while k < state.atoms.len()
        invariant
            0 <= k <= state.atoms@.len(),
            forall|x: int| 0 <= x < k ==> (#[trigger] state.atoms@[x]).id.0 < state.next_atom_id,
        decreases state.atoms@.len() - k,
    {
        if state.atoms[k].id.0 >= state.next_atom_id {
            proof {
                assert(state.atoms@[k as int].id == AtomId(state.atoms@[k as int].id.0));
            }
            return Err(StateError::AtomCounterTooLow { atom_id: state.atoms[k].id.0, next_atom_id: state.next_atom_id });
        }
        k = k + 1;
    }
    let mut k: usize = 0;
    while k < state.relations.len()
        invariant
            0 <= k <= state.relations@.len(),
            forall|x: int| 0 <= x < k ==> (#[trigger] state.relations@[x]).id.0 < state.next_relation_id,
        decreases state.relations@.len() - k,
    {
        if state.relations[k].id.0 >= state.next_relation_id {
            return Err(
                StateError::RelationCounterTooLow {
                    relation_id: state.relations[k].id.0,
                    next_relation_id: state.next_relation_id,
                },
            );
        }
        k = k + 1;
    }
    Ok(())
}

/// Rebuilds the hypergraph of a valid snapshot.
fn build_hypergraph(state: &HypergraphState) -> (g: Hypergraph)
    requires
        state_valid(*state),
    ensures
        g.wf(),
        g@ == rebuilt(*state),
        g@.counters_fresh(),
{
    let mut g = Hypergraph::new();
    let mut i: usize = 0;
    proof {
        assert(atoms_map(state.atoms@.take(0)) =~= g@.atoms);
    }
    while i < state.atoms.len()
        invariant
            0 <= i <= state.atoms@.len(),
            g.wf(),
            g@.atoms == atoms_map(state.atoms@.take(i as int)),
            g@.relations == Map::<u64, crate::relation::RelationView>::empty(),
        decreases state.atoms@.len() - i,
    {
        let atom = state.atoms[i].clone();
        g.add_atom(atom);
        proof {
            assert(state.atoms@.take(i + 1).drop_last() =~= state.atoms@.take(i as int));
        }
        i = i + 1;
    }
    proof {
        assert(state.atoms@.take(state.atoms@.len() as int) =~= state.atoms@);
        lemma_atoms_map(state.atoms@);
        assert(relations_map(state.relations@.take(0)) =~= g@.relations);
    }
    let mut i: usize = 0;
    while i < state.relations.len()
        invariant
            0 <= i <= state.relations@.len(),
            state_valid(*state),
            g.wf(),
            g@.atoms == atoms_map(state.atoms@),
            forall|a: u64| #[trigger] atoms_map(state.atoms@).contains_key(a) <==> exists|k: int|
                0 <= k < state.atoms@.len() && #[trigger] state.atoms@[k].id.0 == a,
            g@.relations == relations_map(state.relations@.take(i as int)),
        decreases state.relations@.len() - i,
    {
        let rel = state.relations[i].clone();
        proof {
            assert forall|j: int| 0 <= j < rel.atoms@.len() implies g@.atoms.contains_key(#[trigger] rel.atoms@[j].0) by {
                assert(rel.atoms@[j] == state.relations@[i as int].atoms@[j]);
                assert(lists_atom(state.atoms@, state.relations@[i as int].atoms@[j]));
                let k = choose|k: int| 0 <= k < state.atoms@.len() && #[trigger] state.atoms@[k].id == rel.atoms@[j];
                assert(state.atoms@[k].id.0 == rel.atoms@[j].0);
            }
        }
        g.add_relation(rel);
        proof {
            assert(state.relations@.take(i + 1).drop_last() =~= state.relations@.take(i as int));
        }
        i = i + 1;
    }
    proof {
        assert(state.relations@.take(state.relations@.len() as int) =~= state.relations@);
    }
    g.set_next_atom_id(state.next_atom_id);
    g.set_next_relation_id(state.next_relation_id);
    proof {
        lemma_relations_map(state.relations@);
        assert forall|a: u64| #[trigger] g@.atoms.contains_key(a) implies a < g@.next_atom_id by {
            let k = choose|k: int| 0 <= k < state.atoms@.len() && #[trigger] state.atoms@[k].id.0 == a;
        }
        assert forall|r: u64| #[trigger] g@.relations.contains_key(r) implies r < g@.next_relation_id by {
            let k = choose|k: int| 0 <= k < state.relations@.len() && #[trigger] state.relations@[k].id.0 == r;
        }
    }
    g
}

/// Takes a snapshot of `g` at step `step_number`.
fn snapshot(g: &Hypergraph, step_number: u64) -> (r: HypergraphState)
    requires
        g.wf(),
    ensures
        snapshot_of(r, g@),
        r.step_number == step_number,
{
    let atoms = g.atoms();
    let mut atom_copies: Vec<Atom> = Vec::new();
    for i in 0..atoms.len()
        invariant
            atom_copies@.len() == i,
            forall|k: int| 0 <= k < i ==> #[trigger] atom_copies@[k] == *atoms@[k],
    {
        atom_copies.push(atoms[i].clone());
    }
    let relations = g.relations();
    let mut relation_copies: Vec<Relation> = Vec::new();
    for i in 0..relations.len()
        invariant
            relation_copies@.len() == i,
            forall|k: int| 0 <= k < i ==> (#[trigger] relation_copies@[k])@ == relations@[k]@,
    {
        relation_copies.push(relations[i].clone());
    }
    let r = HypergraphState {
        atoms: atom_copies,
        relations: relation_copies,
        step_number,
        next_atom_id: g.next_atom_id(),
        next_relation_id: g.next_relation_id(),
    };
    proof {
        assert forall|a: u64| g@.atoms.contains_key(a) implies exists|k: int| 0 <= k < r.atoms@.len() && #[trigger] r.atoms@[k].id.0 == a by {
            let k = choose|k: int| 0 <= k < atoms@.len() && #[trigger] atoms@[k].id.0 == a;
            assert(r.atoms@[k].id.0 == a);
        }
        assert forall|x: u64| g@.relations.contains_key(x) implies exists|k: int| 0 <= k < r.relations@.len() && #[trigger] r.relations@[k].id.0 == x by {
            let k = choose|k: int| 0 <= k < relations@.len() && #[trigger] relations@[k].id.0 == x;
            assert(r.relations@[k]@ == relations@[k]@);
        }
        assert forall|k: int| 0 <= k < r.relations@.len() implies g@.relations.contains_key(#[trigger] r.relations@[k].id.0)
            && r.relations@[k]@ == g@.relations[r.relations@[k].id.0] by {
            assert(r.relations@[k]@ == relations@[k]@);
        }
        assert forall|i: int, j: int| 0 <= i < j < r.relations@.len() implies r.relations@[i].id.0 < r.relations@[j].id.0 by {
            assert(r.relations@[i]@ == relations@[i]@);
            assert(r.relations@[j]@ == relations@[j]@);
        }
    }
    r
}

/// What one call of `step` reports.
#[derive(Debug, Clone, PartialEq, Eq)]
pub struct StepResult {
    pub success: bool,
    pub event: Option<SimulationEvent>,
    pub state: HypergraphState,
    pub message: Option<String>,
}

/// When a continuous run stops.
#[derive(Debug, Clone, PartialEq, Eq)]
pub struct ContinuousSimulationConfig {
    pub max_steps: Option<u64>,
    pub stop_on_fixed_point: bool,
    pub report_interval: Option<u64>,
}

/// Why a continuous run stopped.
#[derive(Debug, Clone, Copy, PartialEq, Eq, Structural)]
pub enum StopReason {
    MaxSteps,
    FixedPoint,
    Cancelled,
}

/// What a continuous run reports: the steps applied, the steps attempted
/// (applied or not), the recorded events, why it stopped and a final
/// snapshot.
#[derive(Debug, Clone, PartialEq, Eq)]
pub struct ContinuousRunResult {
    pub steps_executed: u64,
    pub attempts: u64,
    pub events: Vec<SimulationEvent>,
    pub stop_reason: StopReason,
    pub final_state: HypergraphState,
}

/// `after` follows from `before` by one step under `rules`: the first rule
/// with a match was applied at its first match in the lexicographic order of
/// relation ids, as `event` records.
pub open spec fn step_taken(before: HypergraphView, after: HypergraphView, rules: Seq<Rule>, event: SimulationEvent) -> bool {
    exists|i: int|
        0 <= i < rules.len() && (forall|j: int| 0 <= j < i ==> !has_match(#[trigger] rules[j].pattern@, before))
            && rules[i].id == event.rule_id && #[trigger] applied(
            before,
            after,
            rules[i],
            event.relations_removed@,
            event.atoms_created@,
            event.relations_created@,
        )
}

/// A step can be taken: the step counter has room, some rule has a match,
/// and the first such rule can be applied without naming a missing atom or
/// running out of ids.
pub open spec fn can_step(g: HypergraphView, rules: Seq<Rule>, step_number: u64) -> bool {
    &&& step_number < u64::MAX
    &&& exists|i: int| #[trigger] first_matching(rules, g, i) && rule_ready(g, rules[i])
}

/// `after` is `before` after one call of `step` that reported `r`: when a
/// step can be taken, the first rule with a match was applied, the counter
/// went up by one and the step was recorded; otherwise nothing changed. The
/// reported snapshot is of the hypergraph afterwards.
pub open spec fn stepped(before: SimulationManager, after: SimulationManager, r: StepResult) -> bool {
    &&& after.wf()
    &&& after.rule_seq() == before.rule_seq()
    &&& r.success <==> can_step(before.graph(), before.rule_seq(), before.steps())
    &&& r.success ==> {
        &&& r.event is Some
        &&& after.steps() == before.steps() + 1
        &&& after.history().len() == before.history().len() + 1
        &&& after.history().take(before.history().len() as int) == before.history()
        &&& same_event(after.history().last(), r.event.unwrap())
        &&& r.event.unwrap().step_number == after.steps()
        &&& step_taken(before.graph(), after.graph(), before.rule_seq(), r.event.unwrap())
    }
    &&& !r.success ==> {
        &&& r.event is None
        &&& r.message is Some
        &&& after.graph() == before.graph()
        &&& after.steps() == before.steps()
        &&& after.history() == before.history()
    }
    &&& snapshot_of(r.state, after.graph())
    &&& r.state.step_number == after.steps()
}

/// `ms[i + 1]` follows from `ms[i]` by the call of `step` that reported
/// `rs[i]`, for every `i`.
pub open spec fn stepped_chain(ms: Seq<SimulationManager>, rs: Seq<StepResult>) -> bool {
    &&& ms.len() == rs.len() + 1
    &&& forall|i: int| 0 <= i < rs.len() ==> stepped(ms[i], ms[i + 1], #[trigger] rs[i])
}

/// Owns a hypergraph, the rules that drive it, the step counter and the
/// history of applied steps.
pub struct SimulationManager {
    hypergraph: Hypergraph,
    rules: RuleSet,
    step_number: u64,
    events: Vec<SimulationEvent>,
}

impl SimulationManager {
    /// The hypergraph is well formed and its counters lie above every id.
    pub closed spec fn wf(&self) -> bool {
        self.hypergraph.wf() && self.hypergraph@.counters_fresh()
    }

    /// The abstract hypergraph.
    pub closed spec fn graph(&self) -> HypergraphView {
        self.hypergraph@
    }

    /// The rules, in the order in which they are tried.
    pub closed spec fn rule_seq(&self) -> Seq<Rule> {
        self.rules@
    }

    /// The number of steps applied.
    pub closed spec fn steps(&self) -> u64 {
        self.step_number
    }

    /// The applied steps, oldest first.
    pub closed spec fn history(&self) -> Seq<SimulationEvent> {
        self.events@
    }

    /// Creates a manager over an empty hypergraph, without rules.
    pub fn new() -> (r: SimulationManager)
        ensures
            r.wf(),
            r.graph().atoms == Map::<u64, crate::atom::AtomView>::empty(),
            r.graph().relations == Map::<u64, crate::relation::RelationView>::empty(),
            r.graph().next_atom_id == 0,
            r.graph().next_relation_id == 0,
            r.rule_seq().len() == 0,
            r.steps() == 0,
            r.history().len() == 0,
    {
        SimulationManager { hypergraph: Hypergraph::new(), rules: RuleSet::new(), step_number: 0, events: Vec::new() }
    }

    /// Creates a manager from a snapshot and a rule set. Fails, reporting the
    /// problem, when the snapshot cannot be rebuilt.
    pub fn from_state(state: &HypergraphState, rules: RuleSet) -> (r: Result<SimulationManager, StateError>)
        ensures
            r is Ok <==> state_valid(*state),
            r is Ok ==> {
                let m = r.unwrap();
                &&& m.wf()
                &&& m.graph() == rebuilt(*state)
                &&& m.rule_seq() == rules@
                &&& m.steps() == state.step_number
                &&& m.history().len() == 0
            },
    {
        match validate_state(state) {
            Err(e) => Err(e),
            Ok(()) => {
                let g = build_hypergraph(state);
                Ok(SimulationManager { hypergraph: g, rules, step_number: state.step_number, events: Vec::new() })
            },
        }
    }

    /// Replaces the hypergraph, counters and step number with those of a
    /// snapshot, and clears the history; the rules stay. Fails, changing
    /// nothing, when the snapshot cannot be rebuilt.
    pub fn load_state(&mut self, state: &HypergraphState) -> (r: Result<(), StateError>)
        requires
            old(self).wf(),
        ensures
            final(self).wf(),
            r is Ok <==> state_valid(*state),
            final(self).rule_seq() == old(self).rule_seq(),
            r is Ok ==> final(self).graph() == rebuilt(*state) && final(self).steps() == state.step_number
                && final(self).history().len() == 0,
            r is Err ==> final(self).graph() == old(self).graph() && final(self).steps() == old(self).steps()
                && final(self).history() == old(self).history(),
    {
        match validate_state(state) {
            Err(e) => Err(e),
            Ok(()) => {
                self.hypergraph = build_hypergraph(state);
                self.step_number = state.step_number;
                self.events = Vec::new();
                Ok(())
            },
        }
    }

    /// Takes a snapshot of the live hypergraph, step number and counters.
    pub fn get_current_state(&self) -> (r: HypergraphState)
        requires
            self.wf(),
        ensures
            snapshot_of(r, self.graph()),
            r.step_number == self.steps(),
            state_valid(r),
            rebuilt(r) == self.graph(),
    {
        let r = snapshot(&self.hypergraph, self.step_number);
        proof {
            crate::event::lemma_snapshot_round_trip(self.hypergraph@, r);
        }
        r
    }

    /// Returns the number of steps applied.
    pub fn step_number(&self) -> (r: u64)
        ensures
            r == self.steps(),
    {
        self.step_number
    }

    /// Returns the hypergraph.
    pub fn hypergraph(&self) -> (r: &Hypergraph)
        ensures
            r@ == self.graph(),
            self.wf() ==> r.wf(),
    {
        &self.hypergraph
    }

    /// Returns the rules.
    pub fn rules(&self) -> (r: &RuleSet)
        ensures
            r@ == self.rule_seq(),
    {
        &self.rules
    }

    /// Returns the applied steps, oldest first.
    pub fn event_history(&self) -> (r: &[SimulationEvent])
        ensures
            r@ == self.history(),
    {
        self.events.as_slice()
    }

    /// Applies one step: the first rule, in rule order, that has a match is
    /// applied at its first match in the lexicographic order of relation
    /// ids, the step counter is incremented and
    /// the step is recorded. When no step can be taken nothing changes and
    /// the result says why.
    pub fn step(&mut self) -> (r: StepResult)
        requires
            old(self).wf(),
        ensures
            final(self).wf(),
            stepped(*old(self), *final(self), r),
    {
        if self.step_number == u64::MAX {
            let state = self.get_current_state();
            return StepResult {
                success: false,
                event: None,
                state,
                message: Some("the step counter is exhausted".to_owned()),
            };
        }
        let rules = self.rules.rules();
        let ghost g0 = self.hypergraph@;
        match apply_first_rule(&mut self.hypergraph, rules) {
            None => {
                let state = self.get_current_state();
                StepResult { success: false, event: None, state, message: Some("no applicable rules".to_owned()) }
            },
            Some((i, res)) => {
                if !res.success {
                    proof {
                        assert forall|k: int| #[trigger] first_matching(rules@, g0, k) implies k == i as int by {
                            if k < i as int {
                                assert(!has_match(rules@[k].pattern@, g0));
                            } else if k > i as int {
                                assert(!has_match(rules@[i as int].pattern@, g0));
                            }
                        }
                    }
                    let state = self.get_current_state();
                    return StepResult {
                        success: false,
                        event: None,
                        state,
                        message: Some("the first matching rule names a missing atom or would run out of ids".to_owned()),
                    };
                }
                proof {
                    let (b) = choose|b: Map<Seq<char>, AtomId>|
                        #[trigger] crate::matching::is_match(rules@[i as int].pattern@, g0, res.removed_relations@, b)
                            && rules@[i as int].pattern@.len() > 0 && crate::rewriter::rewritten(
                            g0,
                            self.hypergraph@,
                            rules@[i as int].replacement@,
                            res.removed_relations@,
                            b,
                            res.new_atoms@,
                            res.new_relations@,
                        );
                    lemma_rewrite_keeps_counters_fresh(
                        g0,
                        self.hypergraph@,
                        rules@[i as int].replacement@,
                        res.removed_relations@,
                        b,
                        res.new_atoms@,
                        res.new_relations@,
                    );
                    assert(has_match(rules@[i as int].pattern@, g0));
                    assert(first_matching(rules@, g0, i as int));
                }
                self.step_number = self.step_number + 1;
                let event = SimulationEvent::new(
                    self.step_number,
                    rules[i].id,
                    res.new_atoms,
                    res.new_relations,
                    res.removed_relations,
                );
                let recorded = event.clone();
                self.events.push(recorded);
                proof {
                    assert(self.events@.take(self.events@.len() - 1) =~= old(self).events@);
                }
                let state = self.get_current_state();
                StepResult { success: true, event: Some(event), state, message: None }
            },
        }
    }

    /// Applies up to `num_steps` steps, stopping after the first step that
    /// cannot be taken; returns what each attempted step reported.
    pub fn step_multiple(&mut self, num_steps: u64) -> (r: Vec<StepResult>)
        requires
            old(self).wf(),
        ensures
            final(self).wf(),
            final(self).rule_seq() == old(self).rule_seq(),
            r@.len() <= num_steps,
            num_steps > 0 ==> r@.len() > 0,
            forall|i: int| 0 <= i < r@.len() - 1 ==> (#[trigger] r@[i]).success,
            r@.len() < num_steps ==> r@.len() == 0 || !r@[r@.len() - 1].success,
            final(self).steps() == old(self).steps() + (if r@.len() > 0 && !r@[r@.len() - 1].success {
                r@.len() - 1
            } else {
                r@.len() as int
            }),
            forall|i: int| 0 <= i < r@.len() && (#[trigger] r@[i]).success ==> r@[i].state.step_number == old(self).steps() + i + 1,
            exists|ms: Seq<SimulationManager>|
                #[trigger] stepped_chain(ms, r@) && ms[0] == *old(self) && ms.last() == *final(self),
            r@.len() > 0 && !r@[r@.len() - 1].success ==> !can_step(
                final(self).graph(),
                final(self).rule_seq(),
                final(self).steps(),
            ),
    {
        let mut results: Vec<StepResult> = Vec::new();
        let mut n: u64 = 0;
        let ghost mut ms: Seq<SimulationManager> = seq![*self];
        while n < num_steps
            invariant
                0 <= n <= num_steps,
                results@.len() == n,
                stepped_chain(ms, results@),
                ms[0] == *old(self),
                ms.last() == *self,
                self.wf(),
                self.rule_seq() == old(self).rule_seq(),
                forall|i: int| 0 <= i < results@.len() ==> (#[trigger] results@[i]).success,
                self.steps() == old(self).steps() + n,
                forall|i: int| 0 <= i < results@.len() ==> (#[trigger] results@[i]).state.step_number == old(self).steps() + i + 1,
            decreases num_steps - n,
        {
            let ghost before = *self;
            let res = self.step();
            let ok = res.success;
            let ghost rv = res;
            results.push(res);
            proof {
                let ms0 = ms;
                ms = ms.push(*self);
                assert forall|i: int| 0 <= i < results@.len() implies stepped(ms[i], ms[i + 1], #[trigger] results@[i]) by {
                    if i < results@.len() - 1 {
                        assert(ms[i] == ms0[i] && ms[i + 1] == ms0[i + 1]);
                    } else {
                        assert(ms[i] == before);
                    }
                }
                assert(ms[0] == ms0[0]);
                assert(stepped_chain(ms, results@));
            }
            if !ok {
                return results;
            }
            n = n + 1;
        }
        results
    }

    /// Applies steps until `config.max_steps` steps have been applied (when
    /// set), until no step can be taken (when `config.stop_on_fixed_point`
    /// is set), or until `keep_running` answers `false`, which it is asked
    /// before every attempt. Without either stop condition a run ends after
    /// `u64::MAX` attempts.
    pub fn run_continuous(&mut self, config: &ContinuousSimulationConfig, keep_running: impl Fn() -> bool) -> (r:
        ContinuousRunResult)
        requires
            old(self).wf(),
            call_requires(keep_running, ()),
        ensures
            final(self).wf(),
            final(self).rule_seq() == old(self).rule_seq(),
            r.events@.len() == r.steps_executed,
            final(self).steps() == old(self).steps() + r.steps_executed,
            final(self).history().len() == old(self).history().len() + r.steps_executed,
            final(self).history().take(old(self).history().len() as int) == old(self).history(),
            forall|i: int| 0 <= i < r.events@.len() ==> #[trigger] same_event(
                final(self).history()[old(self).history().len() + i],
                r.events@[i],
            ),
            config.max_steps matches Some(m) ==> r.steps_executed <= m,
            r.steps_executed <= r.attempts,
            r.stop_reason == StopReason::MaxSteps ==> config.max_steps == Some(r.steps_executed) || r.attempts
                == u64::MAX,
            config.stop_on_fixed_point && r.stop_reason != StopReason::FixedPoint ==> r.attempts == r.steps_executed,
            r.stop_reason == StopReason::FixedPoint ==> config.stop_on_fixed_point && !can_step(
                final(self).graph(),
                final(self).rule_seq(),
                final(self).steps(),
            ),
            snapshot_of(r.final_state, final(self).graph()),
            r.final_state.step_number == final(self).steps(),
            exists|ms: Seq<SimulationManager>, rs: Seq<StepResult>|
                #[trigger] stepped_chain(ms, rs) && ms[0] == *old(self) && ms.last() == *final(self),
            config.max_steps == Some(0u64) ==> r.stop_reason == StopReason::MaxSteps && r.steps_executed == 0,
            r.stop_reason == StopReason::Cancelled ==> call_ensures(keep_running, (), false),
    {
        let mut events: Vec<SimulationEvent> = Vec::new();
        let ghost mut ms: Seq<SimulationManager> = seq![*self];
        let ghost mut rs: Seq<StepResult> = Seq::empty();
        let mut executed: u64 = 0;
        let mut attempts: u64 = 0;
        let ghost h0 = self.events@;
        let mut stop: Option<StopReason> = None;
        while stop.is_none()
            invariant
                self.wf(),
                self.rule_seq() == old(self).rule_seq(),
                call_requires(keep_running, ()),
                events@.len() == executed,
                executed <= attempts,
                self.steps() == old(self).steps() + executed,
                self.history().len() == h0.len() + executed,
                h0 == old(self).history(),
                self.history().take(h0.len() as int) == h0,
                forall|i: int| 0 <= i < events@.len() ==> #[trigger] same_event(self.history()[h0.len() + i], events@[i]),
                config.max_steps matches Some(m) ==> executed <= m,
                stop == Some(StopReason::MaxSteps) ==> config.max_steps == Some(executed) || attempts == u64::MAX,
                config.stop_on_fixed_point && stop != Some(StopReason::FixedPoint) ==> attempts == executed,
                stop is None && config.stop_on_fixed_point ==> attempts == executed,
                stepped_chain(ms, rs),
                ms[0] == *old(self),
                ms.last() == *self,
                config.max_steps == Some(0u64) ==> stop is None || stop == Some(StopReason::MaxSteps),
                stop == Some(StopReason::Cancelled) ==> call_ensures(keep_running, (), false),
                stop == Some(StopReason::FixedPoint) ==> config.stop_on_fixed_point && !can_step(
                    self.graph(),
                    self.rule_seq(),
                    self.steps(),
                ),
            decreases u64::MAX - attempts, if stop is None { 1int } else { 0int },
        {
            let mut limit_reached = false;
            match config.max_steps {
                Some(m) => {
                    if executed >= m {
                        limit_reached = true;
                    }
                },
                None => {},
            }
            if limit_reached {
                stop = Some(StopReason::MaxSteps);
            } else if attempts == u64::MAX {
                stop = Some(StopReason::MaxSteps);
            } else if !keep_running() {
                stop = Some(StopReason::Cancelled);
            } else {
                attempts = attempts + 1;
                let ghost hist = self.history();
                let ghost before = *self;
                let res = self.step();
                proof {
                    let ms0 = ms;
                    let rs0 = rs;
                    ms = ms.push(*self);
                    rs = rs.push(res);
                    assert forall|i: int| 0 <= i < rs.len() implies stepped(ms[i], ms[i + 1], #[trigger] rs[i]) by {
                        if i < rs.len() - 1 {
                            assert(ms[i] == ms0[i] && ms[i + 1] == ms0[i + 1] && rs[i] == rs0[i]);
                        } else {
                            assert(ms[i] == before);
                        }
                    }
                    assert(ms[0] == ms0[0]);
                }
                if res.success {
                    match res.event {
                        Some(e) => {
                            proof {
                                assert(self.history().take(h0.len() as int) =~= h0) by {
                                    assert forall|k: int| 0 <= k < h0.len() implies self.history()[k] == h0[k] by {
                                        assert(self.history().take(hist.len() as int)[k] == self.history()[k]);
                                        assert(hist.take(h0.len() as int)[k] == hist[k]);
                                    }
                                }
                                assert forall|i: int| 0 <= i < events@.len() implies #[trigger] same_event(self.history()[h0.len() + i], events@[i]) by {
                                    assert(self.history().take(hist.len() as int)[h0.len() + i] == self.history()[h0.len() + i]);
                                }
                            }
                            events.push(e);
                            executed = executed + 1;
                        },
                        None => {},
                    }
                } else if config.stop_on_fixed_point {
                    stop = Some(StopReason::FixedPoint);
                }
            }
        }
        let reason = match stop {
            Some(x) => x,
            None => StopReason::MaxSteps,
        };
        let final_state = self.get_current_state();
        proof {
            assert(stepped_chain(ms, rs));
        }
        ContinuousRunResult { steps_executed: executed, attempts, events, stop_reason: reason, final_state }
    }
}


/// Applying the edge-splitting rule at any of its matches in a well-formed
/// hypergraph whose counters lie above every id removes one relation, mints
/// one atom and inserts two relations: one more atom and one more relation
/// than before.
pub proof fn lemma_edge_split_counts(
    before: HypergraphView,
    after: HypergraphView,
    rels: Seq<RelationId>,
    b: Map<Seq<char>, AtomId>,
    new_atoms: Seq<AtomId>,
    new_relations: Seq<RelationId>,
)
    requires
        before.valid(),
        before.counters_fresh(),
        is_match(split_left(), before, rels, b),
        rewritten(before, after, split_right(), rels, b, new_atoms, new_relations),
    ensures
        rels.len() == 1,
        new_atoms.len() == 1,
        new_relations.len() == 2,
        after.atoms.len() == before.atoms.len() + 1,
        after.relations.len() == before.relations.len() + 1,
{
    let x = seq!['x'];
    let y = seq!['y'];
    let z = seq!['z'];
    assert(x[0] != z[0] && y[0] != z[0]);
    assert(z != x && z != y);
    let left = split_left();
    assert(left.drop_last() =~= Seq::<PatternRelationView>::empty());
    assert(element_vars(seq![ElementView::Var(x), ElementView::Var(y)]) =~= set![x, y]) by {
        let es = seq![ElementView::Var(x), ElementView::Var(y)];
        assert(es[0] == ElementView::Var(x) && es[1] == ElementView::Var(y));
        assert forall|v: Seq<char>| es.contains(ElementView::Var(v)) implies v == x || v == y by {
            let k = choose|k: int| 0 <= k < es.len() && es[k] == ElementView::Var(v);
        }
    }
    assert(left.last() == var_pair(x, y));
    assert(pattern_vars(left.drop_last()) =~= Set::<Seq<char>>::empty());
    assert(pattern_vars(left) == pattern_vars(left.drop_last()).union(element_vars(left.last().elements)));
    assert(pattern_vars(left) =~= set![x, y]);
    assert(b.dom() =~= set![x, y]);
    assert(!b.contains_key(z));
    let right = split_right();
    let e1 = var_pair(x, z).elements;
    let e2 = var_pair(z, y).elements;
    assert(right.drop_last() =~= seq![var_pair(x, z)]);
    assert(seq![var_pair(x, z)].drop_last() =~= Seq::<PatternRelationView>::empty());
    let fl = flatten(right);
    assert(right.last() == var_pair(z, y));
    assert(seq![var_pair(x, z)].last() == var_pair(x, z));
    assert(flatten(Seq::<PatternRelationView>::empty()) == Seq::<ElementView>::empty());
    assert(flatten(seq![var_pair(x, z)]) == flatten(Seq::<PatternRelationView>::empty()) + e1);
    assert(flatten(seq![var_pair(x, z)]) =~= e1);
    assert(fl == flatten(seq![var_pair(x, z)]) + e2);
    assert(fl =~= seq![ElementView::Var(x), ElementView::Var(z), ElementView::Var(z), ElementView::Var(y)]);
    assert(fl.drop_last() =~= seq![ElementView::Var(x), ElementView::Var(z), ElementView::Var(z)]);
    assert(fl.drop_last().drop_last() =~= seq![ElementView::Var(x), ElementView::Var(z)]);
    assert(fl.drop_last().drop_last().drop_last() =~= seq![ElementView::Var(x)]);
    assert(fl.drop_last().drop_last().drop_last().drop_last() =~= Seq::<ElementView>::empty());
    assert(b.contains_key(x) && b.contains_key(y));
    let s1 = fl.drop_last().drop_last().drop_last();
    let s2 = fl.drop_last().drop_last();
    let s3 = fl.drop_last();
    assert(new_vars(s1.drop_last(), b) =~= Seq::<Seq<char>>::empty());
    assert(s1.last() == ElementView::Var(x));
    let n0 = new_vars(s1, b);
    assert(n0 =~= Seq::<Seq<char>>::empty());
    assert(s2.last() == ElementView::Var(z));
    assert(!n0.contains(z));
    let n1 = new_vars(s2, b);
    assert(n1 == n0.push(z));
    assert(n1 =~= seq![z]);
    assert(seq![z].contains(z)) by {
        assert(seq![z][0] == z);
    }
    assert(s3.last() == ElementView::Var(z));
    let n2 = new_vars(s3, b);
    assert(n2 == n1);
    assert(fl.last() == ElementView::Var(y));
    let fresh = new_vars(fl, b);
    assert(fresh == n2);
    assert(fresh =~= seq![z]);
    assert(new_atoms.len() == 1);
    let na = before.next_atom_id;
    assert(after.atoms.dom() =~= before.atoms.dom().insert(na));
    assert(!before.atoms.contains_key(na));
    let nr = before.next_relation_id;
    let r0 = rels[0].0;
    assert(raw_ids(rels) =~= seq![r0]);
    assert(id_set(rels) =~= set![r0]) by {
        assert(seq![r0][0] == r0);
    }
    assert(before.relations.contains_key(r0));
    assert(!before.relations.contains_key(nr));
    assert(!before.relations.contains_key((nr + 1) as u64));
    assert(after.relations.dom() =~= before.relations.dom().remove(r0).insert(nr).insert((nr + 1) as u64));
    assert(before.relations.dom().remove(r0).len() == before.relations.len() - 1);
}

/// Every step taken under the edge-splitting rule alone, on a well-formed
/// hypergraph whose counters lie above every id, adds exactly one atom and
/// one relation.
pub proof fn lemma_edge_split_step(before: HypergraphView, after: HypergraphView, rules: Seq<Rule>, event: SimulationEvent)
    requires
        before.valid(),
        before.counters_fresh(),
        rules.len() == 1,
        rules[0].pattern@ == split_left(),
        rules[0].replacement@ == split_right(),
        step_taken(before, after, rules, event),
    ensures
        after.atoms.len() == before.atoms.len() + 1,
        after.relations.len() == before.relations.len() + 1,
        event.atoms_created@.len() == 1,
        event.relations_created@.len() == 2,
        event.relations_removed@.len() == 1,
        after.next_atom_id == before.next_atom_id + 1,
        after.next_relation_id == before.next_relation_id + 2,
{
    let i = choose|i: int|
        0 <= i < rules.len() && (forall|j: int| 0 <= j < i ==> !has_match(#[trigger] rules[j].pattern@, before))
            && rules[i].id == event.rule_id && #[trigger] applied(
            before,
            after,
            rules[i],
            event.relations_removed@,
            event.atoms_created@,
            event.relations_created@,
        );
    assert(i == 0);
    let b = choose|b: Map<Seq<char>, AtomId>|
        #[trigger] is_match(rules[0].pattern@, before, event.relations_removed@, b) && rules[0].pattern@.len() > 0
            && rewritten(before, after, rules[0].replacement@, event.relations_removed@, b, event.atoms_created@, event.relations_created@);
    lemma_edge_split_counts(before, after, event.relations_removed@, b, event.atoms_created@, event.relations_created@);
}


/// Any snapshot of a manager can be rebuilt, and rebuilding it gives back
/// the same atoms, relations, counters and step number.
pub proof fn lemma_manager_round_trip(m: SimulationManager, st: HypergraphState)
    requires
        m.wf(),
        snapshot_of(st, m.graph()),
        st.step_number == m.steps(),
    ensures
        state_valid(st),
        rebuilt(st) == m.graph(),
        st.step_number == m.steps(),
{
    crate::event::lemma_snapshot_round_trip(m.graph(), st);
}


/// Some stored relation has exactly two atoms.
pub open spec fn has_binary_relation(g: HypergraphView) -> bool {
    exists|r: u64| g.relations.contains_key(r) && #[trigger] g.relations[r].atoms.len() == 2
}

proof fn lemma_split_shapes()
    ensures
        pattern_vars(split_left()) == set![seq!['x'], seq!['y']],
        flatten(split_right()) == seq![
            ElementView::Var(seq!['x']),
            ElementView::Var(seq!['z']),
            ElementView::Var(seq!['z']),
            ElementView::Var(seq!['y']),
        ],
{
    let x = seq!['x'];
    let y = seq!['y'];
    let z = seq!['z'];
    let left = split_left();
    assert(left.drop_last() =~= Seq::<PatternRelationView>::empty());
    assert(element_vars(seq![ElementView::Var(x), ElementView::Var(y)]) =~= set![x, y]) by {
        let es = seq![ElementView::Var(x), ElementView::Var(y)];
        assert(es[0] == ElementView::Var(x) && es[1] == ElementView::Var(y));
        assert forall|v: Seq<char>| es.contains(ElementView::Var(v)) implies v == x || v == y by {
            let k = choose|k: int| 0 <= k < es.len() && es[k] == ElementView::Var(v);
        }
    }
    assert(left.last() == var_pair(x, y));
    assert(pattern_vars(left.drop_last()) =~= Set::<Seq<char>>::empty());
    assert(pattern_vars(left) == pattern_vars(left.drop_last()).union(element_vars(left.last().elements)));
    assert(pattern_vars(left) =~= set![x, y]);
    let right = split_right();
    let e1 = var_pair(x, z).elements;
    let e2 = var_pair(z, y).elements;
    assert(right.drop_last() =~= seq![var_pair(x, z)]);
    assert(seq![var_pair(x, z)].drop_last() =~= Seq::<PatternRelationView>::empty());
    assert(right.last() == var_pair(z, y));
    assert(seq![var_pair(x, z)].last() == var_pair(x, z));
    assert(flatten(Seq::<PatternRelationView>::empty()) == Seq::<ElementView>::empty());
    assert(flatten(seq![var_pair(x, z)]) == flatten(Seq::<PatternRelationView>::empty()) + e1);
    assert(flatten(seq![var_pair(x, z)]) =~= e1);
    assert(flatten(right) == flatten(seq![var_pair(x, z)]) + e2);
    assert(flatten(right) =~= seq![ElementView::Var(x), ElementView::Var(z), ElementView::Var(z), ElementView::Var(y)]);
}

/// In a well-formed hypergraph, any relation with two atoms is a match of
/// the left side of edge splitting.
pub proof fn lemma_binary_relation_matches(g: HypergraphView, r: u64)
    requires
        g.valid(),
        g.relations.contains_key(r),
        g.relations[r].atoms.len() == 2,
    ensures
        has_match(split_left(), g),
{
    lemma_split_shapes();
    let x = seq!['x'];
    let y = seq!['y'];
    assert(x[0] != y[0]);
    let atoms = g.relations[r].atoms;
    let b = Map::<Seq<char>, AtomId>::empty().insert(x, atoms[0]).insert(y, atoms[1]);
    let rels = seq![RelationId(r)];
    assert(b.dom() =~= set![x, y]);
    let p = split_left();
    assert(p[0] == var_pair(x, y));
    assert(crate::matching::element_fits(p[0].elements[0], atoms[0], b));
    assert(crate::matching::element_fits(p[0].elements[1], atoms[1], b));
    assert(crate::matching::relation_fits(p[0], g.relations[rels[0].0].atoms, b));
    assert(rels.no_duplicates());
    assert(is_match(p, g, rels, b));
}

/// Under the edge-splitting rule alone, a well-formed hypergraph with a
/// relation of two atoms, and room in the counters, can always take a step.
pub proof fn lemma_edge_split_continues(g: HypergraphView, rules: Seq<Rule>, step_number: u64)
    requires
        g.valid(),
        rules.len() == 1,
        rules[0].pattern@ == split_left(),
        rules[0].replacement@ == split_right(),
        step_number < u64::MAX,
        g.next_atom_id + 4 <= u64::MAX,
        g.next_relation_id + 2 <= u64::MAX,
        has_binary_relation(g),
    ensures
        can_step(g, rules, step_number),
{
    lemma_split_shapes();
    let r = choose|r: u64| g.relations.contains_key(r) && #[trigger] g.relations[r].atoms.len() == 2;
    lemma_binary_relation_matches(g, r);
    let fl = flatten(split_right());
    assert forall|a: AtomId| !fl.contains(ElementView::Atom(a)) by {
        if fl.contains(ElementView::Atom(a)) {
            let k = choose|k: int| 0 <= k < fl.len() && fl[k] == ElementView::Atom(a);
        }
    }
    assert(first_matching(rules, g, 0));
    assert(rule_ready(g, rules[0]));
}

/// A step taken under the edge-splitting rule alone leaves a relation with
/// two atoms behind, so the next step can be taken too.
pub proof fn lemma_edge_split_leaves_binary(before: HypergraphView, after: HypergraphView, rules: Seq<Rule>, event: SimulationEvent)
    requires
        rules.len() == 1,
        rules[0].pattern@ == split_left(),
        rules[0].replacement@ == split_right(),
        step_taken(before, after, rules, event),
    ensures
        has_binary_relation(after),
{
    let i = choose|i: int|
        0 <= i < rules.len() && (forall|j: int| 0 <= j < i ==> !has_match(#[trigger] rules[j].pattern@, before))
            && rules[i].id == event.rule_id && #[trigger] applied(
            before,
            after,
            rules[i],
            event.relations_removed@,
            event.atoms_created@,
            event.relations_created@,
        );
    assert(i == 0);
    let b = choose|b: Map<Seq<char>, AtomId>|
        #[trigger] is_match(rules[0].pattern@, before, event.relations_removed@, b) && rules[0].pattern@.len() > 0
            && rewritten(before, after, rules[0].replacement@, event.relations_removed@, b, event.atoms_created@, event.relations_created@);
    let nr = before.next_relation_id;
    assert(split_right().len() == 2);
    assert(after.relations.contains_key(nr));
    assert(split_right()[0] == var_pair(seq!['x'], seq!['z']));
    assert(after.relations[nr].atoms.len() == 2);
}


/// Under the edge-splitting rule alone, starting from a well-formed
/// hypergraph with a relation of two atoms and enough room in the counters,
/// every step of a sequence of steps succeeds and adds one atom and one
/// relation (so five steps on the triangle give eight atoms and eight
/// relations).
pub proof fn lemma_edge_split_chain(ms: Seq<SimulationManager>, rs: Seq<StepResult>)
    requires
        stepped_chain(ms, rs),
        ms[0].wf(),
        ms[0].rule_seq().len() == 1,
        ms[0].rule_seq()[0].pattern@ == split_left(),
        ms[0].rule_seq()[0].replacement@ == split_right(),
        has_binary_relation(ms[0].graph()),
        ms[0].steps() + rs.len() < u64::MAX,
        ms[0].graph().next_atom_id + rs.len() + 4 <= u64::MAX,
        ms[0].graph().next_relation_id + 2 * rs.len() + 2 <= u64::MAX,
    ensures
        forall|i: int| 0 <= i < rs.len() ==> (#[trigger] rs[i]).success,
        ms.last().wf(),
        ms.last().rule_seq() == ms[0].rule_seq(),
        has_binary_relation(ms.last().graph()),
        ms.last().steps() == ms[0].steps() + rs.len(),
        ms.last().graph().next_atom_id == ms[0].graph().next_atom_id + rs.len(),
        ms.last().graph().next_relation_id == ms[0].graph().next_relation_id + 2 * rs.len(),
        ms.last().graph().atoms.len() == ms[0].graph().atoms.len() + rs.len(),
        ms.last().graph().relations.len() == ms[0].graph().relations.len() + rs.len(),
    decreases rs.len(),
{
    if rs.len() > 0 {
        let n = rs.len() - 1;
        let ms0 = ms.drop_last();
        let rs0 = rs.drop_last();
        assert(stepped_chain(ms0, rs0)) by {
            assert forall|i: int| 0 <= i < rs0.len() implies stepped(ms0[i], ms0[i + 1], #[trigger] rs0[i]) by {
                assert(stepped(ms[i], ms[i + 1], rs[i]));
            }
        }
        lemma_edge_split_chain(ms0, rs0);
        let before = ms[n];
        let after = ms[n + 1];
        assert(ms0.last() == before);
        assert(stepped(before, after, rs[n]));
        lemma_edge_split_continues(before.graph(), before.rule_seq(), before.steps());
        assert(rs[n].success);
        let ev = rs[n].event.unwrap();
        lemma_edge_split_step(before.graph(), after.graph(), before.rule_seq(), ev);
        lemma_edge_split_leaves_binary(before.graph(), after.graph(), before.rule_seq(), ev);
        assert forall|i: int| 0 <= i < rs.len() implies (#[trigger] rs[i]).success by {
            if i < n {
                assert(rs0[i] == rs[i]);
            }
        }
    }
}


/// A well-formed manager holds a valid hypergraph whose counters lie above
/// every id in use.
pub proof fn lemma_manager_wf(m: SimulationManager)
    requires
        m.wf(),
    ensures
        m.graph().valid(),
        m.graph().counters_fresh(),
{
}


proof fn lemma_lex_asymmetric(a: Seq<RelationId>, b: Seq<RelationId>)
    ensures
        !(crate::matching::lex_before(a, b) && crate::matching::lex_before(b, a)),
{
    if crate::matching::lex_before(a, b) && crate::matching::lex_before(b, a) {
        lemma_lex_contradiction(a, b);
    }
}

proof fn lemma_lex_contradiction(a: Seq<RelationId>, b: Seq<RelationId>)
    requires
        crate::matching::lex_before(a, b),
        crate::matching::lex_before(b, a),
    ensures
        a.len() < 0,
{
    let j1 = choose|j: int| 0 <= j < a.len() && j < b.len() && a.take(j) == b.take(j) && #[trigger] a[j].0 < #[trigger] b[j].0;
    let j2 = choose|j: int| 0 <= j < b.len() && j < a.len() && b.take(j) == a.take(j) && #[trigger] b[j].0 < #[trigger] a[j].0;
    if j1 < j2 {
        assert(a.take(j2)[j1] == b.take(j2)[j1]);
    } else if j2 < j1 {
        assert(a.take(j1)[j2] == b.take(j1)[j2]);
    }
}

proof fn lemma_match_binding_unique(
    p: Seq<PatternRelationView>,
    g: HypergraphView,
    rels: Seq<RelationId>,
    b1: Map<Seq<char>, AtomId>,
    b2: Map<Seq<char>, AtomId>,
)
    requires
        is_match(p, g, rels, b1),
        is_match(p, g, rels, b2),
    ensures
        b1 == b2,
{
    assert forall|v: Seq<char>| #[trigger] b1.contains_key(v) implies b2.contains_key(v) && b1[v] == b2[v] by {
        crate::rewriter::lemma_pattern_var_source(p, v);
        let (i, j) = choose|i: int, j: int| 0 <= i < p.len() && 0 <= j < p[i].elements.len() && #[trigger] p[i].elements[j] == ElementView::Var(v);
        assert(crate::matching::relation_fits(p[i], g.relations[rels[i].0].atoms, b1));
        assert(crate::matching::relation_fits(p[i], g.relations[rels[i].0].atoms, b2));
        assert(crate::matching::element_fits(p[i].elements[j], g.relations[rels[i].0].atoms[j], b1));
        assert(crate::matching::element_fits(p[i].elements[j], g.relations[rels[i].0].atoms[j], b2));
    }
    assert(b1 =~= b2);
}

/// A step is a function of the manager it starts from: two steps from the
/// same manager succeed or fail alike, leave the same hypergraph and step
/// number, and record the same rule, atoms and relations.
pub proof fn lemma_step_deterministic(m: SimulationManager, a1: SimulationManager, r1: StepResult, a2: SimulationManager, r2: StepResult)
    requires
        stepped(m, a1, r1),
        stepped(m, a2, r2),
    ensures
        r1.success == r2.success,
        a1.graph() == a2.graph(),
        a1.steps() == a2.steps(),
        r1.success ==> {
            let e1 = r1.event.unwrap();
            let e2 = r2.event.unwrap();
            &&& e1.rule_id == e2.rule_id
            &&& e1.atoms_created@ == e2.atoms_created@
            &&& e1.relations_created@ == e2.relations_created@
            &&& e1.relations_removed@ == e2.relations_removed@
        },
{
    if r1.success {
        let g = m.graph();
        let rules = m.rule_seq();
        let e1 = r1.event.unwrap();
        let e2 = r2.event.unwrap();
        let i1 = choose|i: int|
            0 <= i < rules.len() && (forall|j: int| 0 <= j < i ==> !has_match(#[trigger] rules[j].pattern@, g))
                && rules[i].id == e1.rule_id && #[trigger] applied(g, a1.graph(), rules[i], e1.relations_removed@, e1.atoms_created@, e1.relations_created@);
        let i2 = choose|i: int|
            0 <= i < rules.len() && (forall|j: int| 0 <= j < i ==> !has_match(#[trigger] rules[j].pattern@, g))
                && rules[i].id == e2.rule_id && #[trigger] applied(g, a2.graph(), rules[i], e2.relations_removed@, e2.atoms_created@, e2.relations_created@);
        let bb1 = choose|b: Map<Seq<char>, AtomId>|
            #[trigger] is_match(rules[i1].pattern@, g, e1.relations_removed@, b) && rules[i1].pattern@.len() > 0
                && rewritten(g, a1.graph(), rules[i1].replacement@, e1.relations_removed@, b, e1.atoms_created@, e1.relations_created@);
        let bb2 = choose|b: Map<Seq<char>, AtomId>|
            #[trigger] is_match(rules[i2].pattern@, g, e2.relations_removed@, b) && rules[i2].pattern@.len() > 0
                && rewritten(g, a2.graph(), rules[i2].replacement@, e2.relations_removed@, b, e2.atoms_created@, e2.relations_created@);
        assert(has_match(rules[i1].pattern@, g));
        assert(has_match(rules[i2].pattern@, g));
        assert(i1 == i2);
        let p = rules[i1].pattern@;
        let rm1 = e1.relations_removed@;
        let rm2 = e2.relations_removed@;
        assert(crate::rewriter::least_match(p, g, rm1));
        assert(crate::rewriter::least_match(p, g, rm2));
        if rm1 != rm2 {
            assert(crate::matching::lex_before(rm1, rm2));
            assert(crate::matching::lex_before(rm2, rm1));
            lemma_lex_asymmetric(rm1, rm2);
        }
        lemma_match_binding_unique(p, g, rm1, bb1, bb2);
        assert(bb1 == bb2);
        assert(e1.atoms_created@.len() == e2.atoms_created@.len());
        assert forall|k: int| 0 <= k < e1.atoms_created@.len() implies e1.atoms_created@[k] == e2.atoms_created@[k] by {
            assert(e1.atoms_created@[k].0 == g.next_atom_id + k);
            assert(e2.atoms_created@[k].0 == g.next_atom_id + k);
        }
        assert(e1.atoms_created@ =~= e2.atoms_created@);
        assert(e1.relations_created@.len() == e2.relations_created@.len());
        assert forall|k: int| 0 <= k < e1.relations_created@.len() implies e1.relations_created@[k] == e2.relations_created@[k] by {
            assert(e1.relations_created@[k].0 == g.next_relation_id + k);
            assert(e2.relations_created@[k].0 == g.next_relation_id + k);
        }
        assert(e1.relations_created@ =~= e2.relations_created@);
        assert(a1.graph() == a2.graph());
    }
}

} // verus!
