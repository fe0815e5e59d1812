use vstd::prelude::*;
use crate::rule::RuleSet;
use crate::event::{HypergraphState, state_valid, rebuilt, snapshot_of};
use crate::manager::{SimulationManager, StateError, StepResult, stepped, stepped_chain, can_step};

verus! {

/// A simulation manager shared by several callers, with the flag that a
/// background run polls. Every operation here is one critical section; the
/// caller holds the lock around it, and performs the waiting and the
/// publishing of updates outside.
pub struct SimulationSession {
    manager: SimulationManager,
    running: bool,
}

impl SimulationSession {
    /// The manager is well formed.
    pub closed spec fn wf(&self) -> bool {
        self.manager.wf()
    }

    /// The shared manager.
    pub closed spec fn manager_view(&self) -> SimulationManager {
        self.manager
    }

    /// Whether a background run is wanted.
    pub closed spec fn is_running_flag(&self) -> bool {
        self.running
    }

    /// Creates a session over `manager`, not running.
    pub fn new(manager: SimulationManager) -> (r: SimulationSession)
        requires
            manager.wf(),
        ensures
            r.wf(),
            r.manager_view() == manager,
            !r.is_running_flag(),
    {
        SimulationSession { manager, running: false }
    }

    /// Tells whether a background run is wanted.
    pub fn is_running(&self) -> (r: bool)
        ensures
            r == self.is_running_flag(),
    {
        self.running
    }

    /// Returns the shared manager.
    pub fn manager(&self) -> (r: &SimulationManager)
        ensures
            *r == self.manager_view(),
    {
        &self.manager
    }

    /// Stops any run and replaces the manager by one built from `state` and
    /// `rules`. Fails, leaving the manager as it was, when the snapshot
    /// cannot be rebuilt.
    pub fn initialize(&mut self, state: &HypergraphState, rules: RuleSet) -> (r: Result<HypergraphState, StateError>)
        requires
            old(self).wf(),
        ensures
            final(self).wf(),
            !final(self).is_running_flag(),
            r is Ok <==> state_valid(*state),
            r is Ok ==> final(self).manager_view().graph() == rebuilt(*state) && final(self).manager_view().rule_seq()
                == rules@ && final(self).manager_view().steps() == state.step_number && snapshot_of(
                r.unwrap(),
                final(self).manager_view().graph(),
            ),
            r is Err ==> final(self).manager_view() == old(self).manager_view(),
    {
        self.running = false;
        match SimulationManager::from_state(state, rules) {
            Ok(m) => {
                self.manager = m;
                Ok(self.manager.get_current_state())
            },
            Err(e) => Err(e),
        }
    }

    /// Stops any run and loads `state` into the manager, keeping its rules.
    pub fn load(&mut self, state: &HypergraphState) -> (r: Result<(), StateError>)
        requires
            old(self).wf(),
        ensures
            final(self).wf(),
            !final(self).is_running_flag(),
            r is Ok <==> state_valid(*state),
            final(self).manager_view().rule_seq() == old(self).manager_view().rule_seq(),
            r is Ok ==> final(self).manager_view().graph() == rebuilt(*state) && final(self).manager_view().steps()
                == state.step_number,
            r is Err ==> final(self).manager_view().graph() == old(self).manager_view().graph()
                && final(self).manager_view().steps() == old(self).manager_view().steps(),
    {
        self.running = false;
        self.manager.load_state(state)
    }

    /// Asks for a background run.
    pub fn start_run(&mut self)
        requires
            old(self).wf(),
        ensures
            final(self).wf(),
            final(self).is_running_flag(),
            final(self).manager_view() == old(self).manager_view(),
    {
        self.running = true;
    }

    /// Withdraws the request for a background run and returns a snapshot.
    pub fn stop(&mut self) -> (r: HypergraphState)
        requires
            old(self).wf(),
        ensures
            final(self).wf(),
            !final(self).is_running_flag(),
            final(self).manager_view() == old(self).manager_view(),
            snapshot_of(r, final(self).manager_view().graph()),
            r.step_number == final(self).manager_view().steps(),
            state_valid(r),
            rebuilt(r) == final(self).manager_view().graph(),
    {
        self.running = false;
        self.manager.get_current_state()
    }

    /// Applies up to `num_steps` steps on request of a caller, whether or
    /// not a background run is going on, stopping after the first step that
    /// cannot be taken; returns what each attempted step reported.
    pub fn step(&mut self, num_steps: u64) -> (r: Vec<StepResult>)
        requires
            old(self).wf(),
        ensures
            final(self).wf(),
            final(self).is_running_flag() == old(self).is_running_flag(),
            final(self).manager_view().rule_seq() == old(self).manager_view().rule_seq(),
            r@.len() <= num_steps,
            num_steps > 0 ==> r@.len() > 0,
            forall|i: int| 0 <= i < r@.len() - 1 ==> (#[trigger] r@[i]).success,
            r@.len() < num_steps ==> r@.len() == 0 || !r@[r@.len() - 1].success,
            final(self).manager_view().steps() == old(self).manager_view().steps() + (if r@.len() > 0 && !r@[r@.len()
                - 1].success {
                r@.len() - 1
            } else {
                r@.len() as int
            }),
            exists|ms: Seq<SimulationManager>|
                #[trigger] stepped_chain(ms, r@) && ms[0] == old(self).manager_view() && ms.last()
                    == final(self).manager_view(),
            r@.len() > 0 && !r@[r@.len() - 1].success ==> !can_step(
                final(self).manager_view().graph(),
                final(self).manager_view().rule_seq(),
                final(self).manager_view().steps(),
            ),
    {
        self.manager.step_multiple(num_steps)
    }

    /// Takes a snapshot of the live hypergraph.
    pub fn current_state(&self) -> (r: HypergraphState)
        requires
            self.wf(),
        ensures
            snapshot_of(r, self.manager_view().graph()),
            r.step_number == self.manager_view().steps(),
            state_valid(r),
            rebuilt(r) == self.manager_view().graph(),
    {
        self.manager.get_current_state()
    }

    /// One turn of the background run. When no run is wanted, nothing is
    /// done and `None` comes back: the run ends. Otherwise exactly one step
    /// is attempted and its result comes back; a step that cannot be taken
    /// ends the run.
    pub fn run_tick(&mut self) -> (r: Option<StepResult>)
        requires
            old(self).wf(),
        ensures
            final(self).wf(),
            ticked(*old(self), *final(self), r),
    {
        if !self.running {
            return None;
        }
        let res = self.manager.step();
        if !res.success {
            self.running = false;
        }
        Some(res)
    }
}

/// `after` is `before` after one turn of the background run that returned
/// `r`.
pub open spec fn ticked(before: SimulationSession, after: SimulationSession, r: Option<StepResult>) -> bool {
    &&& !before.is_running_flag() ==> r is None && after == before
    &&& before.is_running_flag() ==> r is Some && stepped(before.manager_view(), after.manager_view(), r.unwrap())
        && after.is_running_flag() == r.unwrap().success
}

/// Once the run flag has been cleared, a turn of the background run applies
/// no step and changes nothing, and every later turn does the same: the
/// updates published before the flag was seen cleared are exactly those the
/// turns before it produced, whatever comes after.
pub proof fn lemma_stopped_run_applies_nothing(
    before: SimulationSession,
    after: SimulationSession,
    r: Option<StepResult>,
)
    requires
        !before.is_running_flag(),
        ticked(before, after, r),
    ensures
        r is None,
        after == before,
        !after.is_running_flag(),
        after.manager_view() == before.manager_view(),
{
}

/// A turn of the background run while the run is wanted does what one
/// `step` of the manager does, and nothing else.
pub proof fn lemma_running_tick_is_one_step(before: SimulationSession, after: SimulationSession, r: Option<StepResult>)
    requires
        before.is_running_flag(),
        ticked(before, after, r),
    ensures
        r is Some,
        stepped(before.manager_view(), after.manager_view(), r.unwrap()),
        after.is_running_flag() <==> r.unwrap().success,
{
}

/// The manager of a well-formed session is well formed.
pub proof fn lemma_session_wf(s: SimulationSession)
    requires
        s.wf(),
    ensures
        s.manager_view().wf(),
{
}

/// A turn of the background run is a function of the session it starts
/// from: two turns from the same session apply a step or not alike and
/// leave the same hypergraph, step number and run flag. So, turn by turn, a
/// run that is stopped part-way publishes exactly the updates that an
/// uncancelled run from the same session publishes up to that point.
pub proof fn lemma_tick_deterministic(
    s: SimulationSession,
    a1: SimulationSession,
    r1: Option<StepResult>,
    a2: SimulationSession,
    r2: Option<StepResult>,
)
    requires
        ticked(s, a1, r1),
        ticked(s, a2, r2),
    ensures
        r1 is Some <==> r2 is Some,
        a1.is_running_flag() == a2.is_running_flag(),
        a1.manager_view().graph() == a2.manager_view().graph(),
        a1.manager_view().steps() == a2.manager_view().steps(),
        r1 is Some ==> r1.unwrap().success == r2.unwrap().success,
{
    if s.is_running_flag() {
        crate::manager::lemma_step_deterministic(s.manager_view(), a1.manager_view(), r1.unwrap(), a2.manager_view(), r2.unwrap());
    }
}

} // verus!
