//! Evolution of a hypergraph under local rewrite rules: the hypergraph store,
//! patterns and rules, the search for every embedding of a pattern, the
//! rewrite that applies a rule at one embedding, and the controller that
//! sequences steps and exchanges snapshots.

use vstd::prelude::*;

pub mod atom;
pub mod relation;
pub mod hypergraph;
pub mod pattern;
pub mod rule;
pub mod matching;
pub mod rewriter;
pub mod event;
pub mod manager;
pub mod session;
pub mod examples;
pub mod persistence;

pub use atom::{Atom, AtomId};
pub use relation::{Relation, RelationId};
pub use hypergraph::Hypergraph;
pub use pattern::{Binding, Pattern, PatternElement, PatternRelation, Variable};
pub use rule::{Rule, RuleId, RuleSet};
pub use matching::{PatternMatch, find_pattern_matches};
pub use rewriter::{RewriteResult, apply_rule, apply_first_available_rule};
pub use event::{HypergraphState, SimulationEvent};
pub use manager::{
    ContinuousRunResult, ContinuousSimulationConfig, SimulationManager, StateError, StepResult, StopReason,
    validate_state,
};
pub use session::SimulationSession;
pub use examples::{ExampleInfo, PredefinedExamples};
pub use persistence::{PersistenceManager, SaveConfig};

verus! {

} // verus!
