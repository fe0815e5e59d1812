use wolfram_sim::{
    find_pattern_matches, validate_state, Atom, AtomId, ContinuousSimulationConfig, Hypergraph, HypergraphState,
    PredefinedExamples, Relation, RelationId, Rule, RuleSet, SaveConfig, PersistenceManager, SimulationManager,
    SimulationSession, StateError, StopReason,
};
use wolfram_sim::rewriter::apply_rule;

#[test]
fn test_end_to_end_edge_splitting() {
    let mut hypergraph = Hypergraph::new();
    let atom_a = hypergraph.create_atom();
    let atom_b = hypergraph.create_atom();
    let initial_relation = hypergraph.create_relation(vec![atom_a, atom_b]);

    assert_eq!(hypergraph.atom_count(), 2);
    assert_eq!(hypergraph.relation_count(), 1);

    let rule = Rule::create_basic_edge_splitting_rule();

    let matches = find_pattern_matches(rule.pattern(), &hypergraph);
    assert_eq!(matches.len(), 1);
    let pattern_match = &matches[0];

    assert_eq!(pattern_match.matched_relations.len(), 1);
    assert_eq!(pattern_match.matched_relations[0], initial_relation);
    assert_eq!(pattern_match.binding.len(), 2);

    let result = apply_rule(&mut hypergraph, &rule, pattern_match);

    assert!(result.success);
    assert_eq!(result.new_atoms.len(), 1);
    assert_eq!(result.new_relations.len(), 2);
    assert_eq!(result.removed_relations.len(), 1);

    assert_eq!(hypergraph.atom_count(), 3);
    assert_eq!(hypergraph.relation_count(), 2);
    assert!(!hypergraph.contains_relation(initial_relation));

    let new_atom_z = result.new_atoms[0];
    assert!(hypergraph.contains_atom(new_atom_z));

    let mut found_a_z = false;
    let mut found_z_b = false;

    for &new_relation_id in &result.new_relations {
        let relation = hypergraph.get_relation(new_relation_id).unwrap();
        let atoms = relation.atoms();

        if (atoms[0] == atom_a && atoms[1] == new_atom_z) || (atoms[0] == new_atom_z && atoms[1] == atom_a) {
            found_a_z = true;
        }

        if (atoms[0] == atom_b && atoms[1] == new_atom_z) || (atoms[0] == new_atom_z && atoms[1] == atom_b) {
            found_z_b = true;
        }
    }

    assert!(found_a_z, "Should find A-Z connection");
    assert!(found_z_b, "Should find Z-B connection");
}

#[test]
fn single_edge_pattern_has_one_match_in_one_orientation() {
    let manager = SimulationManager::from_state(&PredefinedExamples::single_edge(), RuleSet::create_basic_ruleset()).unwrap();
    let rule = Rule::create_basic_edge_splitting_rule();
    let matches = find_pattern_matches(rule.pattern(), manager.hypergraph());
    assert_eq!(matches.len(), 1);
    assert_eq!(matches[0].matched_relations, vec![RelationId::new(0)]);
    let x = matches[0].binding.get_binding(&wolfram_sim::Variable::new("x")).unwrap();
    let y = matches[0].binding.get_binding(&wolfram_sim::Variable::new("y")).unwrap();
    assert!((x, y) == (AtomId::new(0), AtomId::new(1)) || (x, y) == (AtomId::new(1), AtomId::new(0)));
}

#[test]
fn edge_split_step_on_single_edge() {
    let mut manager = SimulationManager::from_state(&PredefinedExamples::single_edge(), RuleSet::create_basic_ruleset()).unwrap();
    let result = manager.step();
    assert!(result.success);
    let event = result.event.unwrap();
    assert_eq!(event.atoms_created(), &[AtomId::new(2)]);
    assert_eq!(event.relations_created(), &[RelationId::new(1), RelationId::new(2)]);
    assert_eq!(event.relations_removed(), &[RelationId::new(0)]);
    assert_eq!(event.step_number(), 1);
    assert_eq!(result.state.atoms().len(), 3);
    assert_eq!(result.state.relations().len(), 2);
    let r1 = &result.state.relations()[0];
    let r2 = &result.state.relations()[1];
    assert_eq!(r1.atoms(), &[AtomId::new(0), AtomId::new(2)]);
    assert_eq!(r2.atoms(), &[AtomId::new(2), AtomId::new(1)]);
    assert_eq!(manager.step_number(), 1);
    assert_eq!(manager.event_history().len(), 1);
}

#[test]
fn snapshot_round_trip_restores_the_same_hypergraph() {
    let mut manager = SimulationManager::from_state(&PredefinedExamples::triangle(), RuleSet::create_basic_ruleset()).unwrap();
    manager.step_multiple(3);
    let state = manager.get_current_state();
    let rebuilt = SimulationManager::from_state(&state, RuleSet::create_basic_ruleset()).unwrap();
    assert_eq!(rebuilt.get_current_state(), state);
    assert_eq!(rebuilt.step_number(), 3);

    let mut other = SimulationManager::new();
    other.load_state(&state).unwrap();
    assert_eq!(other.get_current_state(), state);
    assert_eq!(other.hypergraph().next_atom_id(), state.next_atom_id());
}

#[test]
fn invalid_snapshots_are_rejected_with_their_problem() {
    let dangling = HypergraphState::new(
        vec![Atom::new(AtomId::new(0)), Atom::new(AtomId::new(1))],
        vec![Relation::new(RelationId::new(0), vec![AtomId::new(0), AtomId::new(99)])],
        0,
        2,
        1,
    );
    assert_eq!(validate_state(&dangling), Err(StateError::DanglingAtom { relation_id: 0, atom_id: 99 }));
    assert!(SimulationManager::from_state(&dangling, RuleSet::new()).is_err());

    let low_atoms = HypergraphState::new(vec![Atom::new(AtomId::new(5))], vec![], 0, 5, 0);
    assert_eq!(validate_state(&low_atoms), Err(StateError::AtomCounterTooLow { atom_id: 5, next_atom_id: 5 }));

    let low_relations = HypergraphState::new(
        vec![Atom::new(AtomId::new(0))],
        vec![Relation::new(RelationId::new(3), vec![AtomId::new(0)])],
        0,
        1,
        2,
    );
    assert_eq!(
        validate_state(&low_relations),
        Err(StateError::RelationCounterTooLow { relation_id: 3, next_relation_id: 2 })
    );

    let mut manager = SimulationManager::from_state(&PredefinedExamples::single_edge(), RuleSet::create_basic_ruleset()).unwrap();
    let before = manager.get_current_state();
    assert!(manager.load_state(&low_relations).is_err());
    assert_eq!(manager.get_current_state(), before);
}

#[test]
fn step_without_match_reports_no_applicable_rules() {
    let mut manager = SimulationManager::from_state(&PredefinedExamples::empty_graph(), RuleSet::create_basic_ruleset()).unwrap();
    let result = manager.step();
    assert!(!result.success);
    assert!(result.event.is_none());
    assert_eq!(result.message.as_deref(), Some("no applicable rules"));
    assert_eq!(manager.step_number(), 0);
    let results = manager.step_multiple(4);
    assert_eq!(results.len(), 1);
    assert!(!results[0].success);
}

#[test]
fn step_multiple_runs_requested_steps() {
    let mut manager = SimulationManager::from_state(&PredefinedExamples::single_edge(), RuleSet::create_basic_ruleset()).unwrap();
    let results = manager.step_multiple(4);
    assert_eq!(results.len(), 4);
    assert!(results.iter().all(|r| r.success));
    assert_eq!(manager.step_number(), 4);
    assert_eq!(manager.hypergraph().relation_count(), 5);
    assert_eq!(results[3].state.step_number(), 4);
}

#[test]
fn continuous_run_on_triangle_stops_at_five_steps() {
    let mut manager = SimulationManager::from_state(&PredefinedExamples::triangle(), RuleSet::create_basic_ruleset()).unwrap();
    let config = ContinuousSimulationConfig { max_steps: Some(5), stop_on_fixed_point: true, report_interval: None };
    let mut atoms = manager.hypergraph().atom_count();
    let mut relations = manager.hypergraph().relation_count();
    let result = manager.run_continuous(&config, || true);
    assert!(result.steps_executed <= 5);
    assert_eq!(result.steps_executed, 5);
    assert_eq!(result.stop_reason, StopReason::MaxSteps);
    assert_eq!(result.events.len(), 5);
    for event in &result.events {
        assert_eq!(event.atoms_created().len(), 1);
        assert_eq!(event.relations_created().len(), 2);
        assert_eq!(event.relations_removed().len(), 1);
        atoms += 1;
        relations += 1;
    }
    assert_eq!(result.final_state.atoms().len(), atoms);
    assert_eq!(result.final_state.relations().len(), relations);
}

#[test]
fn continuous_run_stops_at_fixed_point_and_on_cancel() {
    let mut manager = SimulationManager::from_state(&PredefinedExamples::empty_graph(), RuleSet::create_basic_ruleset()).unwrap();
    let config = ContinuousSimulationConfig { max_steps: None, stop_on_fixed_point: true, report_interval: None };
    let result = manager.run_continuous(&config, || true);
    assert_eq!(result.stop_reason, StopReason::FixedPoint);
    assert_eq!(result.steps_executed, 0);

    let mut manager = SimulationManager::from_state(&PredefinedExamples::single_edge(), RuleSet::create_basic_ruleset()).unwrap();
    let result = manager.run_continuous(&config, || false);
    assert_eq!(result.stop_reason, StopReason::Cancelled);
    assert_eq!(manager.step_number(), 0);
}

#[test]
fn stopped_session_applies_no_step() {
    let manager = SimulationManager::from_state(&PredefinedExamples::single_edge(), RuleSet::create_basic_ruleset()).unwrap();
    let mut session = SimulationSession::new(manager);
    session.start_run();
    let first = session.run_tick().unwrap();
    assert!(first.success);
    let second = session.run_tick().unwrap();
    assert!(second.success);
    let snapshot = session.stop();
    assert!(!session.is_running());
    assert!(session.run_tick().is_none());
    assert_eq!(session.current_state(), snapshot);
    assert_eq!(snapshot.step_number(), 2);

    let manager = SimulationManager::from_state(&PredefinedExamples::single_edge(), RuleSet::create_basic_ruleset()).unwrap();
    let mut uncancelled = SimulationSession::new(manager);
    uncancelled.start_run();
    let a = uncancelled.run_tick().unwrap();
    let b = uncancelled.run_tick().unwrap();
    assert_eq!(a, first);
    assert_eq!(b, second);
}

#[test]
fn session_run_ends_at_fixed_point() {
    let mut session = SimulationSession::new(SimulationManager::new());
    session.initialize(&PredefinedExamples::empty_graph(), RuleSet::create_basic_ruleset()).unwrap();
    session.start_run();
    let tick = session.run_tick().unwrap();
    assert!(!tick.success);
    assert!(!session.is_running());
    assert!(session.run_tick().is_none());
    assert!(session.load(&PredefinedExamples::triangle()).is_ok());
    assert_eq!(session.step(2).len(), 2);
}

#[test]
fn save_config_defaults_and_directory() {
    let config = SaveConfig::default();
    assert!(config.create_directories);
    assert!(!config.overwrite_existing);
    assert!(config.pretty_print);
    let mut persistence = PersistenceManager::new();
    assert_eq!(persistence.default_save_directory(), "saved_hypergraphs");
    persistence.set_default_save_directory("elsewhere");
    assert_eq!(persistence.default_save_directory(), "elsewhere");
    assert_eq!(PersistenceManager::with_save_directory("d").default_save_directory(), "d");
}

#[test]
fn zero_step_limit_stops_before_any_step() {
    let mut manager = SimulationManager::from_state(&PredefinedExamples::single_edge(), RuleSet::create_basic_ruleset()).unwrap();
    let config = ContinuousSimulationConfig { max_steps: Some(0), stop_on_fixed_point: false, report_interval: None };
    let result = manager.run_continuous(&config, || true);
    assert_eq!(result.stop_reason, StopReason::MaxSteps);
    assert_eq!(result.steps_executed, 0);
    assert_eq!(manager.step_number(), 0);
}

#[test]
fn example_info_matches_examples() {
    let info = PredefinedExamples::get_all_example_info();
    for item in &info {
        let state = PredefinedExamples::get_example(item.name).unwrap();
        assert_eq!(item.atom_count, state.atoms().len());
        assert_eq!(item.relation_count, state.relations().len());
        assert_eq!(Some(item.description), PredefinedExamples::get_description(item.name));
    }
    assert_eq!(info[4].name, "small_cycle");
    assert_eq!(info[4].relation_count, 4);
}

#[test]
fn triangle_five_steps_give_eight_atoms_and_relations() {
    let mut manager = SimulationManager::from_state(&PredefinedExamples::triangle(), RuleSet::create_basic_ruleset()).unwrap();
    let results = manager.step_multiple(5);
    assert_eq!(results.len(), 5);
    assert!(results.iter().all(|r| r.success));
    let state = manager.get_current_state();
    assert_eq!(state.atoms().len(), 8);
    assert_eq!(state.relations().len(), 8);
}

#[test]
fn run_counts_attempts_without_fixed_point_stop() {
    let mut manager = SimulationManager::from_state(&PredefinedExamples::empty_graph(), RuleSet::create_basic_ruleset()).unwrap();
    let config = ContinuousSimulationConfig { max_steps: Some(3), stop_on_fixed_point: false, report_interval: None };
    let counter = std::cell::Cell::new(0u32);
    let result = manager.run_continuous(&config, || {
        counter.set(counter.get() + 1);
        counter.get() <= 4
    });
    assert_eq!(result.stop_reason, StopReason::Cancelled);
    assert_eq!(result.steps_executed, 0);
    assert_eq!(result.attempts, 4);
}

#[test]
fn two_sessions_from_one_state_publish_the_same_updates() {
    let mut first = SimulationSession::new(SimulationManager::new());
    first.initialize(&PredefinedExamples::small_cycle(), RuleSet::create_basic_ruleset()).unwrap();
    let mut second = SimulationSession::new(SimulationManager::new());
    second.initialize(&PredefinedExamples::small_cycle(), RuleSet::create_basic_ruleset()).unwrap();
    first.start_run();
    second.start_run();
    for _ in 0..3 {
        assert_eq!(first.run_tick(), second.run_tick());
    }
    first.stop();
    assert!(first.run_tick().is_none());
    assert!(second.run_tick().is_some());
}
