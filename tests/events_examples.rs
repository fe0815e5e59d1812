use wolfram_sim::{Atom, AtomId, HypergraphState, PredefinedExamples, Relation, RelationId, RuleId, SimulationEvent};

#[test]
fn test_simulation_event_creation() {
    let rule_id = RuleId::new(1);
    let atoms_created = vec![AtomId::new(10), AtomId::new(11)];
    let relations_created = vec![RelationId::new(20)];
    let relations_removed = vec![RelationId::new(19)];

    let event = SimulationEvent::new(5, rule_id, atoms_created.clone(), relations_created.clone(), relations_removed.clone());

    assert_eq!(event.step_number(), 5);
    assert_eq!(event.rule_id(), rule_id);
    assert_eq!(event.atoms_created(), &atoms_created);
    assert_eq!(event.relations_created(), &relations_created);
    assert_eq!(event.relations_removed(), &relations_removed);
    assert_eq!(event.description(), None);
}

#[test]
fn test_simulation_event_with_description() {
    let rule_id = RuleId::new(1);
    let description = "Applied edge splitting rule".to_string();

    let event = SimulationEvent::with_description(
        3,
        rule_id,
        vec![AtomId::new(5)],
        vec![RelationId::new(10), RelationId::new(11)],
        vec![RelationId::new(9)],
        description.clone(),
    );

    assert_eq!(event.step_number(), 3);
    assert_eq!(event.description(), Some(description.as_str()));
}

#[test]
fn test_set_description() {
    let rule_id = RuleId::new(1);
    let mut event = SimulationEvent::new(1, rule_id, vec![], vec![], vec![]);

    assert_eq!(event.description(), None);

    event.set_description(Some("Test description".to_string()));
    assert_eq!(event.description(), Some("Test description"));

    event.set_description(None);
    assert_eq!(event.description(), None);
}

#[test]
fn test_hypergraph_state_creation() {
    let atoms = vec![Atom::new(AtomId::new(1)), Atom::new(AtomId::new(2))];
    let relations = vec![Relation::new(RelationId::new(1), vec![AtomId::new(1), AtomId::new(2)])];

    let state = HypergraphState::new(atoms.clone(), relations.clone(), 10, 3, 2);

    assert_eq!(state.atoms().len(), 2);
    assert_eq!(state.relations().len(), 1);
    assert_eq!(state.step_number(), 10);
    assert_eq!(state.next_atom_id(), 3);
    assert_eq!(state.next_relation_id(), 2);
}

#[test]
fn test_all_examples_exist() {
    for example_name in PredefinedExamples::list_examples() {
        let state = PredefinedExamples::get_example(example_name);
        assert!(state.is_some(), "Example '{}' should exist", example_name);
    }
}

#[test]
fn test_all_examples_are_valid() {
    let result = PredefinedExamples::validate_all_examples();
    assert!(result.is_ok(), "All examples should be valid: {:?}", result.err());
}

#[test]
fn test_empty_graph() {
    let state = PredefinedExamples::empty_graph();
    assert_eq!(state.atoms().len(), 0);
    assert_eq!(state.relations().len(), 0);
    assert_eq!(state.step_number(), 0);
    assert_eq!(state.next_atom_id(), 0);
    assert_eq!(state.next_relation_id(), 0);
}

#[test]
fn test_single_edge() {
    let state = PredefinedExamples::single_edge();
    assert_eq!(state.atoms().len(), 2);
    assert_eq!(state.relations().len(), 1);
    assert_eq!(state.step_number(), 0);
    assert_eq!(state.next_atom_id(), 2);
    assert_eq!(state.next_relation_id(), 1);

    let relation = &state.relations()[0];
    assert_eq!(relation.atoms().len(), 2);
}

#[test]
fn test_triangle() {
    let state = PredefinedExamples::triangle();
    assert_eq!(state.atoms().len(), 3);
    assert_eq!(state.relations().len(), 3);

    for atom in state.atoms() {
        let connections = state.relations().iter().filter(|r| r.contains_atom(atom.id())).count();
        assert_eq!(connections, 2, "Each atom in triangle should have exactly 2 connections");
    }
}

#[test]
fn test_small_path() {
    let state = PredefinedExamples::small_path();
    assert_eq!(state.atoms().len(), 4);
    assert_eq!(state.relations().len(), 3);

    let atoms: Vec<_> = state.atoms().iter().collect();
    let connections_0 = state.relations().iter().filter(|r| r.contains_atom(atoms[0].id())).count();
    let connections_1 = state.relations().iter().filter(|r| r.contains_atom(atoms[1].id())).count();
    let connections_2 = state.relations().iter().filter(|r| r.contains_atom(atoms[2].id())).count();
    let connections_3 = state.relations().iter().filter(|r| r.contains_atom(atoms[3].id())).count();

    assert_eq!(connections_0, 1, "First atom should have 1 connection");
    assert_eq!(connections_1, 2, "Second atom should have 2 connections");
    assert_eq!(connections_2, 2, "Third atom should have 2 connections");
    assert_eq!(connections_3, 1, "Last atom should have 1 connection");
}

#[test]
fn test_small_cycle() {
    let state = PredefinedExamples::small_cycle();
    assert_eq!(state.atoms().len(), 4);
    assert_eq!(state.relations().len(), 4);

    for atom in state.atoms() {
        let connections = state.relations().iter().filter(|r| r.contains_atom(atom.id())).count();
        assert_eq!(connections, 2, "Each atom in cycle should have exactly 2 connections");
    }
}

#[test]
fn test_all_examples_have_descriptions() {
    for example_name in PredefinedExamples::list_examples() {
        let description = PredefinedExamples::get_description(example_name);
        assert!(description.is_some(), "Example '{}' should have a description", example_name);
        assert!(!description.unwrap().is_empty(), "Example '{}' description should not be empty", example_name);
    }
}

#[test]
fn test_get_all_example_info() {
    let info = PredefinedExamples::get_all_example_info();
    assert_eq!(info.len(), PredefinedExamples::list_examples().len());

    for item in &info {
        assert!(!item.name.is_empty());
        assert!(!item.description.is_empty());
        assert!(item.atom_count <= 10, "Example atom count should be reasonable");
        assert!(item.relation_count <= 10, "Example relation count should be reasonable");
    }
}

#[test]
fn test_nonexistent_example() {
    let state = PredefinedExamples::get_example("nonexistent");
    assert!(state.is_none(), "Nonexistent example should return None");

    let description = PredefinedExamples::get_description("nonexistent");
    assert!(description.is_none(), "Nonexistent example description should return None");
}

#[test]
fn example_names_are_exact() {
    assert!(PredefinedExamples::get_example("Triangle").is_none());
    assert!(PredefinedExamples::get_example("triangle ").is_none());
    assert_eq!(PredefinedExamples::get_example("small_cycle").unwrap().relations().len(), 4);
}
