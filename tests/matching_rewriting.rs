use wolfram_sim::{
    apply_first_available_rule, apply_rule, find_pattern_matches, AtomId, Hypergraph, Pattern, PatternElement,
    PatternRelation, Rule, RuleId, Variable,
};

#[test]
fn test_empty_pattern_no_matches() {
    let mut hypergraph = Hypergraph::new();
    let atom1 = hypergraph.create_atom();
    let atom2 = hypergraph.create_atom();
    hypergraph.create_relation(vec![atom1, atom2]);

    let pattern = Pattern::new(vec![]);
    let matches = find_pattern_matches(&pattern, &hypergraph);

    assert!(matches.is_empty());
}

#[test]
fn test_simple_variable_match() {
    let mut hypergraph = Hypergraph::new();
    let atom1 = hypergraph.create_atom();
    let atom2 = hypergraph.create_atom();
    let relation_id = hypergraph.create_relation(vec![atom1, atom2]);

    let pattern_relation = PatternRelation::new(vec![PatternElement::variable("x"), PatternElement::variable("y")]);
    let pattern = Pattern::new(vec![pattern_relation]);

    let matches = find_pattern_matches(&pattern, &hypergraph);

    assert_eq!(matches.len(), 1);
    let match_result = &matches[0];

    let var_x = Variable::new("x");
    let var_y = Variable::new("y");
    assert_eq!(match_result.binding.get_binding(&var_x), Some(atom1));
    assert_eq!(match_result.binding.get_binding(&var_y), Some(atom2));
    assert_eq!(match_result.matched_relations, vec![relation_id]);
}

#[test]
fn test_concrete_atom_match() {
    let mut hypergraph = Hypergraph::new();
    let atom1 = hypergraph.create_atom();
    let atom2 = hypergraph.create_atom();
    let atom3 = hypergraph.create_atom();

    let relation_id1 = hypergraph.create_relation(vec![atom1, atom2]);
    let _relation_id2 = hypergraph.create_relation(vec![atom2, atom3]);

    let pattern_relation = PatternRelation::new(vec![PatternElement::atom(atom1), PatternElement::variable("y")]);
    let pattern = Pattern::new(vec![pattern_relation]);

    let matches = find_pattern_matches(&pattern, &hypergraph);

    assert_eq!(matches.len(), 1);
    let match_result = &matches[0];

    let var_y = Variable::new("y");
    assert_eq!(match_result.binding.get_binding(&var_y), Some(atom2));
    assert_eq!(match_result.matched_relations, vec![relation_id1]);
}

#[test]
fn test_no_match_different_arity() {
    let mut hypergraph = Hypergraph::new();
    let atom1 = hypergraph.create_atom();
    let atom2 = hypergraph.create_atom();
    let atom3 = hypergraph.create_atom();

    hypergraph.create_relation(vec![atom1, atom2, atom3]);

    let pattern_relation = PatternRelation::new(vec![PatternElement::variable("x"), PatternElement::variable("y")]);
    let pattern = Pattern::new(vec![pattern_relation]);

    let matches = find_pattern_matches(&pattern, &hypergraph);

    assert!(matches.is_empty());
}

#[test]
fn test_apply_basic_edge_splitting_rule() {
    let mut hypergraph = Hypergraph::new();

    let atom_a = hypergraph.create_atom();
    let atom_b = hypergraph.create_atom();
    let initial_relation = hypergraph.create_relation(vec![atom_a, atom_b]);

    let rule = Rule::create_basic_edge_splitting_rule();

    let matches = find_pattern_matches(rule.pattern(), &hypergraph);
    assert_eq!(matches.len(), 1);

    let pattern_match = &matches[0];

    let result = apply_rule(&mut hypergraph, &rule, pattern_match);

    assert!(result.success);
    assert_eq!(result.new_atoms.len(), 1);
    assert_eq!(result.new_relations.len(), 2);
    assert_eq!(result.removed_relations.len(), 1);
    assert_eq!(result.removed_relations[0], initial_relation);

    assert_eq!(hypergraph.atom_count(), 3);
    assert_eq!(hypergraph.relation_count(), 2);

    let new_atom_z = result.new_atoms[0];
    assert!(hypergraph.contains_atom(new_atom_z));

    for &new_relation_id in &result.new_relations {
        let relation = hypergraph.get_relation(new_relation_id).unwrap();
        assert_eq!(relation.arity(), 2);

        let atoms = relation.atoms();
        assert!((atoms[0] == atom_a && atoms[1] == new_atom_z) || (atoms[0] == new_atom_z && atoms[1] == atom_b));
    }
}

#[test]
fn test_apply_rule_with_concrete_atoms() {
    let mut hypergraph = Hypergraph::new();

    let atom1 = hypergraph.create_atom();
    let atom2 = hypergraph.create_atom();
    let atom3 = hypergraph.create_atom();

    let relation1 = hypergraph.create_relation(vec![atom1, atom2]);
    let _relation2 = hypergraph.create_relation(vec![atom2, atom3]);

    let pattern_relation = PatternRelation::new(vec![PatternElement::atom(atom1), PatternElement::variable("y")]);
    let pattern = Pattern::new(vec![pattern_relation]);

    let replacement_relation = PatternRelation::new(vec![PatternElement::atom(atom1), PatternElement::variable("z")]);
    let replacement = Pattern::new(vec![replacement_relation]);

    let rule = Rule::new(RuleId::new(100), pattern, replacement);

    let matches = find_pattern_matches(rule.pattern(), &hypergraph);
    assert_eq!(matches.len(), 1);

    let result = apply_rule(&mut hypergraph, &rule, &matches[0]);

    assert!(result.success);
    assert_eq!(result.new_atoms.len(), 1);
    assert_eq!(result.new_relations.len(), 1);
    assert_eq!(result.removed_relations.len(), 1);
    assert_eq!(result.removed_relations[0], relation1);

    let new_relation = hypergraph.get_relation(result.new_relations[0]).unwrap();
    assert_eq!(new_relation.atoms()[0], atom1);
    assert_eq!(new_relation.atoms()[1], result.new_atoms[0]);
}

#[test]
fn test_apply_first_available_rule() {
    let mut hypergraph = Hypergraph::new();

    let atom_a = hypergraph.create_atom();
    let atom_b = hypergraph.create_atom();
    hypergraph.create_relation(vec![atom_a, atom_b]);

    let rules = vec![Rule::create_basic_edge_splitting_rule()];

    let result = apply_first_available_rule(&mut hypergraph, &rules);

    assert!(result.is_some());
    let result = result.unwrap();
    assert!(result.success);
    assert_eq!(result.new_atoms.len(), 1);
    assert_eq!(result.new_relations.len(), 2);
    assert_eq!(result.removed_relations.len(), 1);
}

#[test]
fn test_no_rules_applicable() {
    let mut hypergraph = Hypergraph::new();

    let atom_a = hypergraph.create_atom();
    let atom_b = hypergraph.create_atom();
    let atom_c = hypergraph.create_atom();
    hypergraph.create_relation(vec![atom_a, atom_b, atom_c]);

    let rules = vec![Rule::create_basic_edge_splitting_rule()];

    let result = apply_first_available_rule(&mut hypergraph, &rules);
    assert!(result.is_none());
}

#[test]
fn two_edge_path_has_all_embeddings_of_a_two_relation_pattern() {
    let mut hypergraph = Hypergraph::new();
    let a = hypergraph.create_atom();
    let b = hypergraph.create_atom();
    let c = hypergraph.create_atom();
    let r1 = hypergraph.create_relation(vec![a, b]);
    let r2 = hypergraph.create_relation(vec![b, c]);
    let pattern = Pattern::new(vec![
        PatternRelation::new(vec![PatternElement::variable("x"), PatternElement::variable("y")]),
        PatternRelation::new(vec![PatternElement::variable("y"), PatternElement::variable("z")]),
    ]);
    let matches = find_pattern_matches(&pattern, &hypergraph);
    assert_eq!(matches.len(), 1);
    assert_eq!(matches[0].matched_relations, vec![r1, r2]);
    assert_eq!(matches[0].binding.get_binding(&Variable::new("z")), Some(c));

    let loose = Pattern::new(vec![
        PatternRelation::new(vec![PatternElement::variable("p"), PatternElement::variable("q")]),
        PatternRelation::new(vec![PatternElement::variable("s"), PatternElement::variable("t")]),
    ]);
    let all = find_pattern_matches(&loose, &hypergraph);
    assert_eq!(all.len(), 2);
}

#[test]
fn repeated_variable_must_bind_one_atom() {
    let mut hypergraph = Hypergraph::new();
    let a = hypergraph.create_atom();
    let b = hypergraph.create_atom();
    hypergraph.create_relation(vec![a, b]);
    let self_loop = hypergraph.create_relation(vec![b, b]);
    let pattern = Pattern::from_elements(vec![PatternElement::variable("x"), PatternElement::variable("x")]);
    let matches = find_pattern_matches(&pattern, &hypergraph);
    assert_eq!(matches.len(), 1);
    assert_eq!(matches[0].matched_relations, vec![self_loop]);
    assert_eq!(matches[0].binding.len(), 1);
}

#[test]
fn rewrite_of_vanished_relation_fails() {
    let mut hypergraph = Hypergraph::new();
    let a = hypergraph.create_atom();
    let b = hypergraph.create_atom();
    hypergraph.create_relation(vec![a, b]);
    let rule = Rule::create_basic_edge_splitting_rule();
    let matches = find_pattern_matches(rule.pattern(), &hypergraph);
    let m = matches[0].clone();
    hypergraph.remove_relation(m.matched_relations[0]);
    let result = apply_rule(&mut hypergraph, &rule, &m);
    assert!(!result.success);
    assert!(result.error_message.is_some());
    assert!(result.new_atoms.is_empty());
    assert_eq!(hypergraph.atom_count(), 2);
}

#[test]
fn replacement_metadata_is_copied() {
    let mut hypergraph = Hypergraph::new();
    let a = hypergraph.create_atom();
    let b = hypergraph.create_atom();
    hypergraph.create_relation(vec![a, b]);
    let pattern = Pattern::from_elements(vec![PatternElement::variable("x"), PatternElement::variable("y")]);
    let replacement = Pattern::new(vec![PatternRelation::with_metadata(
        vec![PatternElement::variable("y"), PatternElement::variable("x")],
        "flipped".to_string(),
    )]);
    let rule = Rule::new(RuleId::new(3), pattern, replacement);
    let matches = find_pattern_matches(rule.pattern(), &hypergraph);
    let result = apply_rule(&mut hypergraph, &rule, &matches[0]);
    assert!(result.success);
    assert!(result.new_atoms.is_empty());
    let rel = hypergraph.get_relation(result.new_relations[0]).unwrap();
    assert_eq!(rel.atoms(), &[b, a]);
    assert_eq!(rel.metadata(), Some("flipped"));
    assert_eq!(result.new_relations[0].value(), 1);
    assert_eq!(AtomId::new(2), AtomId::new(hypergraph.next_atom_id()));
}

#[test]
fn rewrite_naming_missing_atom_fails_without_change() {
    let mut hypergraph = Hypergraph::new();
    let a = hypergraph.create_atom();
    let b = hypergraph.create_atom();
    let r = hypergraph.create_relation(vec![a, b]);
    let pattern = Pattern::from_elements(vec![PatternElement::variable("x"), PatternElement::variable("y")]);
    let replacement = Pattern::from_elements(vec![PatternElement::variable("x"), PatternElement::atom(AtomId::new(77))]);
    let rule = Rule::new(RuleId::new(9), pattern, replacement);
    let matches = find_pattern_matches(rule.pattern(), &hypergraph);
    let result = apply_rule(&mut hypergraph, &rule, &matches[0]);
    assert!(!result.success);
    assert!(result.removed_relations.is_empty());
    assert!(hypergraph.contains_relation(r));
    assert_eq!(hypergraph.relation_count(), 1);
    assert_eq!(apply_first_available_rule(&mut hypergraph, &[rule]).map(|res| res.success), Some(false));
    assert!(hypergraph.contains_relation(r));
}

#[test]
fn metadata_setters_change_only_metadata() {
    let mut hypergraph = Hypergraph::new();
    let a = hypergraph.create_atom();
    let r = hypergraph.create_relation(vec![a, a]);
    assert!(hypergraph.set_atom_metadata(a, Some("m".to_string())));
    assert_eq!(hypergraph.get_atom(a).unwrap().metadata(), Some("m"));
    assert!(hypergraph.set_relation_metadata(r, Some("e".to_string())));
    assert_eq!(hypergraph.get_relation(r).unwrap().metadata(), Some("e"));
    assert_eq!(hypergraph.get_relation(r).unwrap().atoms(), &[a, a]);
    assert_eq!(hypergraph.find_relations_with_atom(a).len(), 1);
    assert!(!hypergraph.set_atom_metadata(AtomId::new(5), None));
}

#[test]
fn missing_relation_is_found_before_missing_atoms() {
    let mut hypergraph = Hypergraph::new();
    let a = hypergraph.create_atom();
    let b = hypergraph.create_atom();
    let r0 = hypergraph.create_relation(vec![a, b]);
    let rule = Rule::create_basic_edge_splitting_rule();
    let mut binding = wolfram_sim::Binding::new();
    binding.bind(Variable::new("x"), AtomId::new(99));
    let m = wolfram_sim::PatternMatch::new(binding, vec![r0, wolfram_sim::RelationId::new(5)]);
    let result = apply_rule(&mut hypergraph, &rule, &m);
    assert!(!result.success);
    assert!(result.error_message.is_some());
    assert!(!hypergraph.contains_relation(r0));
    assert_eq!(hypergraph.atom_count(), 2);
}

#[test]
fn first_match_in_relation_id_order_is_applied() {
    let mut hypergraph = Hypergraph::new();
    let a = hypergraph.create_atom();
    let b = hypergraph.create_atom();
    let c = hypergraph.create_atom();
    let r0 = hypergraph.create_relation(vec![a, b]);
    let r1 = hypergraph.create_relation(vec![b, c]);
    let rule = Rule::create_basic_edge_splitting_rule();
    let matches = find_pattern_matches(rule.pattern(), &hypergraph);
    assert_eq!(matches.len(), 2);
    assert_eq!(matches[0].matched_relations, vec![r0]);
    assert_eq!(matches[1].matched_relations, vec![r1]);
    let result = apply_first_available_rule(&mut hypergraph, &[rule]).unwrap();
    assert_eq!(result.removed_relations, vec![r0]);
    assert!(hypergraph.contains_relation(r1));
}
