use wolfram_sim::{AtomId, Binding, Pattern, PatternElement, PatternRelation, Rule, RuleId, RuleSet, Variable};

#[test]
fn test_variable_creation() {
    let var = Variable::new("x");
    assert_eq!(var.name(), "x");
}

#[test]
fn test_binding_basic() {
    let var_x = Variable::new("x");
    let atom_id = AtomId::new(1);

    let mut binding = Binding::new();
    assert!(binding.is_empty());

    assert!(binding.bind(var_x.clone(), atom_id));
    assert_eq!(binding.get_binding(&var_x), Some(atom_id));
    assert!(binding.is_bound(&var_x));
    assert_eq!(binding.len(), 1);
}

#[test]
fn test_binding_consistency() {
    let var_x = Variable::new("x");
    let atom_id1 = AtomId::new(1);
    let atom_id2 = AtomId::new(2);

    let mut binding = Binding::new();

    assert!(binding.bind(var_x.clone(), atom_id1));

    assert!(!binding.bind(var_x.clone(), atom_id2));

    assert_eq!(binding.get_binding(&var_x), Some(atom_id1));

    assert!(binding.bind(var_x.clone(), atom_id1));
}

#[test]
fn test_binding_merge() {
    let var_x = Variable::new("x");
    let var_y = Variable::new("y");
    let var_z = Variable::new("z");

    let atom_id1 = AtomId::new(1);
    let atom_id2 = AtomId::new(2);
    let atom_id3 = AtomId::new(3);

    let mut binding1 = Binding::new();
    binding1.bind(var_x.clone(), atom_id1);
    binding1.bind(var_y.clone(), atom_id2);

    let mut binding2 = Binding::new();
    binding2.bind(var_y.clone(), atom_id2);
    binding2.bind(var_z.clone(), atom_id3);

    let merged = binding1.merge(&binding2);
    assert!(merged.is_some());
    let merged = merged.unwrap();

    assert_eq!(merged.get_binding(&var_x), Some(atom_id1));
    assert_eq!(merged.get_binding(&var_y), Some(atom_id2));
    assert_eq!(merged.get_binding(&var_z), Some(atom_id3));

    let mut binding3 = Binding::new();
    binding3.bind(var_y.clone(), atom_id3);

    assert!(binding1.merge(&binding3).is_none());
}

#[test]
fn test_pattern_element() {
    let atom_id = AtomId::new(42);

    let atom_element = PatternElement::atom(atom_id);
    assert!(atom_element.is_atom());
    assert!(!atom_element.is_variable());
    assert_eq!(atom_element.as_atom(), Some(atom_id));
    assert!(atom_element.as_variable().is_none());

    let var_element = PatternElement::variable("x");
    assert!(!var_element.is_atom());
    assert!(var_element.is_variable());
    assert!(var_element.as_atom().is_none());
    assert_eq!(var_element.as_variable().unwrap().name(), "x");
}

#[test]
fn test_pattern_relation() {
    let elements = vec![PatternElement::variable("x"), PatternElement::atom(AtomId::new(1))];

    let relation = PatternRelation::new(elements.clone());
    assert_eq!(relation.arity(), 2);
    assert_eq!(relation.elements(), elements.as_slice());
    assert_eq!(relation.metadata(), None);

    let metadata = "Edge[\"Type1\"]".to_string();
    let relation_with_meta = PatternRelation::with_metadata(elements.clone(), metadata.clone());
    assert_eq!(relation_with_meta.metadata(), Some(metadata.as_str()));
}

#[test]
fn test_pattern() {
    let relation1 = PatternRelation::new(vec![PatternElement::variable("x"), PatternElement::variable("y")]);

    let relation2 = PatternRelation::new(vec![PatternElement::variable("y"), PatternElement::variable("z")]);

    let mut pattern = Pattern::new(vec![relation1.clone()]);
    assert_eq!(pattern.len(), 1);
    assert_eq!(pattern.relations()[0], relation1);

    pattern.add_relation(relation2.clone());
    assert_eq!(pattern.len(), 2);
    assert_eq!(pattern.relations()[1], relation2);
}

#[test]
fn test_rule_id_creation() {
    let id = RuleId::new(42);
    assert_eq!(id.value(), 42);
}

#[test]
fn test_rule_creation() {
    let rule_id = RuleId::new(1);

    let pattern_relation = PatternRelation::new(vec![PatternElement::variable("x"), PatternElement::variable("y")]);
    let pattern = Pattern::new(vec![pattern_relation]);

    let replacement_relation = PatternRelation::new(vec![PatternElement::variable("x"), PatternElement::variable("z")]);
    let replacement = Pattern::new(vec![replacement_relation]);

    let rule = Rule::new(rule_id, pattern.clone(), replacement.clone());

    assert_eq!(rule.id(), rule_id);
    assert_eq!(rule.pattern(), &pattern);
    assert_eq!(rule.replacement(), &replacement);
    assert_eq!(rule.name(), None);
}

#[test]
fn test_rule_with_name() {
    let rule_id = RuleId::new(2);

    let pattern = Pattern::from_elements(vec![PatternElement::variable("a"), PatternElement::variable("b")]);
    let replacement = Pattern::from_elements(vec![PatternElement::variable("b"), PatternElement::variable("a")]);

    let name = "Swap Rule".to_string();
    let rule = Rule::with_name(rule_id, pattern, replacement, name.clone());

    assert_eq!(rule.name(), Some(name.as_str()));
}

#[test]
fn test_set_name() {
    let rule_id = RuleId::new(3);
    let pattern = Pattern::new(vec![]);
    let replacement = Pattern::new(vec![]);

    let mut rule = Rule::new(rule_id, pattern, replacement);
    assert_eq!(rule.name(), None);

    rule.set_name(Some("Test Rule".to_string()));
    assert_eq!(rule.name(), Some("Test Rule"));

    rule.set_name(None);
    assert_eq!(rule.name(), None);
}

#[test]
fn test_basic_edge_splitting_rule() {
    let rule = Rule::create_basic_edge_splitting_rule();

    assert_eq!(rule.pattern().len(), 1);
    assert_eq!(rule.pattern().relations()[0].arity(), 2);

    assert_eq!(rule.replacement().len(), 2);
    assert_eq!(rule.replacement().relations()[0].arity(), 2);
    assert_eq!(rule.replacement().relations()[1].arity(), 2);

    assert_eq!(rule.replacement().relations()[0].elements()[0].as_variable().unwrap().name(), "x");
    assert_eq!(rule.replacement().relations()[0].elements()[1].as_variable().unwrap().name(), "z");

    assert_eq!(rule.replacement().relations()[1].elements()[0].as_variable().unwrap().name(), "z");
    assert_eq!(rule.replacement().relations()[1].elements()[1].as_variable().unwrap().name(), "y");
}

#[test]
fn test_rule_set() {
    let mut ruleset = RuleSet::new();
    assert!(ruleset.is_empty());

    let rule1 = Rule::create_basic_edge_splitting_rule();
    let rule_id1 = rule1.id();
    ruleset.add_rule(rule1);

    assert_eq!(ruleset.len(), 1);
    assert!(ruleset.get_rule(rule_id1).is_some());
    assert!(ruleset.get_rule(RuleId::new(999)).is_none());

    let rules: Vec<&Rule> = ruleset.iter().collect();
    assert_eq!(rules.len(), 1);
    assert_eq!(rules[0].id(), rule_id1);
}

#[test]
fn test_create_basic_ruleset() {
    let ruleset = RuleSet::create_basic_ruleset();

    assert_eq!(ruleset.len(), 1);
    let rule = ruleset.iter().next().unwrap();
    assert_eq!(rule.name(), Some("Edge Splitting Rule {{x,y}} -> {{x,z},{z,y}}"));
}

#[test]
fn rebinding_same_atom_keeps_binding_and_conflict_leaves_it_intact() {
    let mut binding = Binding::new();
    let x = Variable::new("x");
    let y = Variable::new("y");
    assert!(binding.bind(x.clone(), AtomId::new(4)));
    assert!(binding.bind(y.clone(), AtomId::new(5)));
    let before = binding.clone();

    assert!(binding.bind(x.clone(), AtomId::new(4)));
    assert_eq!(binding, before);
    assert_eq!(binding.len(), 2);

    assert!(!binding.bind(x.clone(), AtomId::new(6)));
    assert_eq!(binding, before);
    assert_eq!(binding.get_binding(&x), Some(AtomId::new(4)));
    assert_eq!(binding.get_binding(&y), Some(AtomId::new(5)));
}

#[test]
fn merge_with_conflict_leaves_both_unchanged() {
    let mut a = Binding::new();
    a.bind(Variable::new("x"), AtomId::new(1));
    let mut b = Binding::new();
    b.bind(Variable::new("w"), AtomId::new(2));
    b.bind(Variable::new("x"), AtomId::new(3));
    assert!(a.merge(&b).is_none());
    assert_eq!(a.len(), 1);
    assert_eq!(b.len(), 2);
    let mut c = Binding::new();
    c.bind(Variable::new("w"), AtomId::new(2));
    let merged = a.merge(&c).unwrap();
    assert_eq!(merged.len(), 2);
    assert_eq!(merged.pairs().len(), 2);
}

#[test]
fn binding_equality_ignores_insertion_order() {
    let mut a = Binding::new();
    a.bind(Variable::new("x"), AtomId::new(1));
    a.bind(Variable::new("y"), AtomId::new(2));
    let mut b = Binding::new();
    b.bind(Variable::new("y"), AtomId::new(2));
    b.bind(Variable::new("x"), AtomId::new(1));
    assert_eq!(a, b);
    b.clear();
    assert!(b.is_empty());
    assert_ne!(a, b);
}
