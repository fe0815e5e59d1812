use wolfram_sim::{Atom, AtomId, Hypergraph, Relation, RelationId};

#[test]
fn test_create_atom() {
    let mut hypergraph = Hypergraph::new();
    let atom1_id = hypergraph.create_atom();
    let atom2_id = hypergraph.create_atom();

    assert_eq!(hypergraph.atom_count(), 2);
    assert_ne!(atom1_id, atom2_id);
    assert!(hypergraph.contains_atom(atom1_id));
    assert!(hypergraph.contains_atom(atom2_id));
}

#[test]
fn test_create_atom_with_metadata() {
    let mut hypergraph = Hypergraph::new();
    let metadata = "Symbol[\"A\"]".to_string();
    let atom_id = hypergraph.create_atom_with_metadata(metadata.clone());

    let atom = hypergraph.get_atom(atom_id).unwrap();
    assert_eq!(atom.metadata(), Some(metadata.as_str()));
}

#[test]
fn test_add_atom() {
    let mut hypergraph = Hypergraph::new();
    let atom_id = AtomId::new(42);
    let atom = Atom::new(atom_id);

    assert!(!hypergraph.add_atom(atom.clone()));
    assert!(hypergraph.contains_atom(atom_id));

    assert!(hypergraph.add_atom(atom));
}

#[test]
fn test_remove_atom() {
    let mut hypergraph = Hypergraph::new();
    let atom_id = hypergraph.create_atom();

    assert!(hypergraph.contains_atom(atom_id));
    let removed_atom = hypergraph.remove_atom(atom_id).unwrap();
    assert_eq!(removed_atom.id(), atom_id);
    assert!(!hypergraph.contains_atom(atom_id));
}

#[test]
fn test_create_relation() {
    let mut hypergraph = Hypergraph::new();
    let atom1_id = hypergraph.create_atom();
    let atom2_id = hypergraph.create_atom();

    let relation_id = hypergraph.create_relation(vec![atom1_id, atom2_id]);

    assert_eq!(hypergraph.relation_count(), 1);
    assert!(hypergraph.contains_relation(relation_id));

    let relation = hypergraph.get_relation(relation_id).unwrap();
    assert_eq!(relation.atoms(), &[atom1_id, atom2_id]);
}

#[test]
fn test_create_relation_with_metadata() {
    let mut hypergraph = Hypergraph::new();
    let atom1_id = hypergraph.create_atom();
    let atom2_id = hypergraph.create_atom();
    let metadata = "Edge[\"Type1\"]".to_string();

    let relation_id = hypergraph.create_relation_with_metadata(vec![atom1_id, atom2_id], metadata.clone());

    let relation = hypergraph.get_relation(relation_id).unwrap();
    assert_eq!(relation.atoms(), &[atom1_id, atom2_id]);
    assert_eq!(relation.metadata(), Some(metadata.as_str()));
}

#[test]
fn test_add_relation() {
    let mut hypergraph = Hypergraph::new();
    let atom1_id = hypergraph.create_atom();
    let atom2_id = hypergraph.create_atom();

    let relation_id = RelationId::new(42);
    let relation = Relation::new(relation_id, vec![atom1_id, atom2_id]);

    assert!(!hypergraph.add_relation(relation.clone()));
    assert!(hypergraph.contains_relation(relation_id));

    assert!(hypergraph.add_relation(relation));
}

#[test]
fn test_remove_relation() {
    let mut hypergraph = Hypergraph::new();
    let atom1_id = hypergraph.create_atom();
    let atom2_id = hypergraph.create_atom();

    let relation_id = hypergraph.create_relation(vec![atom1_id, atom2_id]);

    assert!(hypergraph.contains_relation(relation_id));
    let removed_relation = hypergraph.remove_relation(relation_id).unwrap();
    assert_eq!(removed_relation.id(), relation_id);
    assert!(!hypergraph.contains_relation(relation_id));
}

#[test]
fn test_find_relations_with_atom() {
    let mut hypergraph = Hypergraph::new();
    let atom1_id = hypergraph.create_atom();
    let atom2_id = hypergraph.create_atom();
    let atom3_id = hypergraph.create_atom();

    let relation1_id = hypergraph.create_relation(vec![atom1_id, atom2_id]);
    let relation2_id = hypergraph.create_relation(vec![atom2_id, atom3_id]);

    let relations_with_atom1 = hypergraph.find_relations_with_atom(atom1_id);
    assert_eq!(relations_with_atom1.len(), 1);
    assert_eq!(relations_with_atom1[0].id(), relation1_id);

    let relations_with_atom2 = hypergraph.find_relations_with_atom(atom2_id);
    assert_eq!(relations_with_atom2.len(), 2);
    assert!(relations_with_atom2.iter().any(|r| r.id() == relation1_id));
    assert!(relations_with_atom2.iter().any(|r| r.id() == relation2_id));
}

#[test]
fn test_removing_atom_removes_associated_relations() {
    let mut hypergraph = Hypergraph::new();
    let atom1_id = hypergraph.create_atom();
    let atom2_id = hypergraph.create_atom();
    let atom3_id = hypergraph.create_atom();

    let relation1_id = hypergraph.create_relation(vec![atom1_id, atom2_id]);
    let relation2_id = hypergraph.create_relation(vec![atom2_id, atom3_id]);

    assert_eq!(hypergraph.relation_count(), 2);

    hypergraph.remove_atom(atom2_id);

    assert_eq!(hypergraph.relation_count(), 0);
    assert!(!hypergraph.contains_relation(relation1_id));
    assert!(!hypergraph.contains_relation(relation2_id));
}

#[test]
fn test_clear() {
    let mut hypergraph = Hypergraph::new();
    hypergraph.create_atom();
    hypergraph.create_atom();
    let atom3_id = hypergraph.create_atom();

    hypergraph.create_relation(vec![atom3_id]);

    assert_eq!(hypergraph.atom_count(), 3);
    assert_eq!(hypergraph.relation_count(), 1);

    hypergraph.clear();

    assert_eq!(hypergraph.atom_count(), 0);
    assert_eq!(hypergraph.relation_count(), 0);
}

#[test]
fn create_atom_adds_exactly_one_contained_atom() {
    let mut hypergraph = Hypergraph::new();
    for _ in 0..3 {
        let before = hypergraph.atom_count();
        let id = hypergraph.create_atom();
        assert!(hypergraph.contains_atom(id));
        assert_eq!(hypergraph.atom_count(), before + 1);
    }
}

#[test]
fn remove_atom_removes_incident_relations_only() {
    let mut hypergraph = Hypergraph::new();
    let a = hypergraph.create_atom();
    let b = hypergraph.create_atom();
    let c = hypergraph.create_atom();
    let d = hypergraph.create_atom();
    let r1 = hypergraph.create_relation(vec![a, b]);
    let r2 = hypergraph.create_relation(vec![b, a, b]);
    let r3 = hypergraph.create_relation(vec![c, d]);

    let removed = hypergraph.remove_atom(a);
    assert!(removed.is_some());
    assert!(!hypergraph.contains_atom(a));
    assert!(hypergraph.find_relations_with_atom(a).is_empty());
    assert!(!hypergraph.contains_relation(r1));
    assert!(!hypergraph.contains_relation(r2));
    assert!(hypergraph.contains_relation(r3));
    assert!(hypergraph.find_relations_with_atom(b).is_empty());
    assert_eq!(hypergraph.find_relations_with_atom(c).len(), 1);
    assert!(hypergraph.remove_atom(a).is_none());
}

#[test]
fn try_create_relation_with_missing_atom_changes_nothing() {
    let mut hypergraph = Hypergraph::new();
    let a = hypergraph.create_atom();
    let missing = AtomId::new(9999);

    assert_eq!(hypergraph.try_create_relation(vec![a, missing]), None);
    assert_eq!(hypergraph.relation_count(), 0);
    assert_eq!(hypergraph.atom_count(), 1);
    assert_eq!(hypergraph.next_relation_id(), 0);
    assert!(hypergraph.find_relations_with_atom(a).is_empty());

    let created = hypergraph.try_create_relation(vec![a, a]);
    assert_eq!(created, Some(RelationId::new(0)));
    assert_eq!(hypergraph.find_relations_with_atom(a).len(), 1);
}

#[test]
fn clear_keeps_counters() {
    let mut hypergraph = Hypergraph::new();
    let a = hypergraph.create_atom();
    hypergraph.create_relation(vec![a]);
    hypergraph.clear();
    assert_eq!(hypergraph.create_atom(), AtomId::new(1));
    assert_eq!(hypergraph.next_relation_id(), 1);
}

#[test]
fn ids_are_listed_in_increasing_order() {
    let mut hypergraph = Hypergraph::new();
    hypergraph.add_atom(Atom::new(AtomId::new(5)));
    hypergraph.add_atom(Atom::new(AtomId::new(2)));
    hypergraph.add_atom(Atom::new(AtomId::new(9)));
    assert_eq!(hypergraph.atom_ids(), vec![AtomId::new(2), AtomId::new(5), AtomId::new(9)]);
    let ids: Vec<AtomId> = hypergraph.atoms().iter().map(|a| a.id()).collect();
    assert_eq!(ids, vec![AtomId::new(2), AtomId::new(5), AtomId::new(9)]);
}

#[test]
fn add_relation_replaces_and_reindexes() {
    let mut hypergraph = Hypergraph::new();
    let a = hypergraph.create_atom();
    let b = hypergraph.create_atom();
    let c = hypergraph.create_atom();
    let id = RelationId::new(7);
    assert!(!hypergraph.add_relation(Relation::new(id, vec![a, b])));
    assert!(hypergraph.add_relation(Relation::new(id, vec![c])));
    assert!(hypergraph.find_relations_with_atom(a).is_empty());
    assert_eq!(hypergraph.find_relations_with_atom(c).len(), 1);
    assert_eq!(hypergraph.relation_ids(), vec![id]);
    assert_eq!(hypergraph.relations().len(), 1);
}
