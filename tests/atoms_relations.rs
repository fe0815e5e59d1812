use wolfram_sim::{Atom, AtomId, Relation, RelationId};

#[test]
fn test_atom_id_creation() {
    let id = AtomId::new(42);
    assert_eq!(id.value(), 42);
}

#[test]
fn test_atom_creation() {
    let atom_id = AtomId::new(1);
    let atom = Atom::new(atom_id);
    assert_eq!(atom.id(), atom_id);
    assert_eq!(atom.metadata(), None);
}

#[test]
fn test_atom_with_metadata() {
    let atom_id = AtomId::new(2);
    let metadata = "Symbol[\"A\"]".to_string();
    let atom = Atom::with_metadata(atom_id, metadata.clone());
    assert_eq!(atom.id(), atom_id);
    assert_eq!(atom.metadata(), Some(metadata.as_str()));
}

#[test]
fn test_set_metadata() {
    let atom_id = AtomId::new(3);
    let mut atom = Atom::new(atom_id);
    assert_eq!(atom.metadata(), None);

    atom.set_metadata(Some("Symbol[\"B\"]".to_string()));
    assert_eq!(atom.metadata(), Some("Symbol[\"B\"]"));

    atom.set_metadata(None);
    assert_eq!(atom.metadata(), None);
}

#[test]
fn test_relation_id_creation() {
    let id = RelationId::new(42);
    assert_eq!(id.value(), 42);
}

#[test]
fn test_relation_creation() {
    let relation_id = RelationId::new(1);
    let atoms = vec![AtomId::new(1), AtomId::new(2)];
    let relation = Relation::new(relation_id, atoms.clone());

    assert_eq!(relation.id(), relation_id);
    assert_eq!(relation.atoms(), atoms.as_slice());
    assert_eq!(relation.metadata(), None);
}

#[test]
fn test_relation_with_metadata() {
    let relation_id = RelationId::new(2);
    let atoms = vec![AtomId::new(3), AtomId::new(4)];
    let metadata = "Edge[\"Type1\"]".to_string();
    let relation = Relation::with_metadata(relation_id, atoms.clone(), metadata.clone());

    assert_eq!(relation.id(), relation_id);
    assert_eq!(relation.atoms(), atoms.as_slice());
    assert_eq!(relation.metadata(), Some(metadata.as_str()));
}

#[test]
fn test_relation_arity() {
    let relation_id = RelationId::new(3);
    let atoms = vec![AtomId::new(5), AtomId::new(6), AtomId::new(7)];
    let relation = Relation::new(relation_id, atoms);

    assert_eq!(relation.arity(), 3);
}

#[test]
fn test_relation_contains_atom() {
    let relation_id = RelationId::new(4);
    let atom1 = AtomId::new(8);
    let atom2 = AtomId::new(9);
    let atom3 = AtomId::new(10);
    let atoms = vec![atom1, atom2];
    let relation = Relation::new(relation_id, atoms);

    assert!(relation.contains_atom(atom1));
    assert!(relation.contains_atom(atom2));
    assert!(!relation.contains_atom(atom3));
}

#[test]
fn test_relation_set_metadata() {
    let relation_id = RelationId::new(5);
    let atoms = vec![AtomId::new(11), AtomId::new(12)];
    let mut relation = Relation::new(relation_id, atoms);

    assert_eq!(relation.metadata(), None);

    relation.set_metadata(Some("Edge[\"Type2\"]".to_string()));
    assert_eq!(relation.metadata(), Some("Edge[\"Type2\"]"));

    relation.set_metadata(None);
    assert_eq!(relation.metadata(), None);
}

#[test]
fn test_relation_atoms_mut() {
    let relation_id = RelationId::new(6);
    let mut atoms = vec![AtomId::new(13), AtomId::new(14)];
    let mut relation = Relation::new(relation_id, atoms.clone());

    assert_eq!(relation.atoms(), atoms.as_slice());

    relation.atoms_mut().push(AtomId::new(15));
    atoms.push(AtomId::new(15));

    assert_eq!(relation.atoms(), atoms.as_slice());
}

#[test]
fn atom_clone_keeps_id_and_metadata() {
    let atom = Atom::with_metadata(AtomId::new(7), "m".to_string());
    let copy = atom.clone();
    assert_eq!(copy.id(), AtomId::new(7));
    assert_eq!(copy.metadata(), Some("m"));
}
