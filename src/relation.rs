use vstd::prelude::*;
use crate::atom::{AtomId, text_view, copy_text, text_as_str};

verus! {

/// Handle of a relation, unique within one hypergraph.
#[derive(Debug, Clone, Copy, PartialEq, Eq, Hash, Structural)]
pub struct RelationId(pub u64);

impl RelationId {
    /// Creates a handle with the given raw value.
    pub fn new(id: u64) -> (r: RelationId)
        ensures
            r.0 == id,
    {
        RelationId(id)
    }

    /// Returns the raw value of the handle.
    pub fn value(&self) -> (r: u64)
        ensures
            r == self.0,
    {
        self.0
    }
}

/// An ordered hyperedge: the sequence of atoms it connects, in order, and
/// optional metadata.
#[derive(Debug, PartialEq, Eq)]
pub struct Relation {
    pub id: RelationId,
    pub atoms: Vec<AtomId>,
    pub metadata: Option<String>,
}

/// What a relation stands for: its raw id, its atoms in order and the
/// characters of its metadata.
pub struct RelationView {
    pub id: u64,
    pub atoms: Seq<AtomId>,
    pub metadata: Option<Seq<char>>,
}

impl View for Relation {
    type V = RelationView;

    open spec fn view(&self) -> RelationView {
        RelationView { id: self.id.0, atoms: self.atoms@, metadata: text_view(self.metadata) }
    }
}

/// Copies a sequence of atom ids.
pub fn copy_atom_ids(v: &Vec<AtomId>) -> (r: Vec<AtomId>)
    ensures
        r@ == v@,
{
    let mut r: Vec<AtomId> = Vec::new();
    for i in 0..v.len()
        invariant
            r@ == v@.subrange(0, i as int),
    {
        r.push(v[i]);
    }
    assert(r@ =~= v@);
    r
}

impl Clone for Relation {
    fn clone(&self) -> (r: Self)
        ensures
            r@ == self@,
    {
        Relation { id: self.id, atoms: copy_atom_ids(&self.atoms), metadata: copy_text(&self.metadata) }
    }
}

impl Relation {
    /// Creates a relation over the given atoms, without metadata.
    pub fn new(id: RelationId, atoms: Vec<AtomId>) -> (r: Relation)
        ensures
            r.id == id,
            r.atoms@ == atoms@,
            r.metadata is None,
    {
        Relation { id, atoms, metadata: None }
    }

    /// Creates a relation over the given atoms, carrying the given metadata.
    pub fn with_metadata(id: RelationId, atoms: Vec<AtomId>, metadata: String) -> (r: Relation)
        ensures
            r.id == id,
            r.atoms@ == atoms@,
            r.metadata == Some(metadata),
    {
        Relation { id, atoms, metadata: Some(metadata) }
    }

    /// Returns the id of this relation.
    pub fn id(&self) -> (r: RelationId)
        ensures
            r == self.id,
    {
        self.id
    }

    /// Returns the atoms of this relation, in order.
    pub fn atoms(&self) -> (r: &[AtomId])
        ensures
            r@ == self.atoms@,
    {
        self.atoms.as_slice()
    }

    /// Gives mutable access to the atoms of this relation.
    pub fn atoms_mut(&mut self) -> (r: &mut Vec<AtomId>)
        ensures
            *r == old(self).atoms,
            final(self).id == old(self).id,
            final(self).atoms == *final(r),
            final(self).metadata == old(self).metadata,
    {
        &mut self.atoms
    }

    /// Returns the number of atoms of this relation.
    pub fn arity(&self) -> (r: usize)
        ensures
            r == self.atoms@.len(),
    {
        self.atoms.len()
    }

    /// Tells whether the atom occurs in this relation.
    pub fn contains_atom(&self, atom_id: AtomId) -> (r: bool)
        ensures
            r == self.atoms@.contains(atom_id),
    {
        let mut i: usize = 0;
        while i < self.atoms.len()
            invariant
                0 <= i <= self.atoms@.len(),
                forall|j: int| 0 <= j < i ==> self.atoms@[j] != atom_id,
            decreases self.atoms@.len() - i,
        {
            if self.atoms[i] == atom_id {
                return true;
            }
            i = i + 1;
        }
        false
    }

    /// Returns the metadata of this relation, if any.
    pub fn metadata(&self) -> (r: Option<&str>)
        ensures
            r is Some <==> self.metadata is Some,
            r is Some ==> r.unwrap()@ == self.metadata.unwrap()@,
    {
        text_as_str(&self.metadata)
    }

    /// Replaces the metadata of this relation.
    pub fn set_metadata(&mut self, metadata: Option<String>)
        ensures
            final(self).id == old(self).id,
            final(self).atoms == old(self).atoms,
            final(self).metadata == metadata,
    {
        self.metadata = metadata;
    }
}

} // verus!
