use vstd::prelude::*;

verus! {

/// Handle of an atom, unique within one hypergraph.
#[derive(Debug, Clone, Copy, PartialEq, Eq, Hash, Structural)]
pub struct AtomId(pub u64);

impl AtomId {
    /// Creates a handle with the given raw value.
    pub fn new(id: u64) -> (r: AtomId)
        ensures
            r.0 == id,
    {
        AtomId(id)
    }

    /// Returns the raw value of the handle.
    pub fn value(&self) -> (r: u64)
        ensures
            r == self.0,
    {
        self.0
    }
}

/// The value of an optional text field, as a sequence of characters.
pub open spec fn text_view(t: Option<String>) -> Option<Seq<char>> {
    match t {
        Some(s) => Some(s@),
        None => None,
    }
}

/// Copies an optional text field.
pub fn copy_text(t: &Option<String>) -> (r: Option<String>)
    ensures
        r == *t,
{
    match t {
        Some(s) => Some(s.clone()),
        None => None,
    }
}

/// Borrows an optional text field as an optional `&str`.
pub fn text_as_str(t: &Option<String>) -> (r: Option<&str>)
    ensures
        r is Some <==> t is Some,
        r is Some ==> r.unwrap()@ == t.unwrap()@,
{
    match t {
        Some(s) => Some(s.as_str()),
        None => None,
    }
}

/// A node of the hypergraph: its id and optional metadata.
#[derive(Debug, PartialEq, Eq)]
pub struct Atom {
    pub id: AtomId,
    pub metadata: Option<String>,
}

/// What an atom stands for: its raw id and the characters of its metadata.
pub struct AtomView {
    pub id: u64,
    pub metadata: Option<Seq<char>>,
}

impl View for Atom {
    type V = AtomView;

    open spec fn view(&self) -> AtomView {
        AtomView { id: self.id.0, metadata: text_view(self.metadata) }
    }
}

impl Clone for Atom {
    fn clone(&self) -> (r: Self)
        ensures
            r == *self,
    {
        Atom { id: self.id, metadata: copy_text(&self.metadata) }
    }
}

impl Atom {
    /// Creates an atom without metadata.
    pub fn new(id: AtomId) -> (r: Atom)
        ensures
            r.id == id,
            r.metadata is None,
    {
        Atom { id, metadata: None }
    }

    /// Creates an atom carrying the given metadata.
    pub fn with_metadata(id: AtomId, metadata: String) -> (r: Atom)
        ensures
            r.id == id,
            r.metadata == Some(metadata),
    {
        Atom { id, metadata: Some(metadata) }
    }

    /// Returns the id of this atom.
    pub fn id(&self) -> (r: AtomId)
        ensures
            r == self.id,
    {
        self.id
    }

    /// Returns the metadata of this atom, if any.
    pub fn metadata(&self) -> (r: Option<&str>)
        ensures
            r is Some <==> self.metadata is Some,
            r is Some ==> r.unwrap()@ == self.metadata.unwrap()@,
    {
        text_as_str(&self.metadata)
    }

    /// Replaces the metadata of this atom.
    pub fn set_metadata(&mut self, metadata: Option<String>)
        ensures
            final(self).id == old(self).id,
            final(self).metadata == metadata,
    {
        self.metadata = metadata;
    }
}

} // verus!
