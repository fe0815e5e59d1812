use vstd::prelude::*;
use std::collections::BTreeMap;
use vstd::std_specs::iter::IteratorSpec;
use vstd::std_specs::cmp::OrdSpec;
use crate::atom::{Atom, AtomId, AtomView};
use crate::relation::{Relation, RelationId, RelationView};

verus! {

/// The abstract state of a hypergraph: its atoms and relations keyed by raw
/// id, and the two id counters.
pub struct HypergraphView {
    pub atoms: Map<u64, AtomView>,
    pub relations: Map<u64, RelationView>,
    pub next_atom_id: u64,
    pub next_relation_id: u64,
}

impl HypergraphView {
    /// Both maps are finite, every value carries the id it is stored under,
    /// and every atom that a relation references is stored.
    pub open spec fn valid(self) -> bool {
        &&& self.atoms.dom().finite()
        &&& self.relations.dom().finite()
        &&& forall|a: u64| #[trigger] self.atoms.contains_key(a) ==> self.atoms[a].id == a
        &&& forall|r: u64| #[trigger] self.relations.contains_key(r) ==> self.relations[r].id == r
        &&& forall|r: u64, j: int|
            self.relations.contains_key(r) && 0 <= j < self.relations[r].atoms.len()
                ==> self.atoms.contains_key(#[trigger] self.relations[r].atoms[j].0)
    }

    /// Both counters lie strictly above every id in use.
    pub open spec fn counters_fresh(self) -> bool {
        &&& forall|a: u64| #[trigger] self.atoms.contains_key(a) ==> a < self.next_atom_id
        &&& forall|r: u64| #[trigger] self.relations.contains_key(r) ==> r < self.next_relation_id
    }

    /// Relation `r` is stored and references atom `a`.
    pub open spec fn references(self, r: u64, a: u64) -> bool {
        self.relations.contains_key(r) && self.relations[r].atoms.contains(AtomId(a))
    }

    /// The ids of the stored relations that reference atom `a`.
    pub open spec fn relations_with_atom(self, a: u64) -> Set<u64> {
        Set::new(|r: u64| self.references(r, a))
    }

    /// Every atom of `atoms` is stored.
    pub open spec fn has_atoms(self, atoms: Seq<AtomId>) -> bool {
        forall|j: int| 0 <= j < atoms.len() ==> self.atoms.contains_key(#[trigger] atoms[j].0)
    }
}

/// Tells whether `x` occurs in `v`.
pub fn contains_id(v: &Vec<u64>, x: u64) -> (r: bool)
    ensures
        r == v@.contains(x),
{
    let mut i: usize = 0;
    while i < v.len()
        invariant
            0 <= i <= v@.len(),
            forall|j: int| 0 <= j < i ==> v@[j] != x,
        decreases v@.len() - i,
    {
        if v[i] == x {
            return true;
        }
        i = i + 1;
    }
    false
}

proof fn lemma_remove_unique(s: Seq<u64>, p: int)
    requires
        s.no_duplicates(),
        0 <= p < s.len(),
    ensures
        s.remove(p).no_duplicates(),
        forall|y: u64| s.remove(p).contains(y) <==> (s.contains(y) && y != s[p]),
{
    let t = s.remove(p);
    assert forall|y: u64| t.contains(y) <==> (s.contains(y) && y != s[p]) by {
        if t.contains(y) {
            let k = choose|k: int| 0 <= k < t.len() && #[trigger] t[k] == y;
            if k < p {
                assert(s[k] == y);
            } else {
                assert(s[k + 1] == y);
            }
        }
        if s.contains(y) && y != s[p] {
            let k = choose|k: int| 0 <= k < s.len() && #[trigger] s[k] == y;
            if k < p {
                assert(t[k] == y);
            } else {
                assert(t[k - 1] == y);
            }
        }
    }
    assert forall|i: int, j: int| 0 <= i < t.len() && 0 <= j < t.len() && i != j implies t[i]
        != t[j] by {
        let i2 = if i < p { i } else { i + 1 };
        let j2 = if j < p { j } else { j + 1 };
        assert(s[i2] == t[i] && s[j2] == t[j]);
    }
}

pub proof fn lemma_take_push<T>(s: Seq<T>, i: int)
    requires
        0 <= i < s.len(),
    ensures
        forall|y: T| s.take(i + 1).contains(y) <==> (s.take(i).contains(y) || y == s[i]),
{
    let t1 = s.take(i + 1);
    let t0 = s.take(i);
    assert forall|y: T| t1.contains(y) <==> (t0.contains(y) || y == s[i]) by {
        if t1.contains(y) {
            let k = choose|k: int| 0 <= k < t1.len() && #[trigger] t1[k] == y;
            if k < i {
                assert(t0[k] == y);
            }
        }
        if t0.contains(y) {
            let k = choose|k: int| 0 <= k < t0.len() && #[trigger] t0[k] == y;
            assert(t1[k] == y);
        }
        if y == s[i] {
            assert(t1[i] == y);
        }
    }
}

pub proof fn lemma_push_contains<T>(s: Seq<T>, v: T)
    ensures
        forall|y: T| s.push(v).contains(y) <==> (s.contains(y) || y == v),
{
    let t = s.push(v);
    assert forall|y: T| t.contains(y) <==> (s.contains(y) || y == v) by {
        if t.contains(y) {
            let k = choose|k: int| 0 <= k < t.len() && #[trigger] t[k] == y;
            if k < s.len() {
                assert(s[k] == y);
            }
        }
        if s.contains(y) {
            let k = choose|k: int| 0 <= k < s.len() && #[trigger] s[k] == y;
            assert(t[k] == y);
        }
        if y == v {
            assert(t[s.len() as int] == y);
        }
    }
}

/// Removes `x` from a sequence of distinct ids.
fn remove_id(v: &mut Vec<u64>, x: u64)
    requires
        old(v)@.no_duplicates(),
    ensures
        final(v)@.no_duplicates(),
        forall|y: u64| final(v)@.contains(y) <==> (old(v)@.contains(y) && y != x),
{
    let mut i: usize = 0;
    while i < v.len()
        invariant
            0 <= i <= v@.len(),
            v@ == old(v)@,
            old(v)@.no_duplicates(),
            forall|j: int| 0 <= j < i ==> v@[j] != x,
        decreases v@.len() - i,
    {
        if v[i] == x {
            proof {
                lemma_remove_unique(v@, i as int);
            }
            v.remove(i);
            return;
        }
        i = i + 1;
    }
}

/// Copies a sequence of raw ids.
pub fn copy_ids(v: &Vec<u64>) -> (r: Vec<u64>)
    ensures
        r@ == v@,
{
    let mut r: Vec<u64> = Vec::new();
    for i in 0..v.len()
        invariant
            r@ == v@.take(i as int),
    {
        r.push(v[i]);
    }
    assert(r@ =~= v@);
    r
}

/// A mutable store of atoms and relations, with an index from each atom to
/// the relations that reference it.
pub struct Hypergraph {
    atoms: BTreeMap<u64, Atom>,
    relations: BTreeMap<u64, Relation>,
    atom_to_relations: BTreeMap<u64, Vec<u64>>,
    next_atom_id: u64,
    next_relation_id: u64,
}

impl View for Hypergraph {
    type V = HypergraphView;

    closed spec fn view(&self) -> HypergraphView {
        HypergraphView {
            atoms: self.atoms@.map_values(|a: Atom| a@),
            relations: self.relations@.map_values(|r: Relation| r@),
            next_atom_id: self.next_atom_id,
            next_relation_id: self.next_relation_id,
        }
    }
}

impl Hypergraph {
    /// The incidence index has an entry for exactly the stored atoms, and the
    /// entry of an atom lists, once each, the relations that reference it.
    pub closed spec fn index_ok(&self) -> bool {
        &&& forall|a: u64| #[trigger]
            self.atom_to_relations@.contains_key(a) <==> self.atoms@.contains_key(a)
        &&& forall|a: u64| #[trigger]
            self.atom_to_relations@.contains_key(a) ==> self.atom_to_relations@[a]@.no_duplicates()
        &&& forall|a: u64, r: u64|
            #![trigger self.atom_to_relations@[a]@.contains(r)]
            #![trigger self@.references(r, a)]
            self.atom_to_relations@.contains_key(a) ==> (self.atom_to_relations@[a]@.contains(r)
                <==> self@.references(r, a))
    }

    /// The hypergraph is well formed.
    pub open spec fn wf(&self) -> bool {
        self@.valid() && self.index_ok()
    }

    /// Creates an empty hypergraph with both counters at zero.
    pub fn new() -> (r: Hypergraph)
        ensures
            r.wf(),
            r@.atoms == Map::<u64, AtomView>::empty(),
            r@.relations == Map::<u64, RelationView>::empty(),
            r@.next_atom_id == 0,
            r@.next_relation_id == 0,
    {
        let r = Hypergraph {
            atoms: BTreeMap::new(),
            relations: BTreeMap::new(),
            atom_to_relations: BTreeMap::new(),
            next_atom_id: 0,
            next_relation_id: 0,
        };
        assert(r@.atoms =~= Map::<u64, AtomView>::empty());
        assert(r@.relations =~= Map::<u64, RelationView>::empty());
        r
    }

    /// Creates an empty hypergraph; the capacities are hints only.
    pub fn with_capacity(atom_capacity: usize, relation_capacity: usize) -> (r: Hypergraph)
        ensures
            r.wf(),
            r@.atoms == Map::<u64, AtomView>::empty(),
            r@.relations == Map::<u64, RelationView>::empty(),
            r@.next_atom_id == 0,
            r@.next_relation_id == 0,
    {
        Hypergraph::new()
    }

    /// Returns the number of atoms.
    pub fn atom_count(&self) -> (r: usize)
        requires
            self.wf(),
        ensures
            r == self@.atoms.len(),
    {
        assert(self@.atoms.dom() =~= self.atoms@.dom());
        self.atoms.len()
    }

    /// Returns the number of relations.
    pub fn relation_count(&self) -> (r: usize)
        requires
            self.wf(),
        ensures
            r == self@.relations.len(),
    {
        assert(self@.relations.dom() =~= self.relations@.dom());
        self.relations.len()
    }

    /// Stores `atom` under its own id, replacing any atom stored there, and
    /// gives it an empty index entry if it has none. Tells whether an atom
    /// was replaced.
    fn store_atom(&mut self, atom: Atom) -> (replaced: bool)
        requires
            old(self).wf(),
        ensures
            final(self).wf(),
            replaced == old(self)@.atoms.contains_key(atom.id.0),
            final(self)@.atoms == old(self)@.atoms.insert(atom.id.0, atom@),
            final(self)@.relations == old(self)@.relations,
            final(self)@.next_atom_id == old(self)@.next_atom_id,
            final(self)@.next_relation_id == old(self)@.next_relation_id,
    {
        let id = atom.id.0;
        let ghost av = atom@;
        let replaced = self.atoms.insert(id, atom).is_some();
        if !self.atom_to_relations.contains_key(&id) {
            self.atom_to_relations.insert(id, Vec::new());
        }
        assert(self@.atoms =~= old(self)@.atoms.insert(id, av));
        assert(self@.relations =~= old(self)@.relations);
        replaced
    }

    /// Creates a new atom without metadata under the next atom id.
    pub fn create_atom(&mut self) -> (r: AtomId)
        requires
            old(self).wf(),
            old(self)@.next_atom_id < u64::MAX,
        ensures
            final(self).wf(),
            r.0 == old(self)@.next_atom_id,
            final(self)@.atoms == old(self)@.atoms.insert(r.0, AtomView { id: r.0, metadata: None }),
            final(self)@.relations == old(self)@.relations,
            final(self)@.next_atom_id == old(self)@.next_atom_id + 1,
            final(self)@.next_relation_id == old(self)@.next_relation_id,
            final(self)@.atoms.contains_key(r.0),
            old(self)@.counters_fresh() ==> final(self)@.counters_fresh() && final(self)@.atoms.len()
                == old(self)@.atoms.len() + 1,
    {
        let id = AtomId(self.next_atom_id);
        self.next_atom_id = self.next_atom_id + 1;
        self.store_atom(Atom::new(id));
        proof {
            if old(self)@.counters_fresh() {
                assert(!old(self)@.atoms.contains_key(id.0));
            }
        }
        id
    }

    /// Creates a new atom carrying `metadata` under the next atom id.
    pub fn create_atom_with_metadata(&mut self, metadata: String) -> (r: AtomId)
        requires
            old(self).wf(),
            old(self)@.next_atom_id < u64::MAX,
        ensures
            final(self).wf(),
            r.0 == old(self)@.next_atom_id,
            final(self)@.atoms == old(self)@.atoms.insert(
                r.0,
                AtomView { id: r.0, metadata: Some(metadata@) },
            ),
            final(self)@.relations == old(self)@.relations,
            final(self)@.next_atom_id == old(self)@.next_atom_id + 1,
            final(self)@.next_relation_id == old(self)@.next_relation_id,
    {
        let id = AtomId(self.next_atom_id);
        self.next_atom_id = self.next_atom_id + 1;
        self.store_atom(Atom::with_metadata(id, metadata));
        id
    }

    /// Stores `atom` under its own id, replacing any atom stored there; the
    /// counters are left alone. Tells whether an atom was replaced.
    pub fn add_atom(&mut self, atom: Atom) -> (r: bool)
        requires
            old(self).wf(),
        ensures
            final(self).wf(),
            r == old(self)@.atoms.contains_key(atom.id.0),
            final(self)@.atoms == old(self)@.atoms.insert(atom.id.0, atom@),
            final(self)@.relations == old(self)@.relations,
            final(self)@.next_atom_id == old(self)@.next_atom_id,
            final(self)@.next_relation_id == old(self)@.next_relation_id,
    {
        self.store_atom(atom)
    }

    /// Stores `rel` under its own id, which is free, and records it in the
    /// index entry of each of its atoms.
    fn link(&mut self, rel: Relation)
        requires
            old(self).wf(),
            !old(self)@.relations.contains_key(rel.id.0),
            old(self)@.has_atoms(rel.atoms@),
        ensures
            final(self).wf(),
            final(self)@.atoms == old(self)@.atoms,
            final(self)@.relations == old(self)@.relations.insert(rel.id.0, rel@),
            final(self)@.next_atom_id == old(self)@.next_atom_id,
            final(self)@.next_relation_id == old(self)@.next_relation_id,
    {
        let id = rel.id.0;
        let ghost rv = rel@;
        let ghost g0 = old(self)@;
        let atoms = crate::relation::copy_atom_ids(&rel.atoms);
        self.relations.insert(id, rel);
        assert(self@.relations =~= g0.relations.insert(id, rv));
        assert(self@.atoms =~= g0.atoms);
        let mut i: usize = 0;
        while i < atoms.len()
            invariant
                0 <= i <= atoms@.len(),
                atoms@ == rv.atoms,
                rv.id == id,
                !g0.relations.contains_key(id),
                g0.valid(),
                g0.has_atoms(rv.atoms),
                self@.atoms == g0.atoms,
                self@.relations == g0.relations.insert(id, rv),
                self@.next_atom_id == g0.next_atom_id,
                self@.next_relation_id == g0.next_relation_id,
                self.atoms@.dom() == self.atom_to_relations@.dom(),
                forall|a: u64| #[trigger]
                    self.atom_to_relations@.contains_key(a)
                        ==> self.atom_to_relations@[a]@.no_duplicates(),
                forall|a: u64, x: u64|
                    #![trigger self.atom_to_relations@[a]@.contains(x)]
                    self.atom_to_relations@.contains_key(a) ==> (self.atom_to_relations@[a]@.contains(x)
                        <==> (g0.references(x, a) || (x == id && atoms@.take(i as int).contains(AtomId(a))))),
            decreases atoms@.len() - i,
        {
            let a = atoms[i].0;
            proof {
                lemma_take_push(atoms@, i as int);
                assert(self@.atoms.contains_key(atoms@[i as int].0));
                assert(self.atoms@.contains_key(a));
            }
            let ghost before = self.atom_to_relations@;
            match self.atom_to_relations.remove(&a) {
                Some(mut list) => {
                    let ghost oldl = list@;
                    proof {
                        lemma_push_contains(oldl, id);
                    }
                    if !contains_id(&list, id) {
                        list.push(id);
                    }
                    assert(forall|x: u64| list@.contains(x) <==> (oldl.contains(x) || x == id));
                    self.atom_to_relations.insert(a, list);
                    proof {
                        assert(atoms@[i as int] == AtomId(a));
                        assert(atoms@.take(i + 1).contains(AtomId(a)));
                        assert forall|b: u64, x: u64|
                            self.atom_to_relations@.contains_key(b) implies (#[trigger] self.atom_to_relations@[b]@.contains(x)
                                <==> (g0.references(x, b) || (x == id && atoms@.take(i + 1).contains(AtomId(b))))) by {
                            if b != a {
                                assert(before.contains_key(b) && before[b] == self.atom_to_relations@[b]);
                                assert(AtomId(b) != atoms@[i as int]);
                                assert(atoms@.take(i + 1).contains(AtomId(b)) == atoms@.take(i as int).contains(AtomId(b)));
                            } else {
                                assert(before.contains_key(a));
                                assert(oldl == before[a]@);
                                assert(self.atom_to_relations@[a]@.contains(x) <==> (oldl.contains(x) || x == id));
                            }
                        }
                    }
                },
                None => {},
            }
            i = i + 1;
        }
        proof {
            assert(atoms@.take(atoms@.len() as int) =~= atoms@);
            assert forall|a: u64, x: u64| self.atom_to_relations@.contains_key(a)
                implies (self.atom_to_relations@[a]@.contains(x) <==> self@.references(x, a)) by {
                if x == id {
                    assert(self@.references(x, a) <==> rv.atoms.contains(AtomId(a)));
                } else {
                    assert(self@.references(x, a) <==> g0.references(x, a));
                }
            }
        }
    }

    /// Removes the relation stored under `r`, if any, and takes it out of the
    /// index entry of each of its atoms.
    fn unlink(&mut self, r: u64) -> (res: Option<Relation>)
        requires
            old(self).wf(),
        ensures
            final(self).wf(),
            res is Some <==> old(self)@.relations.contains_key(r),
            res is Some ==> res.unwrap()@ == old(self)@.relations[r],
            final(self)@.atoms == old(self)@.atoms,
            final(self)@.relations == old(self)@.relations.remove(r),
            final(self)@.next_atom_id == old(self)@.next_atom_id,
            final(self)@.next_relation_id == old(self)@.next_relation_id,
    {
        let ghost g0 = old(self)@;
        match self.relations.remove(&r) {
            None => {
                assert(self@.relations =~= g0.relations.remove(r));
                None
            },
            Some(rel) => {
                let ghost rv = rel@;
                assert(self@.relations =~= g0.relations.remove(r));
                assert(self@.atoms =~= g0.atoms);
                let mut i: usize = 0;
                while i < rel.atoms.len()
                    invariant
                        0 <= i <= rel.atoms@.len(),
                        rel@ == rv,
                        rv == g0.relations[r],
                        g0.relations.contains_key(r),
                        g0.valid(),
                        self@.atoms == g0.atoms,
                        self@.relations == g0.relations.remove(r),
                        self@.next_atom_id == g0.next_atom_id,
                        self@.next_relation_id == g0.next_relation_id,
                        self.atoms@.dom() == self.atom_to_relations@.dom(),
                        forall|a: u64| #[trigger]
                            self.atom_to_relations@.contains_key(a)
                                ==> self.atom_to_relations@[a]@.no_duplicates(),
                        forall|a: u64, x: u64|
                            #![trigger self.atom_to_relations@[a]@.contains(x)]
                            self.atom_to_relations@.contains_key(a) ==> (self.atom_to_relations@[a]@.contains(x)
                                <==> (self@.references(x, a) || (x == r && rv.atoms.contains(AtomId(a))
                                && !rv.atoms.take(i as int).contains(AtomId(a))))),
                    decreases rel.atoms@.len() - i,
                {
                    let a = rel.atoms[i].0;
                    proof {
                        lemma_take_push(rv.atoms, i as int);
                    }
                    let ghost before = self.atom_to_relations@;
                    match self.atom_to_relations.remove(&a) {
                        Some(mut list) => {
                            remove_id(&mut list, r);
                            self.atom_to_relations.insert(a, list);
                            proof {
                                assert(rv.atoms[i as int] == AtomId(a));
                                assert(rv.atoms.take(i + 1)[i as int] == AtomId(a));
                                assert(rv.atoms.take(i + 1).contains(AtomId(a)));
                                assert(!self@.relations.contains_key(r));
                                assert forall|b: u64, x: u64|
                                    self.atom_to_relations@.contains_key(b) implies (
                                    #[trigger] self.atom_to_relations@[b]@.contains(x) <==> (self@.references(x, b) || (x == r
                                    && rv.atoms.contains(AtomId(b)) && !rv.atoms.take(i + 1).contains(AtomId(b)))))
                                    by {
                                    if b != a {
                                        assert(before.contains_key(b) && before[b] == self.atom_to_relations@[b]);
                                    } else {
                                        assert(rv.atoms[i as int] == AtomId(a));
                                    }
                                }
                            }
                        },
                        None => {
                            assert(self.atom_to_relations@ =~= before);
                            assert(rv.atoms[i as int] == AtomId(a));
                        },
                    }
                    i = i + 1;
                }
                proof {
                    assert(rv.atoms.take(rv.atoms.len() as int) =~= rv.atoms);
                }
                Some(rel)
            },
        }
    }

    /// Stores `rel` under its own id, replacing any relation stored there.
    /// Tells whether a relation was replaced.
    fn store_relation(&mut self, rel: Relation) -> (replaced: bool)
        requires
            old(self).wf(),
            old(self)@.has_atoms(rel.atoms@),
        ensures
            final(self).wf(),
            replaced == old(self)@.relations.contains_key(rel.id.0),
            final(self)@.atoms == old(self)@.atoms,
            final(self)@.relations == old(self)@.relations.insert(rel.id.0, rel@),
            final(self)@.next_atom_id == old(self)@.next_atom_id,
            final(self)@.next_relation_id == old(self)@.next_relation_id,
    {
        let ghost g0 = old(self)@;
        let ghost rv = rel@;
        let replaced = self.unlink(rel.id.0).is_some();
        self.link(rel);
        assert(self@.relations =~= g0.relations.insert(rv.id, rv));
        replaced
    }

    /// Creates a relation over `atom_ids`, in order, under the next relation
    /// id. Every atom must be stored.
    pub fn create_relation(&mut self, atom_ids: Vec<AtomId>) -> (r: RelationId)
        requires
            old(self).wf(),
            old(self)@.has_atoms(atom_ids@),
            old(self)@.next_relation_id < u64::MAX,
        ensures
            final(self).wf(),
            r.0 == old(self)@.next_relation_id,
            final(self)@.atoms == old(self)@.atoms,
            final(self)@.relations == old(self)@.relations.insert(
                r.0,
                RelationView { id: r.0, atoms: atom_ids@, metadata: None },
            ),
            final(self)@.next_atom_id == old(self)@.next_atom_id,
            final(self)@.next_relation_id == old(self)@.next_relation_id + 1,
    {
        let id = RelationId(self.next_relation_id);
        self.next_relation_id = self.next_relation_id + 1;
        self.store_relation(Relation::new(id, atom_ids));
        id
    }

    /// Creates a relation over `atom_ids`, in order, carrying `metadata`,
    /// under the next relation id. Every atom must be stored.
    pub fn create_relation_with_metadata(&mut self, atom_ids: Vec<AtomId>, metadata: String) -> (r:
        RelationId)
        requires
            old(self).wf(),
            old(self)@.has_atoms(atom_ids@),
            old(self)@.next_relation_id < u64::MAX,
        ensures
            final(self).wf(),
            r.0 == old(self)@.next_relation_id,
            final(self)@.atoms == old(self)@.atoms,
            final(self)@.relations == old(self)@.relations.insert(
                r.0,
                RelationView { id: r.0, atoms: atom_ids@, metadata: Some(metadata@) },
            ),
            final(self)@.next_atom_id == old(self)@.next_atom_id,
            final(self)@.next_relation_id == old(self)@.next_relation_id + 1,
    {
        let id = RelationId(self.next_relation_id);
        self.next_relation_id = self.next_relation_id + 1;
        self.store_relation(Relation::with_metadata(id, atom_ids, metadata));
        id
    }

    /// Creates a relation over `atom_ids` as `create_relation` does when every
    /// atom is stored; otherwise returns `None` and changes nothing.
    pub fn try_create_relation(&mut self, atom_ids: Vec<AtomId>) -> (r: Option<RelationId>)
        requires
            old(self).wf(),
            old(self)@.next_relation_id < u64::MAX,
        ensures
            final(self).wf(),
            r is Some <==> old(self)@.has_atoms(atom_ids@),
            r is None ==> final(self)@ == old(self)@,
            r is Some ==> {
                &&& r.unwrap().0 == old(self)@.next_relation_id
                &&& final(self)@.atoms == old(self)@.atoms
                &&& final(self)@.relations == old(self)@.relations.insert(
                    r.unwrap().0,
                    RelationView { id: r.unwrap().0, atoms: atom_ids@, metadata: None },
                )
                &&& final(self)@.next_atom_id == old(self)@.next_atom_id
                &&& final(self)@.next_relation_id == old(self)@.next_relation_id + 1
            },
    {
        let mut i: usize = 0;
        while i < atom_ids.len()
            invariant
                0 <= i <= atom_ids@.len(),
                self.wf(),
                self@ == old(self)@,
                forall|j: int| 0 <= j < i ==> self@.atoms.contains_key(#[trigger] atom_ids@[j].0),
            decreases atom_ids@.len() - i,
        {
            if !self.contains_atom(atom_ids[i]) {
                return None;
            }
            i = i + 1;
        }
        Some(self.create_relation(atom_ids))
    }

    /// Stores `relation` under its own id, replacing any relation stored
    /// there; the counters are left alone. Every atom must be stored. Tells
    /// whether a relation was replaced.
    pub fn add_relation(&mut self, relation: Relation) -> (r: bool)
        requires
            old(self).wf(),
            old(self)@.has_atoms(relation.atoms@),
        ensures
            final(self).wf(),
            r == old(self)@.relations.contains_key(relation.id.0),
            final(self)@.atoms == old(self)@.atoms,
            final(self)@.relations == old(self)@.relations.insert(relation.id.0, relation@),
            final(self)@.next_atom_id == old(self)@.next_atom_id,
            final(self)@.next_relation_id == old(self)@.next_relation_id,
    {
        self.store_relation(relation)
    }

    /// Removes the relation with the given id, if stored, and returns it.
    pub fn remove_relation(&mut self, relation_id: RelationId) -> (r: Option<Relation>)
        requires
            old(self).wf(),
        ensures
            final(self).wf(),
            r is Some <==> old(self)@.relations.contains_key(relation_id.0),
            r is Some ==> r.unwrap()@ == old(self)@.relations[relation_id.0],
            final(self)@.atoms == old(self)@.atoms,
            final(self)@.relations == old(self)@.relations.remove(relation_id.0),
            final(self)@.next_atom_id == old(self)@.next_atom_id,
            final(self)@.next_relation_id == old(self)@.next_relation_id,
    {
        self.unlink(relation_id.0)
    }

    /// Removes the atom with the given id, if stored, together with every
    /// relation that references it, and returns the atom.
    pub fn remove_atom(&mut self, atom_id: AtomId) -> (r: Option<Atom>)
        requires
            old(self).wf(),
        ensures
            final(self).wf(),
            r is Some <==> old(self)@.atoms.contains_key(atom_id.0),
            r is Some ==> r.unwrap()@ == old(self)@.atoms[atom_id.0],
            final(self)@.atoms == old(self)@.atoms.remove(atom_id.0),
            final(self)@.relations == old(self)@.relations.remove_keys(
                old(self)@.relations_with_atom(atom_id.0),
            ),
            final(self)@.next_atom_id == old(self)@.next_atom_id,
            final(self)@.next_relation_id == old(self)@.next_relation_id,
            !final(self)@.atoms.contains_key(atom_id.0),
            final(self)@.relations_with_atom(atom_id.0) == Set::<u64>::empty(),
            forall|r: u64| old(self)@.relations.contains_key(r) && !old(self)@.references(r, atom_id.0)
                ==> #[trigger] final(self)@.relations.contains_key(r),
    {
        let a = atom_id.0;
        let ghost g0 = old(self)@;
        let list = match self.atom_to_relations.get(&a) {
            Some(l) => copy_ids(l),
            None => {
                assert(!g0.atoms.contains_key(a));
                assert(g0.atoms.remove(a) =~= g0.atoms);
                assert forall|x: u64| !g0.relations_with_atom(a).contains(x) by {
                    if g0.references(x, a) {
                        let j = choose|j: int|
                            0 <= j < g0.relations[x].atoms.len() && g0.relations[x].atoms[j] == AtomId(a);
                        assert(g0.atoms.contains_key(g0.relations[x].atoms[j].0));
                    }
                }
                assert(g0.relations.remove_keys(g0.relations_with_atom(a)) =~= g0.relations);
                return None;
            },
        };
        let mut i: usize = 0;
        while i < list.len()
            invariant
                0 <= i <= list@.len(),
                self.wf(),
                g0.valid(),
                list@.no_duplicates(),
                forall|x: u64| list@.contains(x) <==> g0.references(x, a),
                self@.atoms == g0.atoms,
                self@.relations == g0.relations.remove_keys(list@.take(i as int).to_set()),
                self@.next_atom_id == g0.next_atom_id,
                self@.next_relation_id == g0.next_relation_id,
            decreases list@.len() - i,
        {
            let ghost before = self@.relations;
            let _ = self.unlink(list[i]);
            proof {
                lemma_take_push(list@, i as int);
                assert(self@.relations =~= g0.relations.remove_keys(list@.take(i + 1).to_set()));
            }
            i = i + 1;
        }
        proof {
            assert(list@.take(list@.len() as int) =~= list@);
            assert(list@.to_set() =~= g0.relations_with_atom(a));
            assert forall|x: u64| !self@.references(x, a) by {}
        }
        let ghost before_index = self.atom_to_relations@;
        self.atom_to_relations.remove(&a);
        let r = self.atoms.remove(&a);
        proof {
            assert(self@.relations_with_atom(a) =~= Set::<u64>::empty());
            assert(self@.atoms =~= g0.atoms.remove(a));
            assert forall|x: u64, j: int|
                self@.relations.contains_key(x) && 0 <= j < self@.relations[x].atoms.len() implies self@.atoms.contains_key(
                #[trigger] self@.relations[x].atoms[j].0) by {
                if self@.relations[x].atoms[j].0 == a {
                    assert(self@.relations[x].atoms.contains(AtomId(a)));
                    assert(self@.references(x, a));
                }
            }
            assert forall|b: u64| #[trigger] self.atom_to_relations@.contains_key(b) implies before_index.contains_key(b)
                && before_index[b] == self.atom_to_relations@[b] by {}
        }
        r
    }

    /// Returns the ids of the stored atoms, in increasing order.
    pub fn atom_ids(&self) -> (r: Vec<AtomId>)
        requires
            self.wf(),
        ensures
            r@.len() == self@.atoms.len(),
            forall|i: int| 0 <= i < r@.len() ==> self@.atoms.contains_key(#[trigger] r@[i].0),
            forall|k: u64| self@.atoms.contains_key(k) ==> r@.contains(AtomId(k)),
            forall|i: int, j: int| 0 <= i < j < r@.len() ==> r@[i].0 < r@[j].0,
    {
        let ghost ks = self.atoms.keys().remaining().unref();
        let mut v: Vec<AtomId> = Vec::new();
        for k in it: self.atoms.keys()
            invariant
                it.seq().unref() == ks,
                v@.len() == it.index(),
                forall|i: int| 0 <= i < it.index() ==> (#[trigger] v@[i]).0 == ks[i],
        {
            v.push(AtomId(*k));
        }
        proof {
            assert(self@.atoms.dom() =~= self.atoms@.dom());
            assert forall|k: u64| self@.atoms.contains_key(k) implies v@.contains(AtomId(k)) by {
                assert(ks.to_set().contains(k));
                let i = choose|i: int| 0 <= i < ks.len() && ks[i] == k;
                assert(v@[i] == AtomId(k));
            }
            assert forall|i: int| 0 <= i < v@.len() implies self@.atoms.contains_key(#[trigger] v@[i].0) by {
                assert(ks.to_set().contains(ks[i]));
            }
            ks.unique_seq_to_set();
            let rs = self.atoms.keys().remaining();
            assert(vstd::laws_cmp::obeys_cmp::<u64>());
            assert(vstd::laws_cmp::obeys_cmp::<&u64>());
            assert(vstd::std_specs::btree::increasing_seq(rs));
            assert forall|i: int, j: int| 0 <= i < j < v@.len() implies v@[i].0 < v@[j].0 by {
                assert(<&u64 as OrdSpec>::cmp_spec(&rs[i], &rs[j]) is Less);
            }
        }
        v
    }

    /// Returns the ids of the stored relations, in increasing order.
    pub fn relation_ids(&self) -> (r: Vec<RelationId>)
        requires
            self.wf(),
        ensures
            r@.len() == self@.relations.len(),
            forall|i: int| 0 <= i < r@.len() ==> self@.relations.contains_key(#[trigger] r@[i].0),
            forall|k: u64| self@.relations.contains_key(k) ==> r@.contains(RelationId(k)),
            forall|i: int, j: int| 0 <= i < j < r@.len() ==> r@[i].0 < r@[j].0,
    {
        let ghost ks = self.relations.keys().remaining().unref();
        let mut v: Vec<RelationId> = Vec::new();
        for k in it: self.relations.keys()
            invariant
                it.seq().unref() == ks,
                v@.len() == it.index(),
                forall|i: int| 0 <= i < it.index() ==> (#[trigger] v@[i]).0 == ks[i],
        {
            v.push(RelationId(*k));
        }
        proof {
            assert(self@.relations.dom() =~= self.relations@.dom());
            assert forall|k: u64| self@.relations.contains_key(k) implies v@.contains(RelationId(k)) by {
                assert(ks.to_set().contains(k));
                let i = choose|i: int| 0 <= i < ks.len() && ks[i] == k;
                assert(v@[i] == RelationId(k));
            }
            assert forall|i: int| 0 <= i < v@.len() implies self@.relations.contains_key(#[trigger] v@[i].0) by {
                assert(ks.to_set().contains(ks[i]));
            }
            ks.unique_seq_to_set();
            let rs = self.relations.keys().remaining();
            assert(vstd::laws_cmp::obeys_cmp::<u64>());
            assert(vstd::laws_cmp::obeys_cmp::<&u64>());
            assert(vstd::std_specs::btree::increasing_seq(rs));
            assert forall|i: int, j: int| 0 <= i < j < v@.len() implies v@[i].0 < v@[j].0 by {
                assert(<&u64 as OrdSpec>::cmp_spec(&rs[i], &rs[j]) is Less);
            }
        }
        v
    }

    /// Returns the stored atoms, in increasing order of id.
    pub fn atoms(&self) -> (r: Vec<&Atom>)
        requires
            self.wf(),
        ensures
            r@.len() == self@.atoms.len(),
            forall|i: int| 0 <= i < r@.len() ==> self@.atoms.contains_key(#[trigger] r@[i].id.0)
                && r@[i]@ == self@.atoms[r@[i].id.0],
            forall|k: u64| self@.atoms.contains_key(k) ==> exists|i: int| 0 <= i < r@.len() && #[trigger] r@[i].id.0 == k,
            forall|i: int, j: int| 0 <= i < j < r@.len() ==> r@[i].id.0 < r@[j].id.0,
    {
        let ids = self.atom_ids();
        let mut v: Vec<&Atom> = Vec::new();
        for i in 0..ids.len()
            invariant
                self.wf(),
                v@.len() == i,
                forall|j: int| 0 <= j < i ==> (#[trigger] v@[j]).id == ids@[j] && v@[j]@ == self@.atoms[ids@[j].0],
                forall|j: int| 0 <= j < ids@.len() ==> self@.atoms.contains_key(#[trigger] ids@[j].0),
        {
            match self.get_atom(ids[i]) {
                Some(a) => v.push(a),
                None => {},
            }
        }
        proof {
            assert forall|k: u64| self@.atoms.contains_key(k) implies exists|i: int| 0 <= i < v@.len() && #[trigger] v@[i].id.0 == k by {
                let i = choose|i: int| 0 <= i < ids@.len() && ids@[i] == AtomId(k);
                assert(v@[i].id.0 == k);
            }
        }
        v
    }

    /// Returns the stored relations, in increasing order of id.
    pub fn relations(&self) -> (r: Vec<&Relation>)
        requires
            self.wf(),
        ensures
            r@.len() == self@.relations.len(),
            forall|i: int| 0 <= i < r@.len() ==> self@.relations.contains_key(#[trigger] r@[i].id.0)
                && r@[i]@ == self@.relations[r@[i].id.0],
            forall|k: u64| self@.relations.contains_key(k) ==> exists|i: int| 0 <= i < r@.len() && #[trigger] r@[i].id.0 == k,
            forall|i: int, j: int| 0 <= i < j < r@.len() ==> r@[i].id.0 < r@[j].id.0,
    {
        let ids = self.relation_ids();
        let mut v: Vec<&Relation> = Vec::new();
        for i in 0..ids.len()
            invariant
                self.wf(),
                v@.len() == i,
                forall|j: int| 0 <= j < i ==> (#[trigger] v@[j]).id == ids@[j] && v@[j]@ == self@.relations[ids@[j].0],
                forall|j: int| 0 <= j < ids@.len() ==> self@.relations.contains_key(#[trigger] ids@[j].0),
        {
            match self.get_relation(ids[i]) {
                Some(r) => v.push(r),
                None => {},
            }
        }
        proof {
            assert forall|k: u64| self@.relations.contains_key(k) implies exists|i: int| 0 <= i < v@.len() && #[trigger] v@[i].id.0 == k by {
                let i = choose|i: int| 0 <= i < ids@.len() && ids@[i] == RelationId(k);
                assert(v@[i].id.0 == k);
            }
        }
        v
    }

    /// Returns the stored relations that reference the given atom, each once,
    /// found through the incidence index.
    pub fn find_relations_with_atom(&self, atom_id: AtomId) -> (r: Vec<&Relation>)
        requires
            self.wf(),
        ensures
            forall|i: int| 0 <= i < r@.len() ==> self@.references(#[trigger] r@[i].id.0, atom_id.0)
                && r@[i]@ == self@.relations[r@[i].id.0],
            forall|k: u64| self@.references(k, atom_id.0) ==> exists|i: int| 0 <= i < r@.len() && #[trigger] r@[i].id.0 == k,
            forall|i: int, j: int| 0 <= i < j < r@.len() ==> r@[i].id != r@[j].id,
    {
        let a = atom_id.0;
        let mut v: Vec<&Relation> = Vec::new();
        match self.atom_to_relations.get(&a) {
            None => {
                proof {
                    assert forall|k: u64| !self@.references(k, a) by {
                        if self@.references(k, a) {
                            let j = choose|j: int|
                                0 <= j < self@.relations[k].atoms.len() && self@.relations[k].atoms[j] == AtomId(a);
                            assert(self@.atoms.contains_key(self@.relations[k].atoms[j].0));
                        }
                    }
                }
            },
            Some(list) => {
                for i in 0..list.len()
                    invariant
                        self.wf(),
                        self.atom_to_relations@.contains_key(a),
                        list@ == self.atom_to_relations@[a]@,
                        v@.len() == i,
                        forall|j: int| 0 <= j < i ==> (#[trigger] v@[j]).id.0 == list@[j] && v@[j]@ == self@.relations[list@[j]],
                {
                    proof {
                        assert(list@.contains(list@[i as int]));
                    }
                    match self.get_relation(RelationId(list[i])) {
                        Some(rel) => v.push(rel),
                        None => {},
                    }
                }
                proof {
                    assert forall|k: u64| self@.references(k, a) implies exists|i: int| 0 <= i < v@.len() && #[trigger] v@[i].id.0 == k by {
                        assert(list@.contains(k));
                        let i = choose|i: int| 0 <= i < list@.len() && list@[i] == k;
                        assert(v@[i].id.0 == k);
                    }
                    assert forall|i: int| 0 <= i < v@.len() implies self@.references(#[trigger] v@[i].id.0, a) by {
                        assert(list@.contains(list@[i]));
                    }
                }
            },
        }
        v
    }

    /// Replaces the metadata of the atom with the given id; tells whether
    /// that atom is stored (when it is not, nothing changes).
    pub fn set_atom_metadata(&mut self, atom_id: AtomId, metadata: Option<String>) -> (r: bool)
        requires
            old(self).wf(),
        ensures
            final(self).wf(),
            r == old(self)@.atoms.contains_key(atom_id.0),
            r ==> final(self)@.atoms == old(self)@.atoms.insert(
                atom_id.0,
                AtomView { id: atom_id.0, metadata: crate::atom::text_view(metadata) },
            ),
            !r ==> final(self)@.atoms == old(self)@.atoms,
            final(self)@.relations == old(self)@.relations,
            final(self)@.next_atom_id == old(self)@.next_atom_id,
            final(self)@.next_relation_id == old(self)@.next_relation_id,
    {
        match self.atoms.remove(&atom_id.0) {
            Some(mut atom) => {
                atom.set_metadata(metadata);
                let ghost av = atom@;
                self.atoms.insert(atom_id.0, atom);
                assert(self@.atoms =~= old(self)@.atoms.insert(atom_id.0, av));
                assert(self@.relations =~= old(self)@.relations);
                true
            },
            None => {
                assert(self@.atoms =~= old(self)@.atoms);
                assert(self@.relations =~= old(self)@.relations);
                false
            },
        }
    }

    /// Replaces the metadata of the relation with the given id; tells
    /// whether that relation is stored (when it is not, nothing changes).
    pub fn set_relation_metadata(&mut self, relation_id: RelationId, metadata: Option<String>) -> (r: bool)
        requires
            old(self).wf(),
        ensures
            final(self).wf(),
            r == old(self)@.relations.contains_key(relation_id.0),
            r ==> final(self)@.relations == old(self)@.relations.insert(
                relation_id.0,
                RelationView {
                    id: relation_id.0,
                    atoms: old(self)@.relations[relation_id.0].atoms,
                    metadata: crate::atom::text_view(metadata),
                },
            ),
            !r ==> final(self)@.relations == old(self)@.relations,
            final(self)@.atoms == old(self)@.atoms,
            final(self)@.next_atom_id == old(self)@.next_atom_id,
            final(self)@.next_relation_id == old(self)@.next_relation_id,
    {
        match self.relations.remove(&relation_id.0) {
            Some(mut rel) => {
                rel.set_metadata(metadata);
                let ghost rv = rel@;
                self.relations.insert(relation_id.0, rel);
                assert(self@.relations =~= old(self)@.relations.insert(relation_id.0, rv));
                assert(self@.atoms =~= old(self)@.atoms);
                assert forall|a: u64, x: u64| self@.references(x, a) <==> old(self)@.references(x, a) by {
                    if x == relation_id.0 {
                        assert(self@.relations[x].atoms == old(self)@.relations[x].atoms);
                    }
                }
                true
            },
            None => {
                assert(self@.atoms =~= old(self)@.atoms);
                assert(self@.relations =~= old(self)@.relations);
                false
            },
        }
    }

    /// Returns the atom with the given id, if stored.
    pub fn get_atom(&self, atom_id: AtomId) -> (r: Option<&Atom>)
        requires
            self.wf(),
        ensures
            r is Some <==> self@.atoms.contains_key(atom_id.0),
            r is Some ==> r.unwrap()@ == self@.atoms[atom_id.0],
    {
        self.atoms.get(&atom_id.0)
    }

    /// Returns the relation with the given id, if stored.
    pub fn get_relation(&self, relation_id: RelationId) -> (r: Option<&Relation>)
        requires
            self.wf(),
        ensures
            r is Some <==> self@.relations.contains_key(relation_id.0),
            r is Some ==> r.unwrap()@ == self@.relations[relation_id.0],
    {
        self.relations.get(&relation_id.0)
    }

    /// Tells whether an atom with the given id is stored.
    pub fn contains_atom(&self, atom_id: AtomId) -> (r: bool)
        requires
            self.wf(),
        ensures
            r == self@.atoms.contains_key(atom_id.0),
    {
        self.atoms.contains_key(&atom_id.0)
    }

    /// Tells whether a relation with the given id is stored.
    pub fn contains_relation(&self, relation_id: RelationId) -> (r: bool)
        requires
            self.wf(),
        ensures
            r == self@.relations.contains_key(relation_id.0),
    {
        self.relations.contains_key(&relation_id.0)
    }

    /// Returns the id that the next created atom receives.
    pub fn next_atom_id(&self) -> (r: u64)
        ensures
            r == self@.next_atom_id,
    {
        self.next_atom_id
    }

    /// Returns the id that the next created relation receives.
    pub fn next_relation_id(&self) -> (r: u64)
        ensures
            r == self@.next_relation_id,
    {
        self.next_relation_id
    }

    /// Sets the id that the next created atom receives.
    pub fn set_next_atom_id(&mut self, next_id: u64)
        requires
            old(self).wf(),
        ensures
            final(self).wf(),
            final(self)@.atoms == old(self)@.atoms,
            final(self)@.relations == old(self)@.relations,
            final(self)@.next_atom_id == next_id,
            final(self)@.next_relation_id == old(self)@.next_relation_id,
    {
        self.next_atom_id = next_id;
    }

    /// Sets the id that the next created relation receives.
    pub fn set_next_relation_id(&mut self, next_id: u64)
        requires
            old(self).wf(),
        ensures
            final(self).wf(),
            final(self)@.atoms == old(self)@.atoms,
            final(self)@.relations == old(self)@.relations,
            final(self)@.next_atom_id == old(self)@.next_atom_id,
            final(self)@.next_relation_id == next_id,
    {
        self.next_relation_id = next_id;
    }

    /// Removes every atom and relation; the counters are kept, so that ids
    /// stay unique over the life of the hypergraph.
    pub fn clear(&mut self)
        requires
            old(self).wf(),
        ensures
            final(self).wf(),
            final(self)@.atoms == Map::<u64, AtomView>::empty(),
            final(self)@.relations == Map::<u64, RelationView>::empty(),
            final(self)@.next_atom_id == old(self)@.next_atom_id,
            final(self)@.next_relation_id == old(self)@.next_relation_id,
    {
        self.atoms.clear();
        self.relations.clear();
        self.atom_to_relations.clear();
        assert(self@.atoms =~= Map::<u64, AtomView>::empty());
        assert(self@.relations =~= Map::<u64, RelationView>::empty());
    }
}

impl Default for Hypergraph {
    fn default() -> (r: Hypergraph)
        ensures
            r.wf(),
            r@.atoms == Map::<u64, AtomView>::empty(),
            r@.relations == Map::<u64, RelationView>::empty(),
            r@.next_atom_id == 0,
            r@.next_relation_id == 0,
    {
        Hypergraph::new()
    }
}

} // verus!
