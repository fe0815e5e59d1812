use vstd::prelude::*;
use crate::atom::{Atom, AtomId, AtomView};
use crate::relation::{Relation, RelationId, RelationView};
use crate::event::{HypergraphState, state_valid, lists_atom};
use crate::manager::validate_state;

verus! {

/// The views of atoms `0 .. n`, in order, without metadata.
pub open spec fn plain_atoms(n: nat) -> Seq<AtomView> {
    Seq::new(n, |i: int| AtomView { id: i as u64, metadata: None })
}

/// The view of relation `id` over atoms `a` and `b`, without metadata.
pub open spec fn edge(id: u64, a: u64, b: u64) -> RelationView {
    RelationView { id, atoms: seq![AtomId(a), AtomId(b)], metadata: None }
}

/// The atoms of a snapshot, as views.
pub open spec fn atom_views(st: HypergraphState) -> Seq<AtomView> {
    st.atoms@.map_values(|a: Atom| a@)
}

/// The relations of a snapshot, as views.
pub open spec fn relation_views(st: HypergraphState) -> Seq<RelationView> {
    st.relations@.map_values(|r: Relation| r@)
}

/// Whether `st` has atoms `0 .. n`, relations `rels`, step 0 and the given
/// counters.
pub open spec fn example_shape(st: HypergraphState, n: nat, rels: Seq<RelationView>, next_atom: u64, next_relation: u64) -> bool {
    &&& atom_views(st) == plain_atoms(n)
    &&& relation_views(st) == rels
    &&& st.step_number == 0
    &&& st.next_atom_id == next_atom
    &&& st.next_relation_id == next_relation
}

/// The names of the predefined examples.
pub open spec fn is_example_name(name: Seq<char>) -> bool {
    name == "empty_graph"@ || name == "single_edge"@ || name == "triangle"@ || name == "small_path"@ || name
        == "small_cycle"@
}

/// The names of the predefined examples, in catalogue order.
pub open spec fn example_names() -> Seq<Seq<char>> {
    seq!["empty_graph"@, "single_edge"@, "triangle"@, "small_path"@, "small_cycle"@]
}

/// The snapshot `st` is the predefined example called `name`.
pub open spec fn example_shape_of(name: Seq<char>, st: HypergraphState) -> bool {
    if name == "empty_graph"@ {
        example_shape(st, 0, Seq::empty(), 0, 0)
    } else if name == "single_edge"@ {
        example_shape(st, 2, seq![edge(0, 0, 1)], 2, 1)
    } else if name == "triangle"@ {
        example_shape(st, 3, seq![edge(0, 0, 1), edge(1, 1, 2), edge(2, 2, 0)], 3, 3)
    } else if name == "small_path"@ {
        example_shape(st, 4, seq![edge(0, 0, 1), edge(1, 1, 2), edge(2, 2, 3)], 4, 3)
    } else if name == "small_cycle"@ {
        example_shape(st, 4, seq![edge(0, 0, 1), edge(1, 1, 2), edge(2, 2, 3), edge(3, 3, 0)], 4, 4)
    } else {
        false
    }
}

/// The number of atoms and of relations of the predefined example `name`.
pub open spec fn example_size(name: Seq<char>) -> (nat, nat) {
    if name == "empty_graph"@ {
        (0, 0)
    } else if name == "single_edge"@ {
        (2, 1)
    } else if name == "triangle"@ {
        (3, 3)
    } else if name == "small_path"@ {
        (4, 3)
    } else {
        (4, 4)
    }
}

/// The description of the predefined example `name`.
pub open spec fn description_of(name: Seq<char>) -> Seq<char> {
    if name == "empty_graph"@ {
        "An empty hypergraph with no atoms or relations. Good starting point for custom simulations."@
    } else if name == "single_edge"@ {
        "A simple edge connecting two atoms (A--B). Classic starting point for edge splitting."@
    } else if name == "triangle"@ {
        "Three atoms connected in a triangle (A--B--C--A). Demonstrates a basic cycle."@
    } else if name == "small_path"@ {
        "Four atoms connected in a linear path (A--B--C--D). Good for studying linear evolution."@
    } else {
        "Four atoms connected in a cycle (A--B--C--D--A). More complex cyclic structure."@
    }
}

proof fn lemma_names_distinct()
    ensures
        "empty_graph"@ != "single_edge"@,
        "empty_graph"@ != "triangle"@,
        "empty_graph"@ != "small_path"@,
        "empty_graph"@ != "small_cycle"@,
        "single_edge"@ != "triangle"@,
        "single_edge"@ != "small_path"@,
        "single_edge"@ != "small_cycle"@,
        "triangle"@ != "small_path"@,
        "triangle"@ != "small_cycle"@,
        "small_path"@ != "small_cycle"@,
{
    reveal_strlit("empty_graph");
    reveal_strlit("single_edge");
    reveal_strlit("triangle");
    reveal_strlit("small_path");
    reveal_strlit("small_cycle");
    assert("empty_graph"@[0] != "single_edge"@[0]);
    assert("empty_graph"@.len() != "triangle"@.len());
    assert("empty_graph"@[0] != "small_path"@[0]);
    assert("empty_graph"@[0] != "small_cycle"@[0]);
    assert("single_edge"@.len() != "triangle"@.len());
    assert("single_edge"@[1] != "small_path"@[1]);
    assert("single_edge"@[1] != "small_cycle"@[1]);
    assert("triangle"@.len() != "small_path"@.len());
    assert("triangle"@.len() != "small_cycle"@.len());
    assert("small_path"@[6] != "small_cycle"@[6]);
}

/// Tells whether two strings hold the same characters.
fn same_text(a: &str, b: &str) -> (r: bool)
    ensures
        r == (a@ == b@),
{
    a.to_owned() == b.to_owned()
}

/// Atoms `0 .. n`, without metadata.
fn plain_atom_list(n: u64) -> (r: Vec<Atom>)
    ensures
        r@.map_values(|a: Atom| a@) == plain_atoms(n as nat),
{
    let mut v: Vec<Atom> = Vec::new();
    let mut i: u64 = 0;
    while i < n
        invariant
            0 <= i <= n,
            v@.map_values(|a: Atom| a@) == plain_atoms(i as nat),
        decreases n - i,
    {
        let ghost before = v@;
        let atom = Atom::new(AtomId(i));
        v.push(atom);
        proof {
            assert(v@ == before.push(atom));
            assert(v@.map_values(|a: Atom| a@) =~= before.map_values(|a: Atom| a@).push(atom@));
            assert(v@.map_values(|a: Atom| a@) =~= plain_atoms((i + 1) as nat));
        }
        i = i + 1;
    }
    v
}

/// Relation `id` over atoms `a` and `b`.
fn edge_relation(id: u64, a: u64, b: u64) -> (r: Relation)
    ensures
        r@ == edge(id, a, b),
{
    let mut atoms: Vec<AtomId> = Vec::new();
    atoms.push(AtomId(a));
    atoms.push(AtomId(b));
    let r = Relation::new(RelationId(id), atoms);
    assert(r@.atoms =~= seq![AtomId(a), AtomId(b)]);
    r
}

/// A snapshot with atoms `0 .. n` and binary relations `0 .. k` over the
/// given pairs is valid when every pair lies below `n`.
proof fn lemma_example_valid(st: HypergraphState, n: nat, k: nat)
    requires
        atom_views(st) == plain_atoms(n),
        relation_views(st).len() == k,
        forall|i: int| 0 <= i < k ==> (#[trigger] relation_views(st)[i]).id == i,
        forall|i: int, j: int| 0 <= i < k && 0 <= j < relation_views(st)[i].atoms.len() ==> (#[trigger] relation_views(st)[i].atoms[j]).0 < n,
        n <= st.next_atom_id,
        k <= st.next_relation_id,
        n <= u64::MAX,
    ensures
        state_valid(st),
{
    assert forall|i: int, j: int|
        0 <= i < st.relations@.len() && 0 <= j < st.relations@[i].atoms@.len() implies lists_atom(
            st.atoms@,
            #[trigger] st.relations@[i].atoms@[j],
        ) by {
        assert(atom_views(st).len() == st.atoms@.len());
        assert(plain_atoms(n).len() == n);
        assert(relation_views(st)[i] == st.relations@[i]@);
        let a = st.relations@[i].atoms@[j];
        assert(relation_views(st)[i].atoms[j] == a);
        assert(a.0 < n);
        assert(st.atoms@.len() == n);
        let x = a.0 as int;
        assert(atom_views(st)[x] == st.atoms@[x]@);
        assert(st.atoms@[x].id == a);
    }
    assert forall|x: int| 0 <= x < st.atoms@.len() implies (#[trigger] st.atoms@[x]).id.0 < st.next_atom_id by {
        assert(atom_views(st).len() == st.atoms@.len());
        assert(plain_atoms(n).len() == n);
        assert(atom_views(st)[x] == st.atoms@[x]@);
        assert(plain_atoms(n)[x].id == x);
    }
    assert forall|x: int| 0 <= x < st.relations@.len() implies (#[trigger] st.relations@[x]).id.0 < st.next_relation_id by {
        assert(relation_views(st)[x] == st.relations@[x]@);
    }
}

/// The fixed catalogue of seed snapshots.
pub struct PredefinedExamples;

/// Name, description and size of one predefined example.
pub struct ExampleInfo {
    pub name: &'static str,
    pub description: &'static str,
    pub atom_count: usize,
    pub relation_count: usize,
}

impl PredefinedExamples {
    /// Returns the names of all predefined examples.
    pub fn list_examples() -> (r: Vec<&'static str>)
        ensures
            r@.len() == 5,
            forall|i: int| 0 <= i < r@.len() ==> #[trigger] r@[i]@ == example_names()[i],
            forall|i: int| 0 <= i < r@.len() ==> is_example_name(#[trigger] r@[i]@),
    {
        let mut v: Vec<&'static str> = Vec::new();
        v.push("empty_graph");
        v.push("single_edge");
        v.push("triangle");
        v.push("small_path");
        v.push("small_cycle");
        v
    }

    /// Returns the example with the given name, if there is one.
    pub fn get_example(name: &str) -> (r: Option<HypergraphState>)
        ensures
            r is Some <==> is_example_name(name@),
            r is Some ==> state_valid(r.unwrap()),
            r is Some ==> example_shape_of(name@, r.unwrap()),
            r is Some ==> r.unwrap().atoms@.len() == example_size(name@).0 && r.unwrap().relations@.len()
                == example_size(name@).1,
    {
        proof {
            lemma_names_distinct();
        }
        let r = if same_text(name, "empty_graph") {
            Some(Self::empty_graph())
        } else if same_text(name, "single_edge") {
            Some(Self::single_edge())
        } else if same_text(name, "triangle") {
            Some(Self::triangle())
        } else if same_text(name, "small_path") {
            Some(Self::small_path())
        } else if same_text(name, "small_cycle") {
            Some(Self::small_cycle())
        } else {
            None
        };
        proof {
            if r is Some {
                let st = r.unwrap();
                assert(atom_views(st).len() == st.atoms@.len());
                assert(relation_views(st).len() == st.relations@.len());
            }
        }
        r
    }

    /// An empty hypergraph with both counters at zero.
    pub fn empty_graph() -> (r: HypergraphState)
        ensures
            example_shape(r, 0, Seq::empty(), 0, 0),
            state_valid(r),
    {
        let r = HypergraphState::new(plain_atom_list(0), Vec::new(), 0, 0, 0);
        proof {
            assert(relation_views(r) =~= Seq::<RelationView>::empty());
            lemma_example_valid(r, 0, 0);
        }
        r
    }

    /// One edge between two atoms: `A -- B`.
    pub fn single_edge() -> (r: HypergraphState)
        ensures
            example_shape(r, 2, seq![edge(0, 0, 1)], 2, 1),
            state_valid(r),
    {
        let mut relations: Vec<Relation> = Vec::new();
        relations.push(edge_relation(0, 0, 1));
        let r = HypergraphState::new(plain_atom_list(2), relations, 0, 2, 1);
        proof {
            assert(relation_views(r) =~= seq![edge(0, 0, 1)]);
            lemma_example_valid(r, 2, 1);
        }
        r
    }

    /// Three atoms in a triangle: `A -- B -- C -- A`.
    pub fn triangle() -> (r: HypergraphState)
        ensures
            example_shape(r, 3, seq![edge(0, 0, 1), edge(1, 1, 2), edge(2, 2, 0)], 3, 3),
            state_valid(r),
    {
        let mut relations: Vec<Relation> = Vec::new();
        relations.push(edge_relation(0, 0, 1));
        relations.push(edge_relation(1, 1, 2));
        relations.push(edge_relation(2, 2, 0));
        let r = HypergraphState::new(plain_atom_list(3), relations, 0, 3, 3);
        proof {
            assert(relation_views(r) =~= seq![edge(0, 0, 1), edge(1, 1, 2), edge(2, 2, 0)]);
            lemma_example_valid(r, 3, 3);
        }
        r
    }

    /// Four atoms in a path: `A -- B -- C -- D`.
    pub fn small_path() -> (r: HypergraphState)
        ensures
            example_shape(r, 4, seq![edge(0, 0, 1), edge(1, 1, 2), edge(2, 2, 3)], 4, 3),
            state_valid(r),
    {
        let mut relations: Vec<Relation> = Vec::new();
        relations.push(edge_relation(0, 0, 1));
        relations.push(edge_relation(1, 1, 2));
        relations.push(edge_relation(2, 2, 3));
        let r = HypergraphState::new(plain_atom_list(4), relations, 0, 4, 3);
        proof {
            assert(relation_views(r) =~= seq![edge(0, 0, 1), edge(1, 1, 2), edge(2, 2, 3)]);
            lemma_example_valid(r, 4, 3);
        }
        r
    }

    /// Four atoms in a cycle: `A -- B -- C -- D -- A`.
    pub fn small_cycle() -> (r: HypergraphState)
        ensures
            example_shape(r, 4, seq![edge(0, 0, 1), edge(1, 1, 2), edge(2, 2, 3), edge(3, 3, 0)], 4, 4),
            state_valid(r),
    {
        let mut relations: Vec<Relation> = Vec::new();
        relations.push(edge_relation(0, 0, 1));
        relations.push(edge_relation(1, 1, 2));
        relations.push(edge_relation(2, 2, 3));
        relations.push(edge_relation(3, 3, 0));
        let r = HypergraphState::new(plain_atom_list(4), relations, 0, 4, 4);
        proof {
            assert(relation_views(r) =~= seq![edge(0, 0, 1), edge(1, 1, 2), edge(2, 2, 3), edge(3, 3, 0)]);
            lemma_example_valid(r, 4, 4);
        }
        r
    }

    /// Returns the description of the example with the given name, if there
    /// is one.
    pub fn get_description(name: &str) -> (r: Option<&'static str>)
        ensures
            r is Some <==> is_example_name(name@),
            r is Some ==> r.unwrap()@ == description_of(name@),
    {
        proof {
            lemma_names_distinct();
        }
        if same_text(name, "empty_graph") {
            Some("An empty hypergraph with no atoms or relations. Good starting point for custom simulations.")
        } else if same_text(name, "single_edge") {
            Some("A simple edge connecting two atoms (A--B). Classic starting point for edge splitting.")
        } else if same_text(name, "triangle") {
            Some("Three atoms connected in a triangle (A--B--C--A). Demonstrates a basic cycle.")
        } else if same_text(name, "small_path") {
            Some("Four atoms connected in a linear path (A--B--C--D). Good for studying linear evolution.")
        } else if same_text(name, "small_cycle") {
            Some("Four atoms connected in a cycle (A--B--C--D--A). More complex cyclic structure.")
        } else {
            None
        }
    }

    /// Checks every predefined example; on failure returns the name of the
    /// first one that cannot be rebuilt.
    pub fn validate_all_examples() -> (r: Result<(), String>)
        ensures
            r is Ok,
    {
        let names = Self::list_examples();
        let mut i: usize = 0;
        while i < names.len()
            invariant
                0 <= i <= names@.len(),
                forall|k: int| 0 <= k < names@.len() ==> is_example_name(#[trigger] names@[k]@),
            decreases names@.len() - i,
        {
            match Self::get_example(names[i]) {
                Some(state) => {
                    match validate_state(&state) {
                        Ok(()) => {},
                        Err(_) => {
                            return Err(names[i].to_owned());
                        },
                    }
                },
                None => {
                    return Err(names[i].to_owned());
                },
            }
            i = i + 1;
        }
        Ok(())
    }

    /// Returns name, description and size of every predefined example, in
    /// catalogue order.
    pub fn get_all_example_info() -> (r: Vec<ExampleInfo>)
        ensures
            r@.len() == 5,
            forall|i: int| 0 <= i < r@.len() ==> #[trigger] r@[i].name@ == example_names()[i],
            forall|i: int| 0 <= i < r@.len() ==> is_example_name(#[trigger] r@[i].name@),
            forall|i: int| 0 <= i < r@.len() ==> (#[trigger] r@[i]).description@ == description_of(r@[i].name@),
            forall|i: int| 0 <= i < r@.len() ==> (#[trigger] r@[i]).atom_count == example_size(r@[i].name@).0
                && r@[i].relation_count == example_size(r@[i].name@).1,
    {
        let names = Self::list_examples();
        let mut out: Vec<ExampleInfo> = Vec::new();
        let mut i: usize = 0;
        while i < names.len()
            invariant
                0 <= i <= names@.len(),
                names@.len() == 5,
                out@.len() == i,
                forall|k: int| 0 <= k < names@.len() ==> #[trigger] names@[k]@ == example_names()[k],
                forall|k: int| 0 <= k < names@.len() ==> is_example_name(#[trigger] names@[k]@),
                forall|k: int| 0 <= k < out@.len() ==> #[trigger] out@[k].name@ == names@[k]@,
                forall|k: int| 0 <= k < out@.len() ==> (#[trigger] out@[k]).description@ == description_of(out@[k].name@),
                forall|k: int| 0 <= k < out@.len() ==> (#[trigger] out@[k]).atom_count == example_size(out@[k].name@).0
                    && out@[k].relation_count == example_size(out@[k].name@).1,
            decreases names@.len() - i,
        {
            let name = names[i];
            proof {
                assert(is_example_name(names@[i as int]@));
            }
            match (Self::get_example(name), Self::get_description(name)) {
                (Some(state), Some(description)) => {
                    out.push(
                        ExampleInfo {
                            name,
                            description,
                            atom_count: state.atoms.len(),
                            relation_count: state.relations.len(),
                        },
                    );
                },
                _ => {
                    return out;
                },
            }
            i = i + 1;
        }
        out
    }
}

} // verus!
