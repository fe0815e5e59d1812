use vstd::prelude::*;
use vstd::std_specs::iter::IteratorSpec;
use crate::atom::{AtomId, text_view, copy_text, text_as_str};

verus! {

/// A named placeholder in a pattern; it has no identity beyond its name.
#[derive(Debug, Eq, Hash)]
pub struct Variable {
    name: String,
}

impl View for Variable {
    type V = Seq<char>;

    closed spec fn view(&self) -> Seq<char> {
        self.name@
    }
}

impl PartialEq for Variable {
    fn eq(&self, other: &Variable) -> (r: bool)
        ensures
            r == (self@ == other@),
    {
        self.name == other.name
    }
}

impl vstd::std_specs::cmp::PartialEqSpecImpl for Variable {
    open spec fn obeys_eq_spec() -> bool {
        true
    }

    open spec fn eq_spec(&self, other: &Variable) -> bool {
        self@ == other@
    }
}

impl Clone for Variable {
    fn clone(&self) -> (r: Self)
        ensures
            r@ == self@,
    {
        Variable { name: self.name.clone() }
    }
}

impl Variable {
    /// Creates a variable with the given name.
    pub fn new(name: &str) -> (r: Variable)
        ensures
            r@ == name@,
    {
        Variable { name: name.to_owned() }
    }

    /// Returns the name of this variable.
    pub fn name(&self) -> (r: &str)
        ensures
            r@ == self@,
    {
        self.name.as_str()
    }
}

/// The map that a sequence of (variable, atom) entries stands for; a later
/// entry for a name wins over an earlier one.
pub open spec fn entries_map(s: Seq<(Variable, AtomId)>) -> Map<Seq<char>, AtomId>
    decreases s.len(),
{
    if s.len() == 0 {
        Map::empty()
    } else {
        entries_map(s.drop_last()).insert(s.last().0@, s.last().1)
    }
}

/// No two entries name the same variable.
pub open spec fn names_unique(s: Seq<(Variable, AtomId)>) -> bool {
    forall|i: int, j: int| 0 <= i < s.len() && 0 <= j < s.len() && i != j ==> s[i].0@ != s[j].0@
}

proof fn lemma_entries_map(s: Seq<(Variable, AtomId)>)
    requires
        names_unique(s),
    ensures
        entries_map(s).dom().finite(),
        entries_map(s).dom().len() == s.len(),
        forall|i: int| 0 <= i < s.len() ==> #[trigger] entries_map(s).contains_key(s[i].0@) && entries_map(s)[s[i].0@] == s[i].1,
        forall|k: Seq<char>| #[trigger] entries_map(s).contains_key(k) ==> exists|i: int| 0 <= i < s.len() && s[i].0@ == k,
    decreases s.len(),
{
    if s.len() > 0 {
        let t = s.drop_last();
        assert(names_unique(t));
        lemma_entries_map(t);
        let k = s.last().0@;
        assert(!entries_map(t).contains_key(k)) by {
            if entries_map(t).contains_key(k) {
                let i = choose|i: int| 0 <= i < t.len() && t[i].0@ == k;
                assert(s[i].0@ == s[s.len() - 1].0@);
            }
        }
        assert(entries_map(s).dom() =~= entries_map(t).dom().insert(k));
        assert forall|i: int| 0 <= i < s.len() implies #[trigger] entries_map(s).contains_key(s[i].0@)
            && entries_map(s)[s[i].0@] == s[i].1 by {
            if i < s.len() - 1 {
                assert(t[i] == s[i]);
            }
        }
        assert forall|k2: Seq<char>| #[trigger] entries_map(s).contains_key(k2) implies exists|i: int|
            0 <= i < s.len() && s[i].0@ == k2 by {
            if k2 != k {
                let i = choose|i: int| 0 <= i < t.len() && t[i].0@ == k2;
                assert(s[i] == t[i]);
            } else {
                assert(s[s.len() - 1].0@ == k2);
            }
        }
    }
}

/// A partial assignment of atoms to variables, at most one atom per variable.
#[derive(Debug, Eq)]
pub struct Binding {
    entries: Vec<(Variable, AtomId)>,
}

impl View for Binding {
    type V = Map<Seq<char>, AtomId>;

    closed spec fn view(&self) -> Map<Seq<char>, AtomId> {
        entries_map(self.entries@)
    }
}

impl PartialEq for Binding {
    fn eq(&self, other: &Binding) -> (r: bool)
        ensures
            r == (self@ == other@),
    {
        proof {
            use_type_invariant(self);
            use_type_invariant(other);
            lemma_entries_map(self.entries@);
            lemma_entries_map(other.entries@);
        }
        if self.entries.len() != other.entries.len() {
            return false;
        }
        let mut i: usize = 0;
        while i < self.entries.len()
            invariant
                0 <= i <= self.entries@.len(),
                names_unique(self.entries@),
                names_unique(other.entries@),
                self.entries@.len() == other.entries@.len(),
                forall|j: int| 0 <= j < i ==> other@.contains_key(#[trigger] self.entries@[j].0@)
                    && other@[self.entries@[j].0@] == self.entries@[j].1,
            decreases self.entries@.len() - i,
        {
            match other.get_binding(&self.entries[i].0) {
                Some(a) => {
                    if a != self.entries[i].1 {
                        proof {
                            lemma_entries_map(self.entries@);
                            assert(self@.contains_key(self.entries@[i as int].0@));
                            assert(self@[self.entries@[i as int].0@] == self.entries@[i as int].1);
                        }
                        return false;
                    }
                },
                None => {
                    proof {
                        lemma_entries_map(self.entries@);
                        assert(self@.contains_key(self.entries@[i as int].0@));
                    }
                    return false;
                },
            }
            i = i + 1;
        }
        proof {
            lemma_entries_map(self.entries@);
            lemma_entries_map(other.entries@);
            assert(self@.submap_of(other@)) by {
                assert forall|k: Seq<char>| #[trigger] self@.contains_key(k) implies other@.contains_key(k) && other@[k] == self@[k] by {
                    let j = choose|j: int| 0 <= j < self.entries@.len() && self.entries@[j].0@ == k;
                }
            }
            assert(self@.dom().subset_of(other@.dom()));
            assert(other@.dom() =~= self@.dom()) by {
                if !(other@.dom() =~= self@.dom()) {
                    let k = choose|k: Seq<char>| other@.dom().contains(k) && !self@.dom().contains(k);
                    vstd::set_lib::lemma_len_subset(self@.dom().insert(k), other@.dom());
                }
            }
            assert(self@ =~= other@);
        }
        true
    }
}

impl vstd::std_specs::cmp::PartialEqSpecImpl for Binding {
    open spec fn obeys_eq_spec() -> bool {
        true
    }

    open spec fn eq_spec(&self, other: &Binding) -> bool {
        self@ == other@
    }
}

impl Clone for Binding {
    fn clone(&self) -> (r: Self)
        ensures
            r@ == self@,
    {
        proof {
            use_type_invariant(self);
        }
        let mut entries: Vec<(Variable, AtomId)> = Vec::new();
        for i in 0..self.entries.len()
            invariant
                names_unique(self.entries@),
                entries@.len() == i,
                forall|j: int| 0 <= j < i ==> (#[trigger] entries@[j]).0@ == self.entries@[j].0@ && entries@[j].1
                    == self.entries@[j].1,
        {
            let v = self.entries[i].0.clone();
            entries.push((v, self.entries[i].1));
        }
        proof {
            lemma_same_entries(entries@, self.entries@);
        }
        Binding { entries }
    }
}

proof fn lemma_same_entries(s: Seq<(Variable, AtomId)>, t: Seq<(Variable, AtomId)>)
    requires
        s.len() == t.len(),
        forall|j: int| 0 <= j < s.len() ==> (#[trigger] s[j]).0@ == t[j].0@ && s[j].1 == t[j].1,
    ensures
        entries_map(s) == entries_map(t),
        names_unique(t) ==> names_unique(s),
    decreases s.len(),
{
    if s.len() > 0 {
        lemma_same_entries(s.drop_last(), t.drop_last());
    }
    if names_unique(t) {
        assert forall|i: int, j: int| 0 <= i < s.len() && 0 <= j < s.len() && i != j implies s[i].0@ != s[j].0@ by {
            assert(s[i].0@ == t[i].0@ && s[j].0@ == t[j].0@);
        }
    }
}

impl Default for Binding {
    fn default() -> (r: Binding)
        ensures
            r@ == Map::<Seq<char>, AtomId>::empty(),
    {
        Binding::new()
    }
}

impl Binding {
    #[verifier::type_invariant]
    spec fn inv(&self) -> bool {
        names_unique(self.entries@)
    }

    /// Creates an empty binding.
    pub fn new() -> (r: Binding)
        ensures
            r@ == Map::<Seq<char>, AtomId>::empty(),
    {
        Binding { entries: Vec::new() }
    }

    /// Returns the position of the entry for `variable`, if any.
    fn position(&self, variable: &Variable) -> (r: Option<usize>)
        ensures
            r is Some <==> self@.contains_key(variable@),
            r is Some ==> r.unwrap() < self.entries@.len() && self.entries@[r.unwrap() as int].0@ == variable@
                && self@[variable@] == self.entries@[r.unwrap() as int].1,
    {
        proof {
            use_type_invariant(self);
            lemma_entries_map(self.entries@);
        }
        let mut i: usize = 0;
        while i < self.entries.len()
            invariant
                0 <= i <= self.entries@.len(),
                names_unique(self.entries@),
                forall|j: int| 0 <= j < i ==> self.entries@[j].0@ != variable@,
            decreases self.entries@.len() - i,
        {
            if self.entries[i].0 == *variable {
                proof {
                    lemma_entries_map(self.entries@);
                    assert(self.entries@[i as int].0@ == variable@);
                    assert(self@.contains_key(self.entries@[i as int].0@));
                }
                return Some(i);
            }
            i = i + 1;
        }
        None
    }

    /// Binds `variable` to `atom_id`. Succeeds, changing nothing, when the
    /// variable is already bound to that atom; fails, changing nothing, when
    /// it is bound to another atom; otherwise adds the pair and succeeds.
    pub fn bind(&mut self, variable: Variable, atom_id: AtomId) -> (r: bool)
        ensures
            r == (!old(self)@.contains_key(variable@) || old(self)@[variable@] == atom_id),
            old(self)@.contains_key(variable@) ==> final(self)@ == old(self)@,
            !old(self)@.contains_key(variable@) ==> final(self)@ == old(self)@.insert(variable@, atom_id),
    {
        proof {
            use_type_invariant(&*self);
        }
        match self.position(&variable) {
            Some(i) => self.entries[i].1 == atom_id,
            None => {
                let ghost s = self.entries@;
                let ghost k = variable@;
                proof {
                    lemma_entries_map(s);
                    assert forall|i: int, j: int|
                        0 <= i < s.push((variable, atom_id)).len() && 0 <= j < s.push((variable, atom_id)).len()
                            && i != j implies s.push((variable, atom_id))[i].0@ != s.push((variable, atom_id))[j].0@ by {
                        if i < s.len() && j == s.len() {
                            assert(entries_map(s).contains_key(s[i].0@));
                        }
                        if j < s.len() && i == s.len() {
                            assert(entries_map(s).contains_key(s[j].0@));
                        }
                    }
                    assert(s.push((variable, atom_id)).drop_last() == s);
                }
                let mut taken = Binding::new();
                core::mem::swap(self, &mut taken);
                let mut entries = taken.entries;
                entries.push((variable, atom_id));
                *self = Binding { entries };
                true
            },
        }
    }

    /// Returns the atom that `variable` is bound to, if any.
    pub fn get_binding(&self, variable: &Variable) -> (r: Option<AtomId>)
        ensures
            r is Some <==> self@.contains_key(variable@),
            r is Some ==> r.unwrap() == self@[variable@],
    {
        match self.position(variable) {
            Some(i) => Some(self.entries[i].1),
            None => None,
        }
    }

    /// Tells whether `variable` is bound.
    pub fn is_bound(&self, variable: &Variable) -> (r: bool)
        ensures
            r == self@.contains_key(variable@),
    {
        self.position(variable).is_some()
    }

    /// Removes every pair.
    pub fn clear(&mut self)
        ensures
            final(self)@ == Map::<Seq<char>, AtomId>::empty(),
    {
        self.entries = Vec::new();
    }

    /// Returns the number of bound variables.
    pub fn len(&self) -> (r: usize)
        ensures
            r == self@.len(),
    {
        proof {
            use_type_invariant(self);
            lemma_entries_map(self.entries@);
        }
        self.entries.len()
    }

    /// Tells whether no variable is bound.
    pub fn is_empty(&self) -> (r: bool)
        ensures
            r == (self@.len() == 0),
    {
        self.len() == 0
    }

    /// Returns the pairs of this binding, each variable once.
    pub fn iter(&self) -> (r: std::slice::Iter<'_, (Variable, AtomId)>)
        ensures
            r.remaining().len() == self@.len(),
            forall|i: int| 0 <= i < r.remaining().len() ==> self@.contains_key(#[trigger] r.remaining()[i].0@)
                && self@[r.remaining()[i].0@] == r.remaining()[i].1,
    {
        let ps = self.pairs();
        let r = ps.iter();
        assert(r.remaining().unref() =~= ps@);
        assert(forall|i: int| 0 <= i < r.remaining().len() ==> *r.remaining()[i] == ps@[i]);
        r
    }

    /// Returns the pairs of this binding, each variable once.
    pub fn pairs(&self) -> (r: &[(Variable, AtomId)])
        ensures
            r@.len() == self@.len(),
            forall|i: int| 0 <= i < r@.len() ==> self@.contains_key(#[trigger] r@[i].0@) && self@[r@[i].0@] == r@[i].1,
            forall|i: int, j: int| 0 <= i < r@.len() && 0 <= j < r@.len() && i != j ==> r@[i].0@ != r@[j].0@,
            forall|v: Seq<char>| #[trigger] self@.contains_key(v) ==> exists|i: int| 0 <= i < r@.len() && r@[i].0@ == v,
    {
        proof {
            use_type_invariant(self);
            lemma_entries_map(self.entries@);
        }
        self.entries.as_slice()
    }

    /// Combines two bindings. Fails, with no partial result, when some
    /// variable is bound to different atoms in the two.
    pub fn merge(&self, other: &Binding) -> (r: Option<Binding>)
        ensures
            r is Some <==> compatible(self@, other@),
            r is Some ==> r.unwrap()@ == self@.union_prefer_right(other@),
    {
        proof {
            use_type_invariant(other);
            lemma_entries_map(other.entries@);
        }
        let mut result = self.clone();
        let ps = other.pairs();
        let ghost om = other@;
        let mut i: usize = 0;
        while i < ps.len()
            invariant
                0 <= i <= ps@.len(),
                om == other@,
                ps@.len() == om.len(),
                forall|j: int| 0 <= j < ps@.len() ==> om.contains_key(#[trigger] ps@[j].0@) && om[ps@[j].0@] == ps@[j].1,
                forall|j: int, k: int| 0 <= j < ps@.len() && 0 <= k < ps@.len() && j != k ==> ps@[j].0@ != ps@[k].0@,
                compatible(self@, om.restrict(Set::new(|v: Seq<char>| exists|j: int| 0 <= j < i && ps@[j].0@ == v))),
                result@ == self@.union_prefer_right(om.restrict(Set::new(|v: Seq<char>| exists|j: int| 0 <= j < i && ps@[j].0@ == v))),
            decreases ps@.len() - i,
        {
            let ghost before = Set::new(|v: Seq<char>| exists|j: int| 0 <= j < i && ps@[j].0@ == v);
            let ghost after = Set::new(|v: Seq<char>| exists|j: int| 0 <= j < i + 1 && ps@[j].0@ == v);
            let ghost k = ps@[i as int].0@;
            let v = ps[i].0.clone();
            let a = ps[i].1;
            assert(om.contains_key(k));
            assert(!before.contains(k)) by {
                if before.contains(k) {
                    let j = choose|j: int| 0 <= j < i && ps@[j].0@ == k;
                    assert(ps@[j].0@ != ps@[i as int].0@);
                }
            }
            if !result.bind(v, a) {
                proof {
                    assert(result@.contains_key(k));
                    assert(result@[k] == self@[k]);
                    assert(!compatible(self@, om)) by {
                        assert(self@.contains_key(k) && om.contains_key(k) && self@[k] != om[k]);
                    }
                }
                return None;
            }
            proof {
                assert(after =~= before.insert(k));
                assert(om.restrict(after) =~= om.restrict(before).insert(k, om[k]));
                assert(result@ =~= self@.union_prefer_right(om.restrict(after)));
            }
            i = i + 1;
        }
        proof {
            let all = Set::new(|v: Seq<char>| exists|j: int| 0 <= j < ps@.len() && ps@[j].0@ == v);
            assert(om.dom().finite());
            assert forall|v: Seq<char>| om.contains_key(v) implies all.contains(v) by {
                assert(om.dom().len() == ps@.len());
                lemma_cover(om.dom(), ps@, v);
            }
            assert(om.restrict(all) =~= om);
        }
        Some(result)
    }
}

/// Two bindings agree on every variable that both bind.
pub open spec fn compatible(a: Map<Seq<char>, AtomId>, b: Map<Seq<char>, AtomId>) -> bool {
    forall|v: Seq<char>| #[trigger] a.contains_key(v) && b.contains_key(v) ==> a[v] == b[v]
}

proof fn lemma_cover(d: Set<Seq<char>>, ps: Seq<(Variable, AtomId)>, v: Seq<char>)
    requires
        d.finite(),
        d.len() == ps.len(),
        forall|j: int| 0 <= j < ps.len() ==> #[trigger] d.contains(ps[j].0@),
        forall|j: int, k: int| 0 <= j < ps.len() && 0 <= k < ps.len() && j != k ==> ps[j].0@ != ps[k].0@,
        d.contains(v),
    ensures
        exists|j: int| 0 <= j < ps.len() && ps[j].0@ == v,
{
    let names = ps.map_values(|p: (Variable, AtomId)| p.0@);
    assert forall|j: int, k: int| 0 <= j < names.len() && 0 <= k < names.len() && j != k implies names[j]
        != names[k] by {}
    names.unique_seq_to_set();
    assert(names.to_set().subset_of(d)) by {
        assert forall|x: Seq<char>| names.to_set().contains(x) implies d.contains(x) by {
            let j = choose|j: int| 0 <= j < names.len() && names[j] == x;
            assert(d.contains(ps[j].0@));
        }
    }
    if !names.to_set().contains(v) {
        vstd::set_lib::lemma_len_subset(names.to_set().insert(v), d);
    }
    let j = choose|j: int| 0 <= j < names.len() && names[j] == v;
    assert(ps[j].0@ == v);
}

/// What a pattern element stands for: a given atom, or a variable by name.
pub enum ElementView {
    Atom(AtomId),
    Var(Seq<char>),
}

/// One position of a pattern relation: a concrete atom or a variable.
#[derive(Debug, PartialEq, Eq)]
pub enum PatternElement {
    Atom(AtomId),
    Variable(Variable),
}

impl View for PatternElement {
    type V = ElementView;

    open spec fn view(&self) -> ElementView {
        match self {
            PatternElement::Atom(a) => ElementView::Atom(*a),
            PatternElement::Variable(v) => ElementView::Var(v@),
        }
    }
}

impl Clone for PatternElement {
    fn clone(&self) -> (r: Self)
        ensures
            r@ == self@,
    {
        match self {
            PatternElement::Atom(a) => PatternElement::Atom(*a),
            PatternElement::Variable(v) => PatternElement::Variable(v.clone()),
        }
    }
}

impl PatternElement {
    /// Creates an element that matches exactly the given atom.
    pub fn atom(atom_id: AtomId) -> (r: PatternElement)
        ensures
            r@ == ElementView::Atom(atom_id),
    {
        PatternElement::Atom(atom_id)
    }

    /// Creates an element for the variable with the given name.
    pub fn variable(name: &str) -> (r: PatternElement)
        ensures
            r@ == ElementView::Var(name@),
    {
        PatternElement::Variable(Variable::new(name))
    }

    /// Tells whether this element is a variable.
    pub fn is_variable(&self) -> (r: bool)
        ensures
            r == (self@ is Var),
    {
        match self {
            PatternElement::Variable(_) => true,
            PatternElement::Atom(_) => false,
        }
    }

    /// Tells whether this element is a concrete atom.
    pub fn is_atom(&self) -> (r: bool)
        ensures
            r == (self@ is Atom),
    {
        match self {
            PatternElement::Atom(_) => true,
            PatternElement::Variable(_) => false,
        }
    }

    /// Returns the variable of this element, if it is one.
    pub fn as_variable(&self) -> (r: Option<&Variable>)
        ensures
            r is Some <==> self@ is Var,
            r is Some ==> self@ == ElementView::Var(r.unwrap()@),
    {
        match self {
            PatternElement::Variable(v) => Some(v),
            PatternElement::Atom(_) => None,
        }
    }

    /// Returns the atom of this element, if it is one.
    pub fn as_atom(&self) -> (r: Option<AtomId>)
        ensures
            r is Some <==> self@ is Atom,
            r is Some ==> self@ == ElementView::Atom(r.unwrap()),
    {
        match self {
            PatternElement::Atom(a) => Some(*a),
            PatternElement::Variable(_) => None,
        }
    }
}

/// What a pattern relation stands for: its elements in order and the
/// characters of its metadata.
pub struct PatternRelationView {
    pub elements: Seq<ElementView>,
    pub metadata: Option<Seq<char>>,
}

/// A relation template: a sequence of pattern elements and optional
/// metadata.
#[derive(Debug, Clone, PartialEq, Eq)]
pub struct PatternRelation {
    elements: Vec<PatternElement>,
    metadata: Option<String>,
}

impl View for PatternRelation {
    type V = PatternRelationView;

    closed spec fn view(&self) -> PatternRelationView {
        PatternRelationView {
            elements: self.elements@.map_values(|e: PatternElement| e@),
            metadata: text_view(self.metadata),
        }
    }
}

impl PatternRelation {
    /// Creates a pattern relation over the given elements, without metadata.
    pub fn new(elements: Vec<PatternElement>) -> (r: PatternRelation)
        ensures
            r@.elements == elements@.map_values(|e: PatternElement| e@),
            r@.metadata is None,
    {
        PatternRelation { elements, metadata: None }
    }

    /// Creates a pattern relation over the given elements, carrying metadata.
    pub fn with_metadata(elements: Vec<PatternElement>, metadata: String) -> (r: PatternRelation)
        ensures
            r@.elements == elements@.map_values(|e: PatternElement| e@),
            r@.metadata == Some(metadata@),
    {
        PatternRelation { elements, metadata: Some(metadata) }
    }

    /// Returns the elements of this relation, in order.
    pub fn elements(&self) -> (r: &[PatternElement])
        ensures
            r@.map_values(|e: PatternElement| e@) == self@.elements,
    {
        self.elements.as_slice()
    }

    /// Returns the metadata of this relation, if any.
    pub fn metadata(&self) -> (r: Option<&str>)
        ensures
            r is Some <==> self@.metadata is Some,
            r is Some ==> r.unwrap()@ == self@.metadata.unwrap(),
    {
        text_as_str(&self.metadata)
    }

    /// Returns a copy of the metadata of this relation.
    pub fn metadata_copy(&self) -> (r: Option<String>)
        ensures
            text_view(r) == self@.metadata,
    {
        copy_text(&self.metadata)
    }

    /// Returns the number of elements of this relation.
    pub fn arity(&self) -> (r: usize)
        ensures
            r == self@.elements.len(),
    {
        self.elements.len()
    }
}

/// A left or right side of a rule: an ordered sequence of relation
/// templates.
#[derive(Debug, Clone, PartialEq, Eq)]
pub struct Pattern {
    relations: Vec<PatternRelation>,
}

impl View for Pattern {
    type V = Seq<PatternRelationView>;

    closed spec fn view(&self) -> Seq<PatternRelationView> {
        self.relations@.map_values(|r: PatternRelation| r@)
    }
}

impl Pattern {
    /// Creates a pattern over the given relation templates.
    pub fn new(relations: Vec<PatternRelation>) -> (r: Pattern)
        ensures
            r@ == relations@.map_values(|r: PatternRelation| r@),
    {
        Pattern { relations }
    }

    /// Returns the relation templates of this pattern, in order.
    pub fn relations(&self) -> (r: &[PatternRelation])
        ensures
            r@.map_values(|r: PatternRelation| r@) == self@,
    {
        self.relations.as_slice()
    }

    /// Appends a relation template.
    pub fn add_relation(&mut self, relation: PatternRelation)
        ensures
            final(self)@ == old(self)@.push(relation@),
    {
        self.relations.push(relation);
        assert(self@ =~= old(self)@.push(relation@));
    }

    /// Returns the number of relation templates.
    pub fn len(&self) -> (r: usize)
        ensures
            r == self@.len(),
    {
        self.relations.len()
    }

    /// Tells whether this pattern has no relation template.
    pub fn is_empty(&self) -> (r: bool)
        ensures
            r == (self@.len() == 0),
    {
        self.relations.len() == 0
    }

    /// Creates a pattern of one relation template over the given elements.
    pub fn from_elements(elements: Vec<PatternElement>) -> (r: Pattern)
        ensures
            r@.len() == 1,
            r@[0].elements == elements@.map_values(|e: PatternElement| e@),
            r@[0].metadata is None,
    {
        let relation = PatternRelation::new(elements);
        let mut relations: Vec<PatternRelation> = Vec::new();
        relations.push(relation);
        Pattern::new(relations)
    }
}

} // verus!
