use vstd::prelude::*;
use vstd::std_specs::iter::IteratorSpec;
use crate::pattern::{ElementView, Pattern, PatternElement, PatternRelation, PatternRelationView};

verus! {

/// Handle of a rule.
#[derive(Debug, Clone, Copy, PartialEq, Eq, Hash, Structural)]
pub struct RuleId(pub u64);

impl RuleId {
    /// Creates a handle with the given raw value.
    pub fn new(id: u64) -> (r: RuleId)
        ensures
            r.0 == id,
    {
        RuleId(id)
    }

    /// Returns the raw value of the handle.
    pub fn value(&self) -> (r: u64)
        ensures
            r == self.0,
    {
        self.0
    }
}

/// A rewrite rule: a left side to find and a right side to put in its place.
#[derive(Debug, Clone, PartialEq, Eq)]
pub struct Rule {
    pub id: RuleId,
    pub pattern: Pattern,
    pub replacement: Pattern,
    pub name: Option<String>,
}

/// A binary pattern relation over two variables, without metadata.
pub open spec fn var_pair(a: Seq<char>, b: Seq<char>) -> PatternRelationView {
    PatternRelationView { elements: seq![ElementView::Var(a), ElementView::Var(b)], metadata: None }
}

/// The left side of edge splitting: `{{x,y}}`.
pub open spec fn split_left() -> Seq<PatternRelationView> {
    seq![var_pair(seq!['x'], seq!['y'])]
}

/// The right side of edge splitting: `{{x,z},{z,y}}`.
pub open spec fn split_right() -> Seq<PatternRelationView> {
    seq![var_pair(seq!['x'], seq!['z']), var_pair(seq!['z'], seq!['y'])]
}

/// Builds the pattern relation `{a,b}` over two variables.
fn pair_relation(a: &str, b: &str) -> (r: PatternRelation)
    ensures
        r@ == var_pair(a@, b@),
{
    let mut elements: Vec<PatternElement> = Vec::new();
    elements.push(PatternElement::variable(a));
    elements.push(PatternElement::variable(b));
    let r = PatternRelation::new(elements);
    assert(r@.elements =~= seq![ElementView::Var(a@), ElementView::Var(b@)]);
    r
}

impl Rule {
    /// Creates an unnamed rule.
    pub fn new(id: RuleId, pattern: Pattern, replacement: Pattern) -> (r: Rule)
        ensures
            r.id == id,
            r.pattern == pattern,
            r.replacement == replacement,
            r.name is None,
    {
        Rule { id, pattern, replacement, name: None }
    }

    /// Creates a named rule.
    pub fn with_name(id: RuleId, pattern: Pattern, replacement: Pattern, name: String) -> (r: Rule)
        ensures
            r.id == id,
            r.pattern == pattern,
            r.replacement == replacement,
            r.name == Some(name),
    {
        Rule { id, pattern, replacement, name: Some(name) }
    }

    /// Returns the id of this rule.
    pub fn id(&self) -> (r: RuleId)
        ensures
            r == self.id,
    {
        self.id
    }

    /// Returns the left side of this rule.
    pub fn pattern(&self) -> (r: &Pattern)
        ensures
            *r == self.pattern,
    {
        &self.pattern
    }

    /// Returns the right side of this rule.
    pub fn replacement(&self) -> (r: &Pattern)
        ensures
            *r == self.replacement,
    {
        &self.replacement
    }

    /// Returns the name of this rule, if any.
    pub fn name(&self) -> (r: Option<&str>)
        ensures
            r is Some <==> self.name is Some,
            r is Some ==> r.unwrap()@ == self.name.unwrap()@,
    {
        crate::atom::text_as_str(&self.name)
    }

    /// Replaces the name of this rule.
    pub fn set_name(&mut self, name: Option<String>)
        ensures
            final(self).id == old(self).id,
            final(self).pattern == old(self).pattern,
            final(self).replacement == old(self).replacement,
            final(self).name == name,
    {
        self.name = name;
    }

    /// Creates the edge-splitting rule `{{x,y}} -> {{x,z},{z,y}}`, with id 0.
    pub fn create_basic_edge_splitting_rule() -> (r: Rule)
        ensures
            r.id == RuleId(0),
            r.pattern@ == split_left(),
            r.replacement@ == split_right(),
            r.name is Some,
            r.name.unwrap()@ == "Edge Splitting Rule {{x,y}} -> {{x,z},{z,y}}"@,
    {
        proof {
            reveal_strlit("x");
            reveal_strlit("y");
            reveal_strlit("z");
        }
        let mut left: Vec<PatternRelation> = Vec::new();
        left.push(pair_relation("x", "y"));
        let pattern = Pattern::new(left);
        let mut right: Vec<PatternRelation> = Vec::new();
        right.push(pair_relation("x", "z"));
        right.push(pair_relation("z", "y"));
        let replacement = Pattern::new(right);
        proof {
            assert("x"@ =~= seq!['x']);
            assert("y"@ =~= seq!['y']);
            assert("z"@ =~= seq!['z']);
            assert(pattern@ =~= split_left());
            assert(replacement@ =~= split_right());
        }
        Rule::with_name(
            RuleId(0),
            pattern,
            replacement,
            "Edge Splitting Rule {{x,y}} -> {{x,z},{z,y}}".to_owned(),
        )
    }
}

/// An ordered collection of rules; the order is the order in which rules
/// are tried.
#[derive(Debug, Clone)]
pub struct RuleSet {
    rules: Vec<Rule>,
}

impl View for RuleSet {
    type V = Seq<Rule>;

    closed spec fn view(&self) -> Seq<Rule> {
        self.rules@
    }
}

impl RuleSet {
    /// Creates an empty rule set.
    pub fn new() -> (r: RuleSet)
        ensures
            r@ == Seq::<Rule>::empty(),
    {
        RuleSet { rules: Vec::new() }
    }

    /// Creates an empty rule set; the capacity is a hint only.
    pub fn with_capacity(capacity: usize) -> (r: RuleSet)
        ensures
            r@ == Seq::<Rule>::empty(),
    {
        RuleSet { rules: Vec::with_capacity(capacity) }
    }

    /// Appends a rule; it is tried after every rule already present.
    pub fn add_rule(&mut self, rule: Rule)
        ensures
            final(self)@ == old(self)@.push(rule),
    {
        self.rules.push(rule);
    }

    /// Returns the first rule with the given id, if any.
    pub fn get_rule(&self, rule_id: RuleId) -> (r: Option<&Rule>)
        ensures
            r is None <==> forall|i: int| 0 <= i < self@.len() ==> self@[i].id != rule_id,
            r is Some ==> exists|i: int|
                0 <= i < self@.len() && self@[i] == *r.unwrap() && (forall|j: int| 0 <= j < i ==> self@[j].id != rule_id),
            r is Some ==> r.unwrap().id == rule_id,
    {
        let mut i: usize = 0;
        while i < self.rules.len()
            invariant
                0 <= i <= self@.len(),
                forall|j: int| 0 <= j < i ==> self@[j].id != rule_id,
            decreases self@.len() - i,
        {
            if self.rules[i].id == rule_id {
                return Some(&self.rules[i]);
            }
            i = i + 1;
        }
        None
    }

    /// Returns the number of rules.
    pub fn len(&self) -> (r: usize)
        ensures
            r == self@.len(),
    {
        self.rules.len()
    }

    /// Tells whether the rule set is empty.
    pub fn is_empty(&self) -> (r: bool)
        ensures
            r == (self@.len() == 0),
    {
        self.rules.len() == 0
    }

    /// Returns the rules, in the order in which they are tried.
    pub fn rules(&self) -> (r: &[Rule])
        ensures
            r@ == self@,
    {
        self.rules.as_slice()
    }

    /// Iterates over the rules, in the order in which they are tried.
    pub fn iter(&self) -> (r: std::slice::Iter<'_, Rule>)
        ensures
            r.remaining().unref() == self@,
    {
        let r = self.rules.as_slice().iter();
        assert(r.remaining().unref() =~= self@);
        r
    }

    /// Creates a rule set holding the edge-splitting rule alone.
    pub fn create_basic_ruleset() -> (r: RuleSet)
        ensures
            r@.len() == 1,
            r@[0].id == RuleId(0),
            r@[0].pattern@ == split_left(),
            r@[0].replacement@ == split_right(),
            r@[0].name is Some && r@[0].name.unwrap()@ == "Edge Splitting Rule {{x,y}} -> {{x,z},{z,y}}"@,
    {
        let mut ruleset = RuleSet::new();
        ruleset.add_rule(Rule::create_basic_edge_splitting_rule());
        ruleset
    }
}

impl Default for RuleSet {
    fn default() -> (r: RuleSet)
        ensures
            r@ == Seq::<Rule>::empty(),
    {
        RuleSet::new()
    }
}

} // verus!
