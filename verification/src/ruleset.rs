//! Rule sets: validated, immutable collections of rules with unique identifiers.

use crate::catalog::catalog;
use crate::catalog::lemma_standard_consistent;
use crate::catalog::standard_rules;
use crate::detect::inspects;
use crate::rule::Rule;
use crate::rule::RuleModel;
use crate::text::text_eq;
use vstd::prelude::*;

verus! {

/// Why a collection of rules is no rule set. Each variant carries the index of
/// the offending rule in the collection.
#[derive(Clone, Copy, Debug, PartialEq, Eq, Structural)]
pub enum ConfigurationError {
    /// The rule has an empty identifier, names no node kind, or names a node
    /// kind that its detector does not read.
    InvalidRule(usize),
    /// The rule has the identifier of a rule in front of it.
    DuplicateId(usize),
}

/// The models of a sequence of rules.
pub open spec fn models(rules: Seq<Rule>) -> Seq<RuleModel> {
    Seq::new(rules.len(), |i: int| rules[i]@)
}

/// A rule is valid: it has an identifier, and it names at least one node
/// kind, and only kinds that its detector reads.
pub open spec fn rule_valid(rule: RuleModel) -> bool {
    &&& rule.id.len() > 0
    &&& rule.kinds.len() > 0
    &&& forall|k: int| 0 <= k < rule.kinds.len() ==> inspects(rule.detector, #[trigger] rule.kinds[k])
}

/// Rule `i` has the identifier of a rule in front of it.
pub open spec fn repeats(rules: Seq<RuleModel>, i: int) -> bool {
    exists|j: int| 0 <= j < i && (#[trigger] rules[j]).id == rules[i].id
}

/// What is wrong with rule `i`, if anything.
pub open spec fn problem_at(rules: Seq<RuleModel>, i: int) -> Option<ConfigurationError> {
    if !rule_valid(rules[i]) {
        Some(ConfigurationError::InvalidRule(i as usize))
    } else if repeats(rules, i) {
        Some(ConfigurationError::DuplicateId(i as usize))
    } else {
        None
    }
}

/// Every rule is valid and no two rules share an identifier.
pub open spec fn consistent(rules: Seq<RuleModel>) -> bool {
    &&& forall|i: int| 0 <= i < rules.len() ==> rule_valid(#[trigger] rules[i])
    &&& forall|i: int, j: int|
        0 <= i < j < rules.len() ==> (#[trigger] rules[i]).id != (#[trigger] rules[j]).id
}

/// A collection of rules is consistent exactly if none of its rules has a problem.
pub proof fn lemma_consistent_iff_no_problem(rules: Seq<RuleModel>)
    ensures
        consistent(rules) <==> (forall|i: int|
            0 <= i < rules.len() ==> #[trigger] problem_at(rules, i) is None),
{
    if consistent(rules) {
        assert forall|i: int| 0 <= i < rules.len() implies #[trigger] problem_at(
            rules,
            i,
        ) is None by {}
    }
    if forall|i: int| 0 <= i < rules.len() ==> #[trigger] problem_at(rules, i) is None {
        assert forall|i: int| 0 <= i < rules.len() implies rule_valid(#[trigger] rules[i]) by {
            assert(problem_at(rules, i) is None);
        }
        assert forall|i: int, j: int| 0 <= i < j < rules.len() implies (#[trigger] rules[i]).id
            != (#[trigger] rules[j]).id by {
            assert(problem_at(rules, j) is None);
        }
    }
}

/// Taking a rule out of a consistent collection leaves a consistent collection.
pub proof fn lemma_remove_consistent(rules: Seq<RuleModel>, k: int)
    requires
        consistent(rules),
        0 <= k < rules.len(),
    ensures
        consistent(rules.remove(k)),
{
    let rest = rules.remove(k);
    assert forall|i: int| 0 <= i < rest.len() implies rule_valid(#[trigger] rest[i]) by {}
    assert forall|i: int, j: int| 0 <= i < j < rest.len() implies (#[trigger] rest[i]).id != (
    #[trigger] rest[j]).id by {}
}

/// Whether a rule is valid.
fn is_valid(rule: &Rule) -> (b: bool)
    ensures
        b == rule_valid(rule@),
{
    if rule.id.as_str().is_empty() || rule.kinds.len() == 0 {
        return false;
    }
    let mut k: usize = 0;
    while k < rule.kinds.len()
        invariant
            k <= rule.kinds@.len(),
            forall|j: int| 0 <= j < k ==> inspects(rule.detector, #[trigger] rule.kinds@[j]),
        decreases rule.kinds@.len() - k,
    {
        if !rule.detector.inspects(rule.kinds[k]) {
            return false;
        }
        k += 1;
    }
    true
}

/// Whether rule `i` has the identifier of a rule in front of it.
fn is_repeat(rules: &Vec<Rule>, i: usize) -> (b: bool)
    requires
        i < rules@.len(),
    ensures
        b == repeats(models(rules@), i as int),
{
    let mut j: usize = 0;
    while j < i
        invariant
            j <= i < rules@.len(),
            forall|k: int| 0 <= k < j ==> (#[trigger] models(rules@)[k]).id != models(rules@)[i as int].id,
        decreases i - j,
    {
        if text_eq(rules[j].id.as_str(), rules[i].id.as_str()) {
            assert(models(rules@)[j as int].id == models(rules@)[i as int].id);
            return true;
        }
        j += 1;
    }
    false
}

/// An immutable collection of valid rules with unique identifiers.
pub struct RuleSet {
    rules: Vec<Rule>,
}

impl View for RuleSet {
    type V = Seq<RuleModel>;

    closed spec fn view(&self) -> Seq<RuleModel> {
        models(self.rules@)
    }
}

impl RuleSet {
    /// Every rule set is consistent.
    #[verifier::type_invariant]
    pub open spec fn inv(&self) -> bool {
        consistent(self@)
    }

    /// Builds a rule set from `rules`, in their order.
    ///
    /// The collection is refused as a whole where a rule is invalid or has
    /// the identifier of a rule in front of it; the error names the first
    /// such rule.
    pub fn new(rules: Vec<Rule>) -> (r: Result<RuleSet, ConfigurationError>)
        ensures
            match r {
                Ok(set) => set@ == models(rules@) && consistent(set@),
                Err(e) => exists|i: int|
                    {
                        &&& 0 <= i < rules@.len()
                        &&& #[trigger] problem_at(models(rules@), i) == Some(e)
                        &&& forall|j: int| 0 <= j < i ==> #[trigger] problem_at(models(rules@), j) is None
                    },
            },
            r is Ok <==> consistent(models(rules@)),
    {
        let mut i: usize = 0;
        while i < rules.len()
            invariant
                i <= rules@.len(),
                forall|j: int| 0 <= j < i ==> #[trigger] problem_at(models(rules@), j) is None,
            decreases rules@.len() - i,
        {
            if !is_valid(&rules[i]) {
                proof {
                    lemma_consistent_iff_no_problem(models(rules@));
                }
                return Err(ConfigurationError::InvalidRule(i));
            }
            if is_repeat(&rules, i) {
                proof {
                    assert(problem_at(models(rules@), i as int) == Some(
                        ConfigurationError::DuplicateId(i),
                    ));
                    lemma_consistent_iff_no_problem(models(rules@));
                }
                return Err(ConfigurationError::DuplicateId(i));
            }
            i += 1;
        }
        proof {
            lemma_consistent_iff_no_problem(models(rules@));
        }
        Ok(RuleSet { rules })
    }

    /// The rule set of the standard catalog.
    pub fn standard() -> (r: RuleSet)
        ensures
            r@ == standard_rules(),
    {
        let rules = catalog();
        proof {
            lemma_standard_consistent();
        }
        RuleSet { rules }
    }

    /// The number of rules.
    pub fn len(&self) -> (n: usize)
        ensures
            n == self@.len(),
    {
        self.rules.len()
    }

    /// Rule `i`.
    pub(crate) fn rule(&self, i: usize) -> (r: &Rule)
        requires
            i < self@.len(),
        ensures
            r@ == self@[i as int],
    {
        &self.rules[i]
    }

    /// Rule `i`, if the set has one.
    pub fn get(&self, i: usize) -> (r: Option<&Rule>)
        ensures
            match r {
                Some(rule) => i < self@.len() && rule@ == self@[i as int],
                None => i >= self@.len(),
            },
    {
        if i < self.rules.len() {
            Some(&self.rules[i])
        } else {
            None
        }
    }

    /// The index of the rule with identifier `id`, if the set has one.
    pub fn position(&self, id: &str) -> (r: Option<usize>)
        ensures
            match r {
                Some(i) => i < self@.len() && self@[i as int].id == id@,
                None => forall|i: int| 0 <= i < self@.len() ==> (#[trigger] self@[i]).id != id@,
            },
    {
        let mut i: usize = 0;
        while i < self.rules.len()
            invariant
                i <= self@.len(),
                self@ == models(self.rules@),
                forall|j: int| 0 <= j < i ==> (#[trigger] self@[j]).id != id@,
            decreases self@.len() - i,
        {
            if text_eq(self.rules[i].id.as_str(), id) {
                return Some(i);
            }
            i += 1;
        }
        None
    }

    /// The set of the one rule with identifier `id`; the empty set where no
    /// rule has that identifier.
    pub fn only(self, id: &str) -> (r: RuleSet)
        ensures
            r@.len() <= 1,
            forall|i: int| 0 <= i < self@.len() && self@[i].id == id@ ==> r@ == seq![self@[i]],
            (forall|i: int| 0 <= i < self@.len() ==> (#[trigger] self@[i]).id != id@) ==> r@
                == Seq::<RuleModel>::empty(),
    {
        proof {
            use_type_invariant(&self);
        }
        let found = self.position(id);
        let mut rules = self.rules;
        let ghost before = models(rules@);
        let mut kept: Vec<Rule> = Vec::new();
        match found {
            Some(i) => {
                let rule = rules.swap_remove(i);
                kept.push(rule);
                proof {
                    assert forall|j: int| 0 <= j < before.len() && before[j].id
                        == id@ implies models(kept@) == seq![before[j]] by {}
                }
            },
            None => {},
        }
        RuleSet { rules: kept }
    }

    /// The set without rule `i`; the set itself where it has no rule `i`.
    pub fn without(self, i: usize) -> (r: RuleSet)
        ensures
            r@ == (if i < self@.len() {
                self@.remove(i as int)
            } else {
                self@
            }),
    {
        proof {
            use_type_invariant(&self);
        }
        let mut rules = self.rules;
        if i < rules.len() {
            let ghost before = models(rules@);
            rules.remove(i);
            proof {
                assert(models(rules@) =~= before.remove(i as int));
                lemma_remove_consistent(before, i as int);
            }
        }
        RuleSet { rules }
    }
}

} // verus!
