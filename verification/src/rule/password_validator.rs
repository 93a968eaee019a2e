//! The rule that is made of other rules.
use crate::rule::rule_result::{bare_result, ResultView, RuleResult};
use crate::rule::{PasswordData, PasswordView, Rule};
use std::rc::Rc;
use vstd::prelude::*;

verus! {

/// The results of several rules taken together, one after the other: the
/// whole is valid if each is, the failures of those that are not follow
/// each other, and the counts of a later result go before those of an
/// earlier one.
pub open spec fn combined(results: Seq<ResultView>) -> ResultView
    decreases results.len(),
{
    if results.len() == 0 {
        bare_result(true)
    } else {
        let before = combined(results.drop_last());
        let rr = results.last();
        ResultView {
            valid: before.valid && rr.valid,
            details: if rr.valid {
                before.details
            } else {
                before.details + rr.details
            },
            counts: before.counts.union_prefer_right(rr.counts),
        }
    }
}

/// Whether each result is one that the rule at its position may give.
pub open spec fn are_results_of(
    rules: Seq<Box<dyn Rule>>,
    data: PasswordView,
    results: Seq<ResultView>,
) -> bool {
    &&& results.len() == rules.len()
    &&& forall|i: int| 0 <= i < rules.len() ==> (#[trigger] rules[i]).admits(data, results[i])
}

/// Validates a password against a list of rules.
#[derive(Clone)]
pub struct PasswordValidator {
    password_rules: Rc<Vec<Box<dyn Rule>>>,
}

impl PasswordValidator {
    /// The rules, in the order in which they are asked.
    pub closed spec fn rule_list(&self) -> Seq<Box<dyn Rule>> {
        self.password_rules@
    }

    /// Creates a validator from rules.
    pub fn new(password_rules: Vec<Box<dyn Rule>>) -> (validator: Self)
        ensures
            validator.rule_list() == password_rules@,
    {
        let password_rules = Rc::new(password_rules);
        Self { password_rules }
    }

    /// Returns the rules.
    pub fn rules(&self) -> (rules: &Vec<Box<dyn Rule>>)
        ensures
            rules@ == self.rule_list(),
    {
        &self.password_rules
    }
}

impl Rule for PasswordValidator {
    /// The result is the results of the rules taken together.
    open spec fn admits(&self, data: PasswordView, result: ResultView) -> bool {
        exists|results: Seq<ResultView>|
            are_results_of(self.rule_list(), data, results) && result == #[trigger] combined(
                results,
            )
    }

    fn validate(&self, password_data: &PasswordData) -> (result: RuleResult) {
        let rules = self.rules();
        let mut result = RuleResult::new(true);
        let ghost mut results: Seq<ResultView> = Seq::empty();
        let mut i: usize = 0;
        while i < rules.len()
            invariant
                i <= rules.len(),
                rules@ == self.rule_list(),
                results.len() == i,
                forall|k: int| 0 <= k < i ==> (#[trigger] rules@[k]).admits(password_data@, results[k]),
                result@ == combined(results),
            decreases rules.len() - i,
        {
            let rr = rules[i].validate(password_data);
            proof {
                assert(results.push(rr@).drop_last() =~= results);
                results = results.push(rr@);
            }
            let (valid, details, metadata) = rr.into_parts();
            result.merge_metadata(&metadata);
            if !valid {
                result.set_valid(false);
                result.add_details(details);
            }
            i += 1;
        }
        proof {
            assert(are_results_of(self.rule_list(), password_data@, results));
        }
        result
    }

    fn as_has_characters(&self) -> (r: Option<&dyn crate::rule::HasCharacters>) {
        None
    }

    fn as_dictionary_rule(&self) -> (r: Option<&dyn crate::rule::DictionaryRuleTrait>) {
        None
    }
}

} // verus!
