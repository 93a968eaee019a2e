//! A rule on the length of a password.
use crate::rule::rule_result::{
    error_detail, parameter, parameter_texts, CountCategory, ParameterTexts,
    ResultView, RuleResult, RuleResultMetadata,
};
use crate::rule::{PasswordData, PasswordView, Rule};
use crate::text::{decimal_digits, decimal_usize, utf8_len};
use vstd::prelude::*;

verus! {

/// The error code of a password that is too short.
pub const ERROR_CODE_MIN: &'static str = "TOO_SHORT";

/// The error code of a password that is too long.
pub const ERROR_CODE_MAX: &'static str = "TOO_LONG";

/// Asks that the length of a password, in bytes of UTF-8, lie between two
/// bounds.
pub struct LengthRule {
    min_length: usize,
    max_length: usize,
}

/// The named values of a failure: the two bounds.
pub open spec fn length_parameters(min_length: usize, max_length: usize) -> ParameterTexts {
    seq![
        ("min_length"@, decimal_digits(min_length as nat)),
        ("max_length"@, decimal_digits(max_length as nat)),
    ]
}

impl LengthRule {
    /// The least length that passes.
    pub closed spec fn least(&self) -> usize {
        self.min_length
    }

    /// The greatest length that passes.
    pub closed spec fn greatest(&self) -> usize {
        self.max_length
    }

    /// The result of the rule for a password.
    pub open spec fn outcome(&self, password: Seq<char>) -> ResultView {
        let length = utf8_len(password);
        let counts = Map::<CountCategory, usize>::empty().insert(
            CountCategory::Length,
            length as usize,
        );
        if length < self.least() {
            ResultView {
                valid: false,
                details: seq![
                    error_detail("TOO_SHORT"@, length_parameters(self.least(), self.greatest())),
                ],
                counts,
            }
        } else if length > self.greatest() {
            ResultView {
                valid: false,
                details: seq![
                    error_detail("TOO_LONG"@, length_parameters(self.least(), self.greatest())),
                ],
                counts,
            }
        } else {
            ResultView { valid: true, details: Seq::empty(), counts }
        }
    }

    /// Creates a rule with the two bounds.
    pub fn new(min_length: usize, max_length: usize) -> (rule: Self)
        ensures
            rule.least() == min_length,
            rule.greatest() == max_length,
    {
        Self { min_length, max_length }
    }

    /// Creates a rule that asks for one length exactly.
    pub fn with_exact_length(length: usize) -> (rule: Self)
        ensures
            rule.least() == length,
            rule.greatest() == length,
    {
        Self { min_length: length, max_length: length }
    }

    fn create_rule_result_detail_parameters(&self) -> (map: Vec<(String, String)>)
        ensures
            parameter_texts(map@) == length_parameters(self.least(), self.greatest()),
    {
        let mut map: Vec<(String, String)> = Vec::new();
        map.push(parameter("min_length", decimal_usize(self.min_length)));
        map.push(parameter("max_length", decimal_usize(self.max_length)));
        assert(parameter_texts(map@) =~= length_parameters(self.least(), self.greatest()));
        map
    }

    fn create_rule_result_metadata(password_data: &PasswordData) -> (metadata: RuleResultMetadata)
        ensures
            metadata@ == Map::<CountCategory, usize>::empty().insert(
                CountCategory::Length,
                utf8_len(password_data@.password) as usize,
            ),
    {
        RuleResultMetadata::new(CountCategory::Length, password_data.password().len())
    }
}

impl Default for LengthRule {
    fn default() -> (rule: Self)
        ensures
            rule.least() == 0,
            rule.greatest() == usize::MAX,
    {
        LengthRule { min_length: 0, max_length: usize::MAX }
    }
}

impl Rule for LengthRule {
    open spec fn admits(&self, data: PasswordView, result: ResultView) -> bool {
        result == self.outcome(data.password)
    }

    fn validate(&self, password_data: &PasswordData) -> (result: RuleResult) {
        let mut result = RuleResult::new(true);
        let length = password_data.password().len();
        proof {
            reveal_strlit("TOO_SHORT");
            reveal_strlit("TOO_LONG");
        }
        if length < self.min_length {
            result.add_error("TOO_SHORT", Some(self.create_rule_result_detail_parameters()));
        } else if length > self.max_length {
            result.add_error("TOO_LONG", Some(self.create_rule_result_detail_parameters()));
        }
        result.set_metadata(Self::create_rule_result_metadata(password_data));
        assert(result@.details =~= self.outcome(password_data@.password).details);
        result
    }

    fn as_has_characters(&self) -> (r: Option<&dyn crate::rule::HasCharacters>) {
        None
    }

    fn as_dictionary_rule(&self) -> (r: Option<&dyn crate::rule::DictionaryRuleTrait>) {
        None
    }
}

} // verus!
