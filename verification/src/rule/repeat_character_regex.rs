//! A rule that refuses runs of one repeated character, found by a regular
//! expression.
use crate::rule::illegal_regex::{compile_regex, IllegalRegexRule};
use crate::rule::rule_result::{ResultView, RuleResult};
use crate::rule::{PasswordData, PasswordView, Rule};
use crate::text::{decimal_digits, decimal_usize};
use vstd::prelude::*;

verus! {

/// The error code of the rule.
pub const ERROR_CODE: &'static str = "ILLEGAL_MATCH";

/// The pattern for a character that is not a control character and is
/// followed by itself `sequence_length - 1` times.
pub open spec fn repeat_pattern(sequence_length: usize) -> Seq<char> {
    "([^\\x00-\\x1F])\\1{"@ + decimal_digits((sequence_length - 1) as nat) + "}"@
}

/// Refuses passwords that hold a character several times in a row.
pub struct RepeatCharacterRegexRule {
    regex_rule: IllegalRegexRule,
}

impl RepeatCharacterRegexRule {
    /// The rule that the regular expression is handed to.
    pub closed spec fn inner(&self) -> IllegalRegexRule {
        self.regex_rule
    }

    /// Creates a rule that refuses runs of at least `sequence_length`
    /// characters, which must be at least three. The rule is not created
    /// either if the pattern is refused by the regular expressions.
    pub fn new(sequence_length: usize, report_all: bool) -> (r: Result<Self, String>)
        ensures
            sequence_length < 3 ==> r is Err,
            r matches Ok(rule) ==> rule.inner().reports_all() == report_all,
            r matches Err(message) ==> message@ == (if sequence_length < 3 {
                "sequence length must be >= 3"@
            } else {
                "sequence pattern was refused"@
            }),
    {
        if sequence_length < 3 {
            return Err(String::from_str("sequence length must be >= 3"));
        }
        let pattern = Self::create_pattern(sequence_length);
        match compile_regex(pattern.as_str()) {
            Some(regex) => Ok(Self { regex_rule: IllegalRegexRule::new(regex, report_all) }),
            None => Err(String::from_str("sequence pattern was refused")),
        }
    }

    /// Creates a rule that reports every run.
    pub fn with_sequence_len(sequence_len: usize) -> (r: Result<Self, String>)
        ensures
            sequence_len < 3 ==> r is Err,
            r matches Ok(rule) ==> rule.inner().reports_all(),
            r matches Err(message) ==> message@ == (if sequence_len < 3 {
                "sequence length must be >= 3"@
            } else {
                "sequence pattern was refused"@
            }),
    {
        Self::new(sequence_len, true)
    }

    /// Writes the pattern for runs of `sequence_len` characters.
    pub fn create_pattern(sequence_len: usize) -> (pattern: String)
        requires
            sequence_len >= 1,
        ensures
            pattern@ == repeat_pattern(sequence_len),
    {
        let sl: usize = sequence_len - 1;
        let mut pattern = String::from_str("([^\\x00-\\x1F])\\1{");
        pattern.append(decimal_usize(sl).as_str());
        pattern.append("}");
        assert(pattern@ =~= repeat_pattern(sequence_len));
        pattern
    }
}

impl Rule for RepeatCharacterRegexRule {
    open spec fn admits(&self, data: PasswordView, result: ResultView) -> bool {
        self.inner().admits(data, result)
    }

    fn validate(&self, password_data: &PasswordData) -> (result: RuleResult) {
        self.regex_rule.validate(password_data)
    }

    fn as_has_characters(&self) -> (r: Option<&dyn crate::rule::HasCharacters>) {
        None
    }

    fn as_dictionary_rule(&self) -> (r: Option<&dyn crate::rule::DictionaryRuleTrait>) {
        None
    }
}

} // verus!
