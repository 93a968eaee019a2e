//! A rule that asks that a regular expression find a match in the
//! password. The searching is done by the crate `fancy_regex`.
use crate::rule::illegal_regex::regex_pattern;
use crate::rule::rule_result::{
    error_detail, parameter, parameter_texts, result_of, ResultView, RuleResult,
};
use crate::rule::{PasswordData, PasswordView, Rule};
use fancy_regex::Regex;
use vstd::prelude::*;

verus! {

/// The error code of the rule.
pub const ERROR_CODE: &'static str = "ALLOWED_MATCH";

/// Says with `Regex::is_match` whether the regular expression finds a
/// match in the text, or nothing where the search fails with an error.
/// Nothing is stated of the answer.
#[verifier::external_body]
pub(crate) fn regex_is_match(regex: &Regex, text: &str) -> (matched: Option<bool>) {
    regex.is_match(text).ok()
}

/// The result for what a search said: a password passes if there is a
/// match; a failed search is reported without the pattern.
pub open spec fn allowed_regex_outcome(pattern: Seq<char>, matched: Option<bool>) -> ResultView {
    match matched {
        None => result_of(seq![error_detail("ALLOWED_MATCH"@, Seq::empty())], Map::empty()),
        Some(found) => if found {
            result_of(Seq::empty(), Map::empty())
        } else {
            result_of(
                seq![error_detail("ALLOWED_MATCH"@, seq![("pattern"@, pattern)])],
                Map::empty(),
            )
        },
    }
}

/// Gives the result for what a search with the pattern said.
pub fn allowed_regex_result(pattern: &str, matched: Option<bool>) -> (result: RuleResult)
    ensures
        result@ == allowed_regex_outcome(pattern@, matched),
{
    let mut result = RuleResult::default();
    proof {
        reveal_strlit("ALLOWED_MATCH");
    }
    match matched {
        None => {
            result.add_error("ALLOWED_MATCH", None);
        },
        Some(found) => {
            if !found {
                let mut map: Vec<(String, String)> = Vec::new();
                map.push(parameter("pattern", String::from_str(pattern)));
                assert(parameter_texts(map@) =~= seq![("pattern"@, pattern@)]);
                result.add_error("ALLOWED_MATCH", Some(map));
            }
        },
    }
    assert(result@.details =~= allowed_regex_outcome(pattern@, matched).details);
    result
}

/// Asks that a regular expression find a match in the password.
pub struct AllowedRegex {
    regex: Regex,
    pattern: String,
}

impl AllowedRegex {
    /// The text of the regular expression, as it is reported.
    pub closed spec fn pattern(&self) -> Seq<char> {
        self.pattern@
    }

    /// Creates a rule from a regular expression.
    pub fn from_regex(regex: Regex) -> (rule: AllowedRegex)
        ensures
            rule.expression() == regex,
    {
        let pattern = regex_pattern(&regex);
        AllowedRegex { regex, pattern }
    }

    /// The regular expression that the rule searches with.
    pub closed spec fn expression(&self) -> Regex {
        self.regex
    }
}

impl Rule for AllowedRegex {
    /// The result is that for what the search says: whether it finds a
    /// match is the matter of the regular expression.
    open spec fn admits(&self, data: PasswordView, result: ResultView) -> bool {
        exists|matched: Option<bool>| result == #[trigger] allowed_regex_outcome(self.pattern(), matched)
    }

    fn validate(&self, password_data: &PasswordData) -> (result: RuleResult) {
        let matched = regex_is_match(&self.regex, password_data.password());
        let result = allowed_regex_result(self.pattern.as_str(), matched);
        proof {
            assert(result@ == allowed_regex_outcome(self.pattern(), matched));
        }
        result
    }

    fn as_has_characters(&self) -> (r: Option<&dyn crate::rule::HasCharacters>) {
        None
    }

    fn as_dictionary_rule(&self) -> (r: Option<&dyn crate::rule::DictionaryRuleTrait>) {
        None
    }
}

} // verus!
