//! A rule that refuses passwords that hold the user's name.
use crate::rule::allowed_character::MatchBehavior;
use crate::rule::rule_result::{
    error_detail, parameter, parameter_texts, result_of, DetailView, ParameterTexts, ResultView,
    RuleResult,
};
use crate::rule::{PasswordData, PasswordView, Rule};
use crate::text::{lowercase, reversed, to_lowercase};
use vstd::prelude::*;

verus! {

/// The error code of a name that was found.
pub const ERROR_CODE: &'static str = "ILLEGAL_USERNAME";

/// The error code of a name that was found backwards.
pub const ERROR_CODE_REVERSED: &'static str = "ILLEGAL_USERNAME_REVERSED";

/// Refuses passwords that hold the user's name, forwards or, if asked,
/// backwards.
pub struct UsernameRule {
    match_backwards: bool,
    ignore_case: bool,
    match_behavior: MatchBehavior,
}

/// The named values of a failure: the name looked for and the behavior.
pub open spec fn username_parameters(user: Seq<char>, behavior: MatchBehavior) -> ParameterTexts {
    seq![("username"@, user), ("matchBehavior"@, behavior.description_text())]
}

/// A text as it is compared: in lowercase where case is ignored.
pub open spec fn compared(text: Seq<char>, ignore_case: bool) -> Seq<char> {
    if ignore_case {
        lowercase(text)
    } else {
        text
    }
}

impl UsernameRule {
    /// Whether the name is also looked for backwards.
    pub closed spec fn backwards(&self) -> bool {
        self.match_backwards
    }

    /// Whether upper case and lower case count as the same.
    pub closed spec fn ignores_case(&self) -> bool {
        self.ignore_case
    }

    /// Where the rule looks for the name.
    pub closed spec fn behavior(&self) -> MatchBehavior {
        self.match_behavior
    }

    /// The failures of a password against a name that is not empty.
    pub open spec fn failures(&self, password: Seq<char>, username: Seq<char>) -> Seq<DetailView> {
        let text = compared(password, self.ignores_case());
        let user = compared(username, self.ignores_case());
        let forwards = if self.behavior().text_matches(text, user) {
            seq![error_detail("ILLEGAL_USERNAME"@, username_parameters(user, self.behavior()))]
        } else {
            Seq::<DetailView>::empty()
        };
        if self.backwards() && self.behavior().text_matches(text, user.reverse()) {
            forwards.push(
                error_detail(
                    "ILLEGAL_USERNAME_REVERSED"@,
                    username_parameters(user, self.behavior()),
                ),
            )
        } else {
            forwards
        }
    }

    /// The result of the rule: a password passes if no name is known or
    /// the name is empty.
    pub open spec fn outcome(&self, data: PasswordView) -> ResultView {
        match data.username {
            Some(username) => if username.len() == 0 {
                result_of(Seq::empty(), Map::empty())
            } else {
                result_of(self.failures(data.password, username), Map::empty())
            },
            None => result_of(Seq::empty(), Map::empty()),
        }
    }

    /// Creates a rule from its three policies.
    pub fn new(match_backwards: bool, ignore_case: bool, match_behavior: MatchBehavior) -> (rule:
        Self)
        ensures
            rule.backwards() == match_backwards,
            rule.ignores_case() == ignore_case,
            rule.behavior() == match_behavior,
    {
        Self { match_backwards, ignore_case, match_behavior }
    }

    /// Creates a rule that looks for the name everywhere.
    pub fn with_match_backwards_and_ignore_case(match_backwards: bool, ignore_case: bool) -> (rule:
        Self)
        ensures
            rule.backwards() == match_backwards,
            rule.ignores_case() == ignore_case,
            rule.behavior() == MatchBehavior::Contains,
    {
        Self { match_backwards, ignore_case, match_behavior: MatchBehavior::Contains }
    }

    /// Creates a rule that looks for the name as written, forwards.
    pub fn with_match_behavior(match_behavior: MatchBehavior) -> (rule: Self)
        ensures
            !rule.backwards(),
            !rule.ignores_case(),
            rule.behavior() == match_behavior,
    {
        Self { match_backwards: false, ignore_case: false, match_behavior }
    }

    fn create_rule_result_detail_parameters(&self, username: &str) -> (map: Vec<(String, String)>)
        ensures
            parameter_texts(map@) == username_parameters(username@, self.behavior()),
    {
        let mut map: Vec<(String, String)> = Vec::new();
        map.push(parameter("username", String::from_str(username)));
        map.push(parameter("matchBehavior", self.match_behavior.to_string()));
        assert(parameter_texts(map@) =~= username_parameters(username@, self.behavior()));
        map
    }
}

impl Rule for UsernameRule {
    open spec fn admits(&self, data: PasswordView, result: ResultView) -> bool {
        result == self.outcome(data)
    }

    fn validate(&self, password_data: &PasswordData) -> (result: RuleResult) {
        let mut result = RuleResult::default();
        proof {
            reveal_strlit("ILLEGAL_USERNAME");
            reveal_strlit("ILLEGAL_USERNAME_REVERSED");
            assert(result@.details =~= Seq::<DetailView>::empty());
        }
        if let Some(user) = password_data.username() {
            if user.is_empty() {
                return result;
            }
            let text = if self.ignore_case {
                to_lowercase(password_data.password())
            } else {
                String::from_str(password_data.password())
            };
            let user = if self.ignore_case {
                to_lowercase(user)
            } else {
                String::from_str(user)
            };
            if self.match_behavior.match_str(text.as_str(), user.as_str()) {
                result.add_error(
                    "ILLEGAL_USERNAME",
                    Some(self.create_rule_result_detail_parameters(user.as_str())),
                );
            }
            if self.match_backwards {
                let reverse_user = reversed(user.as_str());
                if self.match_behavior.match_str(text.as_str(), reverse_user.as_str()) {
                    result.add_error(
                        "ILLEGAL_USERNAME_REVERSED",
                        Some(self.create_rule_result_detail_parameters(user.as_str())),
                    );
                }
            }
            assert(result@.details =~= self.outcome(password_data@).details);
            result
        } else {
            result
        }
    }

    fn as_has_characters(&self) -> (r: Option<&dyn crate::rule::HasCharacters>) {
        None
    }

    fn as_dictionary_rule(&self) -> (r: Option<&dyn crate::rule::DictionaryRuleTrait>) {
        None
    }
}

impl Default for UsernameRule {
    fn default() -> (rule: Self)
        ensures
            !rule.backwards(),
            !rule.ignores_case(),
            rule.behavior() == MatchBehavior::Contains,
    {
        Self { match_backwards: false, ignore_case: false, match_behavior: MatchBehavior::Contains }
    }
}

} // verus!
