//! A rule that refuses the characters of a set.
use crate::rule::allowed_character::{
    add_character_error, character_details, lemma_first_offender_stays, MatchBehavior,
};
use crate::rule::password_utils::{count_matching_characters, matching_characters};
use crate::rule::rule_result::{
    distinct_offenders, first_or_all, result_of, CountCategory, ResultView, RuleResult,
    RuleResultMetadata,
};
use crate::rule::{PasswordData, PasswordView, Rule};
use crate::text::{contains_char, string_of};
use vstd::prelude::*;

verus! {

/// The error code of the rule.
pub const ERROR_CODE: &'static str = "ILLEGAL_CHAR";

/// Refuses passwords that hold one of a set of illegal characters.
pub struct IllegalCharacterRule {
    illegal_characters: Vec<char>,
    match_behavior: MatchBehavior,
    report_all: bool,
}

impl IllegalCharacterRule {
    /// The illegal characters, in the order in which they are looked for.
    pub closed spec fn illegal(&self) -> Seq<char> {
        self.illegal_characters@
    }

    /// Where the rule looks for an illegal character.
    pub closed spec fn behavior(&self) -> MatchBehavior {
        self.match_behavior
    }

    /// Whether every illegal character is reported, or the first alone.
    pub closed spec fn reports_all(&self) -> bool {
        self.report_all
    }

    /// Whether the password holds a character where the rule looks.
    pub open spec fn finds(&self, password: Seq<char>) -> spec_fn(char) -> bool {
        |c: char| self.behavior().char_matches(password, c)
    }

    /// The result of the rule for a password: the illegal characters that
    /// the password holds are reported once each, in the order of the set.
    pub open spec fn outcome(&self, password: Seq<char>) -> ResultView {
        let found = distinct_offenders(
            self.illegal(),
            self.finds(password),
            self.illegal().len() as int,
        );
        result_of(
            character_details(
                "ILLEGAL_CHAR"@,
                "illegalCharacter"@,
                first_or_all(found, self.reports_all()),
                self.behavior(),
            ),
            Map::<CountCategory, usize>::empty().insert(
                CountCategory::Illegal,
                matching_characters(self.illegal(), password).len() as usize,
            ),
        )
    }

    /// Creates a rule from the illegal characters and the two policies.
    pub fn new(illegal_characters: Vec<char>, match_behavior: MatchBehavior, report_all: bool) -> (rule:
        Self)
        ensures
            rule.illegal() == illegal_characters@,
            rule.behavior() == match_behavior,
            rule.reports_all() == report_all,
    {
        Self { report_all, illegal_characters, match_behavior }
    }

    /// Creates a rule that looks everywhere and reports every character.
    pub fn from_chars(illegal_characters: Vec<char>) -> (rule: Self)
        ensures
            rule.illegal() == illegal_characters@,
            rule.behavior() == MatchBehavior::Contains,
            rule.reports_all(),
    {
        Self { illegal_characters, match_behavior: MatchBehavior::Contains, report_all: true }
    }

    /// Creates a rule that looks everywhere.
    pub fn with_report_all(illegal_characters: Vec<char>, report_all: bool) -> (rule: Self)
        ensures
            rule.illegal() == illegal_characters@,
            rule.behavior() == MatchBehavior::Contains,
            rule.reports_all() == report_all,
    {
        Self { illegal_characters, match_behavior: MatchBehavior::Contains, report_all }
    }

    fn create_rule_result_metadata(&self, password_data: &PasswordData) -> (metadata:
        RuleResultMetadata)
        ensures
            metadata@ == Map::<CountCategory, usize>::empty().insert(
                CountCategory::Illegal,
                matching_characters(self.illegal(), password_data@.password).len() as usize,
            ),
    {
        let characters = string_of(&self.illegal_characters);
        let count = count_matching_characters(characters.as_str(), password_data.password());
        RuleResultMetadata::new(CountCategory::Illegal, count)
    }
}

impl Rule for IllegalCharacterRule {
    open spec fn admits(&self, data: PasswordView, result: ResultView) -> bool {
        result == self.outcome(data.password)
    }

    fn validate(&self, password_data: &PasswordData) -> (result: RuleResult) {
        let mut result = RuleResult::default();
        let text = password_data.password();
        let mut matches: Vec<char> = Vec::new();
        let ghost bad = self.finds(text@);
        let ghost candidates = self.illegal_characters@;
        let mut i: usize = 0;
        proof {
            reveal_strlit("ILLEGAL_CHAR");
            assert(result@.details =~= character_details(
                "ILLEGAL_CHAR"@,
                "illegalCharacter"@,
                first_or_all(matches@, self.report_all),
                self.match_behavior,
            ));
        }
        while i < self.illegal_characters.len()
            invariant_except_break
                matches@ == distinct_offenders(candidates, bad, i as int),
                !self.report_all ==> matches@.len() == 0,
            invariant
                i <= self.illegal_characters.len(),
                candidates == self.illegal_characters@,
                text@ == password_data@.password,
                bad == self.finds(text@),
                "ILLEGAL_CHAR"@.len() > 0,
                result@ == result_of(
                    character_details(
                        "ILLEGAL_CHAR"@,
                        "illegalCharacter"@,
                        first_or_all(matches@, self.report_all),
                        self.match_behavior,
                    ),
                    Map::empty(),
                ),
            ensures
                first_or_all(matches@, self.report_all) == first_or_all(
                    distinct_offenders(candidates, bad, candidates.len() as int),
                    self.report_all,
                ),
            decreases self.illegal_characters.len() - i,
        {
            let c = self.illegal_characters[i];
            if self.match_behavior.match_char(text, c) && !contains_char(&matches, c) {
                add_character_error(
                    &mut result,
                    "ILLEGAL_CHAR",
                    "illegalCharacter",
                    c,
                    self.match_behavior,
                );
                let ghost before = matches@;
                matches.push(c);
                proof {
                    assert(first_or_all(matches@, true) =~= first_or_all(before, true).push(c));
                    assert(result@.details =~= character_details(
                        "ILLEGAL_CHAR"@,
                        "illegalCharacter"@,
                        first_or_all(matches@, self.report_all),
                        self.match_behavior,
                    ));
                }
                if !self.report_all {
                    proof {
                        lemma_first_offender_stays(
                            candidates,
                            bad,
                            i + 1,
                            candidates.len() as int,
                        );
                    }
                    break ;
                }
            }
            i += 1;
        }
        result.set_metadata(self.create_rule_result_metadata(password_data));
        result
    }

    fn as_has_characters(&self) -> (r: Option<&dyn crate::rule::HasCharacters>) {
        None
    }

    fn as_dictionary_rule(&self) -> (r: Option<&dyn crate::rule::DictionaryRuleTrait>) {
        None
    }
}

} // verus!
