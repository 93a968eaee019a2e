//! A rule that refuses whitespace.
use crate::rule::allowed_character::MatchBehavior;
use crate::rule::password_utils::{count_matching_characters, matching_characters};
use crate::rule::rule_result::{
    error_detail, first_or_all, parameter, parameter_texts, result_of, CountCategory, DetailView,
    ResultView, RuleResult, RuleResultMetadata,
};
use crate::rule::{PasswordData, PasswordView, Rule};
use crate::text::{char_string, lemma_filter_push, string_of};
use vstd::prelude::*;

verus! {

/// The error code of the rule.
pub const ERROR_CODE: &'static str = "ILLEGAL_WHITESPACE";

/// Whether a character is whitespace in the sense of Unicode's property
/// `White_Space`.
pub open spec fn is_whitespace(c: char) -> bool {
    let n = c as int;
    (0x09 <= n <= 0x0d) || n == 0x20 || n == 0x85 || n == 0xa0 || n == 0x1680 || (0x2000 <= n
        <= 0x200a) || n == 0x2028 || n == 0x2029 || n == 0x202f || n == 0x205f || n == 0x3000
}

/// Says whether a character is whitespace.
pub fn is_whitespace_char(c: char) -> (r: bool)
    ensures
        r == is_whitespace(c),
{
    let n: u32 = c as u32;
    (0x09 <= n && n <= 0x0d) || n == 0x20 || n == 0x85 || n == 0xa0 || n == 0x1680 || (0x2000 <= n
        && n <= 0x200a) || n == 0x2028 || n == 0x2029 || n == 0x202f || n == 0x205f || n == 0x3000
}

/// Whether all characters of a list are whitespace.
pub open spec fn all_whitespace(chars: Seq<char>) -> bool {
    forall|i: int| 0 <= i < chars.len() ==> is_whitespace(#[trigger] chars[i])
}

/// Tab, line feed, vertical tab, form feed, carriage return and space.
pub open spec fn usual_whitespace() -> Seq<char> {
    seq!['\u{0009}', '\u{000a}', '\u{000b}', '\u{000c}', '\u{000d}', '\u{0020}']
}

/// The detail that reports a whitespace character.
pub open spec fn whitespace_detail(c: char, behavior: MatchBehavior) -> DetailView {
    error_detail(
        "ILLEGAL_WHITESPACE"@,
        seq![("whitespaceCharacter"@, seq![c]), ("matchBehavior"@, behavior.name_text())],
    )
}

/// Refuses passwords that hold whitespace.
pub struct WhitespaceRule {
    report_rule_failures: bool,
    whitespace_chars: Vec<char>,
    match_behavior: MatchBehavior,
}

impl WhitespaceRule {
    /// The whitespace characters that the rule looks for, in order.
    pub closed spec fn whitespace(&self) -> Seq<char> {
        self.whitespace_chars@
    }

    /// Where the rule looks for whitespace.
    pub closed spec fn behavior(&self) -> MatchBehavior {
        self.match_behavior
    }

    /// Whether every whitespace character found is reported, or the first
    /// alone.
    pub closed spec fn reports_all(&self) -> bool {
        self.report_rule_failures
    }

    /// Whether the password holds a character where the rule looks.
    pub open spec fn finds(&self, password: Seq<char>) -> spec_fn(char) -> bool {
        |c: char| self.behavior().char_matches(password, c)
    }

    /// The result of the rule for a password: the whitespace characters of
    /// the rule that the password holds are reported in the rule's order.
    pub open spec fn outcome(&self, password: Seq<char>) -> ResultView {
        let found = first_or_all(
            self.whitespace().filter(self.finds(password)),
            self.reports_all(),
        );
        result_of(
            Seq::new(found.len(), |i: int| whitespace_detail(found[i], self.behavior())),
            Map::<CountCategory, usize>::empty().insert(
                CountCategory::Whitespace,
                matching_characters(self.whitespace(), password).len() as usize,
            ),
        )
    }

    /// Creates a rule from whitespace characters and the two policies.
    pub fn new(chars: Vec<char>, match_behavior: MatchBehavior, report_rule_failures: bool) -> (rule:
        WhitespaceRule)
        requires
            all_whitespace(chars@),
        ensures
            rule.whitespace() == chars@,
            rule.behavior() == match_behavior,
            rule.reports_all() == report_rule_failures,
    {
        WhitespaceRule { whitespace_chars: chars, match_behavior, report_rule_failures }
    }

    /// Creates a rule for the usual whitespace characters.
    pub fn with_behavior(match_behavior: MatchBehavior, report_rule_failures: bool) -> (rule:
        WhitespaceRule)
        ensures
            rule.whitespace() == usual_whitespace(),
            rule.behavior() == match_behavior,
            rule.reports_all() == report_rule_failures,
    {
        let mut chars: Vec<char> = Vec::new();
        chars.push('\u{0009}');
        chars.push('\u{000a}');
        chars.push('\u{000b}');
        chars.push('\u{000c}');
        chars.push('\u{000d}');
        chars.push('\u{0020}');
        assert(chars@ =~= usual_whitespace());
        Self::new(chars, match_behavior, report_rule_failures)
    }

    /// Counts the whitespace characters of the password.
    pub fn create_rule_result_metadata(&self, password_data: &PasswordData) -> (metadata:
        RuleResultMetadata)
        ensures
            metadata@ == Map::<CountCategory, usize>::empty().insert(
                CountCategory::Whitespace,
                matching_characters(self.whitespace(), password_data@.password).len() as usize,
            ),
    {
        let characters = string_of(&self.whitespace_chars);
        RuleResultMetadata::new(
            CountCategory::Whitespace,
            count_matching_characters(characters.as_str(), password_data.password()),
        )
    }
}

impl Rule for WhitespaceRule {
    open spec fn admits(&self, data: PasswordView, result: ResultView) -> bool {
        result == self.outcome(data.password)
    }

    fn validate(&self, password_data: &PasswordData) -> (result: RuleResult) {
        let mut result = RuleResult::default();
        let text = password_data.password();
        let ghost keep = self.finds(text@);
        let ghost candidates = self.whitespace_chars@;
        let ghost mut found: Seq<char> = Seq::empty();
        let mut i: usize = 0;
        proof {
            reveal_strlit("ILLEGAL_WHITESPACE");
            assert(candidates.take(0) =~= Seq::<char>::empty());
            assert(Seq::<char>::empty().filter(keep) =~= Seq::<char>::empty());
            assert(result@.details =~= Seq::new(
                0,
                |i: int| whitespace_detail(found[i], self.match_behavior),
            ));
        }
        proof {
            if candidates.len() == 0 {
                assert(candidates.take(0) =~= candidates);
            }
        }
        while i < self.whitespace_chars.len()
            invariant_except_break
                found == candidates.take(i as int).filter(keep),
                i == candidates.len() ==> found == candidates.filter(keep),
                !self.report_rule_failures ==> found.len() == 0,
            invariant
                i <= self.whitespace_chars.len(),
                candidates == self.whitespace_chars@,
                text@ == password_data@.password,
                keep == self.finds(text@),
                "ILLEGAL_WHITESPACE"@.len() > 0,
                result@ == result_of(
                    Seq::new(
                        first_or_all(found, self.report_rule_failures).len(),
                        |i: int|
                            whitespace_detail(
                                first_or_all(found, self.report_rule_failures)[i],
                                self.match_behavior,
                            ),
                    ),
                    Map::empty(),
                ),
            ensures
                first_or_all(found, self.report_rule_failures) == first_or_all(
                    candidates.filter(keep),
                    self.report_rule_failures,
                ),
            decreases self.whitespace_chars.len() - i,
        {
            let c = self.whitespace_chars[i];
            proof {
                assert(candidates.take(i + 1) =~= candidates.take(i as int).push(c));
                lemma_filter_push(candidates.take(i as int), c, keep);
            }
            if self.match_behavior.match_char(text, c) {
                let mut map: Vec<(String, String)> = Vec::new();
                map.push(parameter("whitespaceCharacter", char_string(c)));
                map.push(parameter("matchBehavior", self.match_behavior.name()));
                assert(parameter_texts(map@) =~= seq![
                    ("whitespaceCharacter"@, seq![c]),
                    ("matchBehavior"@, self.match_behavior.name_text()),
                ]);
                result.add_error("ILLEGAL_WHITESPACE", Some(map));
                let ghost before = found;
                proof {
                    found = found.push(c);
                    assert(first_or_all(found, true) =~= first_or_all(before, true).push(c));
                    assert(result@.details =~= Seq::new(
                        first_or_all(found, self.report_rule_failures).len(),
                        |i: int|
                            whitespace_detail(
                                first_or_all(found, self.report_rule_failures)[i],
                                self.match_behavior,
                            ),
                    ));
                }
                if !self.report_rule_failures {
                    proof {
                        lemma_first_kept_stays(candidates, keep, i + 1);
                    }
                    break ;
                }
            }
            i += 1;
            proof {
                if i == candidates.len() {
                    assert(candidates.take(i as int) =~= candidates);
                }
            }
        }
        result.set_metadata(self.create_rule_result_metadata(password_data));
        result
    }

    fn as_has_characters(&self) -> (r: Option<&dyn crate::rule::HasCharacters>) {
        None
    }

    fn as_dictionary_rule(&self) -> (r: Option<&dyn crate::rule::DictionaryRuleTrait>) {
        None
    }
}

/// What a filter keeps of a list begins with what it keeps of the list's
/// beginning.
pub(crate) proof fn lemma_first_kept_stays<A>(s: Seq<A>, keep: spec_fn(A) -> bool, n: int)
    requires
        0 <= n <= s.len(),
        s.take(n).filter(keep).len() > 0,
    ensures
        s.filter(keep).len() > 0,
        s.filter(keep)[0] == s.take(n).filter(keep)[0],
    decreases s.len() - n,
{
    if n < s.len() {
        assert(s.take(n + 1) =~= s.take(n).push(s[n]));
        lemma_filter_push(s.take(n), s[n], keep);
        lemma_first_kept_stays(s, keep, n + 1);
    } else {
        assert(s.take(n) =~= s);
    }
}

impl Default for WhitespaceRule {
    fn default() -> (rule: WhitespaceRule)
        ensures
            rule.whitespace() == usual_whitespace(),
            rule.behavior() == MatchBehavior::Contains,
            rule.reports_all(),
    {
        WhitespaceRule::with_behavior(MatchBehavior::Contains, true)
    }
}

} // verus!
