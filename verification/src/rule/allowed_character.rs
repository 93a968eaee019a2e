//! A rule that refuses characters outside a set, and the ways in which a
//! text may hold what a rule looks for.
use crate::rule::password_utils::{count_matching_characters, matching_characters};
use crate::rule::rule_result::{
    distinct_offenders, first_or_all, parameter, parameter_texts, result_of, CountCategory,
    DetailView, ResultView, RuleResult, RuleResultMetadata,
};
use crate::rule::{HasCharacters, PasswordData, PasswordView, Rule};
use crate::text::{
    begins_with, char_string, chars_of, contains_char, contains_text, ends_with_text,
    finishes_with, numbered, numbered_code, occurs_in, starts_with_text, texts,
};
use vstd::prelude::*;

verus! {

/// The error code of the rule.
pub const ERROR_CODE: &'static str = "ALLOWED_CHAR";

/// Where in a text a rule looks for a character or a word.
#[derive(Eq, PartialEq, Debug, Clone, Copy, Structural)]
pub enum MatchBehavior {
    StartsWith,
    EndsWith,
    Contains,
}

impl MatchBehavior {
    /// Whether the text holds the character at the place that the
    /// behavior names.
    pub open spec fn char_matches(&self, text: Seq<char>, c: char) -> bool {
        match self {
            MatchBehavior::StartsWith => text.len() > 0 && text[0] == c,
            MatchBehavior::EndsWith => text.len() > 0 && text.last() == c,
            MatchBehavior::Contains => text.contains(c),
        }
    }

    /// Whether the text holds the word at the place that the behavior
    /// names.
    pub open spec fn text_matches(&self, text: Seq<char>, s: Seq<char>) -> bool {
        match self {
            MatchBehavior::StartsWith => begins_with(text, s),
            MatchBehavior::EndsWith => finishes_with(text, s),
            MatchBehavior::Contains => occurs_in(text, s),
        }
    }

    /// The behavior in words.
    pub open spec fn description_text(&self) -> Seq<char> {
        match self {
            MatchBehavior::StartsWith => "starts with"@,
            MatchBehavior::EndsWith => "ends with"@,
            MatchBehavior::Contains => "contains"@,
        }
    }

    /// The name of the behavior.
    pub open spec fn name_text(&self) -> Seq<char> {
        match self {
            MatchBehavior::StartsWith => "StartsWith"@,
            MatchBehavior::EndsWith => "EndsWith"@,
            MatchBehavior::Contains => "Contains"@,
        }
    }

    /// Says whether the text holds the character at the place that the
    /// behavior names.
    pub fn match_char(&self, text: &str, c: char) -> (r: bool)
        ensures
            r == self.char_matches(text@, c),
    {
        let chars = chars_of(text);
        match self {
            MatchBehavior::StartsWith => chars.len() > 0 && chars[0] == c,
            MatchBehavior::EndsWith => chars.len() > 0 && chars[chars.len() - 1] == c,
            MatchBehavior::Contains => contains_char(&chars, c),
        }
    }

    /// Says whether the text holds the word at the place that the behavior
    /// names.
    pub fn match_str(&self, text: &str, s: &str) -> (r: bool)
        ensures
            r == self.text_matches(text@, s@),
    {
        let chars = chars_of(text);
        let pattern = chars_of(s);
        match self {
            MatchBehavior::StartsWith => starts_with_text(&chars, &pattern),
            MatchBehavior::EndsWith => ends_with_text(&chars, &pattern),
            MatchBehavior::Contains => contains_text(&chars, &pattern),
        }
    }

    /// Returns the behavior in words.
    pub fn description(&self) -> (r: &'static str)
        ensures
            r@ == self.description_text(),
    {
        match self {
            MatchBehavior::StartsWith => "starts with",
            MatchBehavior::EndsWith => "ends with",
            MatchBehavior::Contains => "contains",
        }
    }

    /// Returns the behavior in words, as a string.
    pub fn to_string(&self) -> (r: String)
        ensures
            r@ == self.description_text(),
    {
        String::from_str(self.description())
    }

    /// Returns the name of the behavior.
    pub fn name(&self) -> (r: String)
        ensures
            r@ == self.name_text(),
    {
        match self {
            MatchBehavior::StartsWith => String::from_str("StartsWith"),
            MatchBehavior::EndsWith => String::from_str("EndsWith"),
            MatchBehavior::Contains => String::from_str("Contains"),
        }
    }
}

/// The detail that reports a character: the code with the character's
/// number, the code alone, the character and the name of the behavior. The
/// character's value goes under `name`.
pub open spec fn character_detail(
    code: Seq<char>,
    name: Seq<char>,
    c: char,
    behavior: MatchBehavior,
) -> DetailView {
    DetailView {
        error_codes: seq![numbered(code, c as nat), code],
        parameters: seq![(name, seq![c]), ("matchBehavior"@, behavior.name_text())],
    }
}

/// The details that report the given characters.
pub open spec fn character_details(
    code: Seq<char>,
    name: Seq<char>,
    found: Seq<char>,
    behavior: MatchBehavior,
) -> Seq<DetailView> {
    Seq::new(found.len(), |i: int| character_detail(code, name, found[i], behavior))
}

/// Adds the detail that reports a character to a result.
pub(crate) fn add_character_error(
    result: &mut RuleResult,
    code: &str,
    name: &str,
    c: char,
    behavior: MatchBehavior,
)
    requires
        code@.len() > 0,
    ensures
        final(result)@ == crate::rule::rule_result::with_detail(
            old(result)@,
            character_detail(code@, name@, c, behavior),
        ),
{
    let mut codes: Vec<String> = Vec::new();
    codes.push(numbered_code(code, c as u32));
    codes.push(String::from_str(code));
    let mut map: Vec<(String, String)> = Vec::new();
    map.push(parameter(name, char_string(c)));
    map.push(parameter("matchBehavior", behavior.name()));
    proof {
        assert(texts(codes@) =~= seq![
            numbered(code@, c as nat),
            code@,
        ]);
        assert(parameter_texts(map@) =~= seq![
            (name@, seq![c]),
            ("matchBehavior"@, behavior.name_text()),
        ]);
    }
    result.add_error_with_codes(codes.as_slice(), Some(map));
}

/// Refuses passwords that hold a character outside a set of allowed
/// characters.
pub struct AllowedCharacter {
    allowed_characters: String,
    match_behavior: MatchBehavior,
    report_all: bool,
}

impl AllowedCharacter {
    /// The allowed characters.
    pub closed spec fn allowed(&self) -> Seq<char> {
        self.allowed_characters@
    }

    /// Where the rule looks for a character that is not allowed.
    pub closed spec fn behavior(&self) -> MatchBehavior {
        self.match_behavior
    }

    /// Whether every such character is reported, or the first alone.
    pub closed spec fn reports_all(&self) -> bool {
        self.report_all
    }

    /// Whether a character of the password is refused.
    pub open spec fn refuses(&self, password: Seq<char>) -> spec_fn(char) -> bool {
        |c: char|
            !self.allowed().contains(c) && (self.behavior() == MatchBehavior::Contains
                || self.behavior().char_matches(password, c))
    }

    /// The result of the rule for a password: the refused characters are
    /// reported once each, in the order in which they first occur.
    pub open spec fn outcome(&self, password: Seq<char>) -> ResultView {
        let found = distinct_offenders(password, self.refuses(password), password.len() as int);
        result_of(
            character_details(
                "ALLOWED_CHAR"@,
                "illegalCharacter"@,
                first_or_all(found, self.reports_all()),
                self.behavior(),
            ),
            Map::<CountCategory, usize>::empty().insert(
                CountCategory::Allowed,
                matching_characters(self.allowed(), password).len() as usize,
            ),
        )
    }

    /// Creates a rule from the allowed characters and the two policies.
    pub fn new(allowed_characters: &str, match_behavior: MatchBehavior, report_all: bool) -> (rule:
        Self)
        ensures
            rule.allowed() == allowed_characters@,
            rule.behavior() == match_behavior,
            rule.reports_all() == report_all,
    {
        AllowedCharacter {
            report_all,
            allowed_characters: String::from_str(allowed_characters),
            match_behavior,
        }
    }

    /// Creates a rule that looks everywhere and reports every character.
    pub fn from_chars(allowed_characters: &str) -> (rule: Self)
        ensures
            rule.allowed() == allowed_characters@,
            rule.behavior() == MatchBehavior::Contains,
            rule.reports_all(),
    {
        Self::new(allowed_characters, MatchBehavior::Contains, true)
    }

    /// Creates a rule that looks everywhere.
    pub fn with_report_all(allowed_characters: &str, report_all: bool) -> (rule: Self)
        ensures
            rule.allowed() == allowed_characters@,
            rule.behavior() == MatchBehavior::Contains,
            rule.reports_all() == report_all,
    {
        Self::new(allowed_characters, MatchBehavior::Contains, report_all)
    }

    fn create_rule_result_metadata(&self, password_data: &PasswordData) -> (metadata:
        RuleResultMetadata)
        ensures
            metadata@ == Map::<CountCategory, usize>::empty().insert(
                CountCategory::Allowed,
                matching_characters(self.allowed(), password_data@.password).len() as usize,
            ),
    {
        let count = count_matching_characters(
            self.allowed_characters.as_str(),
            password_data.password(),
        );
        RuleResultMetadata::new(CountCategory::Allowed, count)
    }
}

impl Rule for AllowedCharacter {
    open spec fn admits(&self, data: PasswordView, result: ResultView) -> bool {
        result == self.outcome(data.password)
    }

    fn validate(&self, password_data: &PasswordData) -> (result: RuleResult) {
        let mut result = RuleResult::default();
        let mut matches: Vec<char> = Vec::new();
        let text = password_data.password();
        let chars = chars_of(text);
        let allowed = chars_of(self.allowed_characters.as_str());
        let ghost bad = self.refuses(text@);
        let mut i: usize = 0;
        proof {
            reveal_strlit("ALLOWED_CHAR");
            assert(result@.details =~= character_details(
                "ALLOWED_CHAR"@,
                "illegalCharacter"@,
                first_or_all(matches@, self.report_all),
                self.match_behavior,
            ));
        }
        while i < chars.len()
            invariant_except_break
                matches@ == distinct_offenders(chars@, bad, i as int),
                !self.report_all ==> matches@.len() == 0,
            invariant
                i <= chars.len(),
                chars@ == text@,
                text@ == password_data@.password,
                allowed@ == self.allowed(),
                bad == self.refuses(text@),
                "ALLOWED_CHAR"@.len() > 0,
                result@ == result_of(
                    character_details(
                        "ALLOWED_CHAR"@,
                        "illegalCharacter"@,
                        first_or_all(matches@, self.report_all),
                        self.match_behavior,
                    ),
                    Map::empty(),
                ),
            ensures
                first_or_all(matches@, self.report_all) == first_or_all(
                    distinct_offenders(chars@, bad, chars@.len() as int),
                    self.report_all,
                ),
            decreases chars.len() - i,
        {
            let c = chars[i];
            if !contains_char(&allowed, c) && !contains_char(&matches, c) && (self.match_behavior
                == MatchBehavior::Contains || self.match_behavior.match_char(text, c)) {
                add_character_error(
                    &mut result,
                    "ALLOWED_CHAR",
                    "illegalCharacter",
                    c,
                    self.match_behavior,
                );
                let ghost before = matches@;
                matches.push(c);
                proof {
                    assert(first_or_all(matches@, true) =~= first_or_all(before, true).push(c));
                    assert(result@.details =~= character_details(
                        "ALLOWED_CHAR"@,
                        "illegalCharacter"@,
                        first_or_all(matches@, self.report_all),
                        self.match_behavior,
                    ));
                }
                if !self.report_all {
                    proof {
                        lemma_first_offender_stays(chars@, bad, i + 1, chars@.len() as int);
                    }
                    break ;
                }
            }
            i += 1;
        }
        result.set_metadata(self.create_rule_result_metadata(password_data));
        result
    }

    open spec fn alphabet(&self) -> Option<Seq<char>> {
        Some(self.allowed())
    }

    fn as_has_characters(&self) -> (r: Option<&dyn HasCharacters>)
        ensures
            r is Some,
    {
        Some(self)
    }

    fn as_dictionary_rule(&self) -> (r: Option<&dyn crate::rule::DictionaryRuleTrait>) {
        None
    }
}

/// Once there is an offender, going on leaves the first offender as it is.
pub(crate) proof fn lemma_first_offender_stays(
    candidates: Seq<char>,
    bad: spec_fn(char) -> bool,
    n: int,
    m: int,
)
    requires
        0 <= n <= m,
        distinct_offenders(candidates, bad, n).len() > 0,
    ensures
        distinct_offenders(candidates, bad, m).len() > 0,
        distinct_offenders(candidates, bad, m)[0] == distinct_offenders(candidates, bad, n)[0],
    decreases m - n,
{
    if n < m {
        lemma_first_offender_stays(candidates, bad, n, m - 1);
    }
}

impl HasCharacters for AllowedCharacter {
    open spec fn characters_text(&self) -> Seq<char> {
        self.allowed()
    }

    fn characters(&self) -> (characters: String) {
        self.allowed_characters.clone()
    }
}

} // verus!
