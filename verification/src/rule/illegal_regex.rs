//! A rule that refuses passwords in which a regular expression finds a
//! match. The searching is done by the crate `fancy_regex`.
use crate::rule::rule_result::{
    error_detail, parameter, parameter_texts, result_of, DetailView, ResultView, RuleResult,
};
use crate::rule::{PasswordData, PasswordView, Rule};
use fancy_regex::Regex;
use crate::text::texts;
use vstd::prelude::*;

verus! {

/// The error code of a match.
pub const ERROR_CODE: &'static str = "ILLEGAL_MATCH";

/// The error code of a search that failed.
pub const REGEX_ERROR: &'static str = "REGEX_ERROR";

/// A compiled regular expression of `fancy_regex`.
#[verifier::external_type_specification]
#[verifier::external_body]
pub struct ExRegex(fancy_regex::Regex);

/// Returns the text that the regular expression was compiled from, as
/// `Regex::as_str` gives it. Nothing is stated of it.
#[verifier::external_body]
pub(crate) fn regex_pattern(regex: &Regex) -> (pattern: String) {
    regex.as_str().to_string()
}

/// Compiles a pattern with `Regex::new`, or gives nothing where the
/// pattern is refused. Nothing is stated of the outcome.
#[verifier::external_body]
pub(crate) fn compile_regex(pattern: &str) -> (regex: Option<Regex>) {
    Regex::new(pattern).ok()
}

/// Collects what `Regex::find_iter` yields on a text: the matched texts
/// from left to right, and nothing in the place where the search broke
/// off with an error. Nothing is stated of them.
#[verifier::external_body]
pub(crate) fn find_all(regex: &Regex, text: &str) -> (found: Vec<Option<String>>) {
    regex.find_iter(text).map(|m| m.ok().map(|part| part.as_str().to_string())).collect()
}

/// What a search yielded at one step: a matched text, or nothing where
/// the search failed.
pub open spec fn finding(item: Option<String>) -> Option<Seq<char>> {
    match item {
        Some(text) => Some(text@),
        None => None,
    }
}

/// What a search yielded, step by step.
pub open spec fn findings(found: Seq<Option<String>>) -> Seq<Option<Seq<char>>> {
    Seq::new(found.len(), |i: int| finding(found[i]))
}

/// The detail that reports a failed search.
pub open spec fn regex_error_detail() -> DetailView {
    error_detail("REGEX_ERROR"@, Seq::empty())
}

/// The detail that reports a match.
pub open spec fn match_detail(pattern: Seq<char>, text: Seq<char>) -> DetailView {
    error_detail("ILLEGAL_MATCH"@, seq![("match"@, text), ("pattern"@, pattern)])
}

/// What a scan of the findings has come to.
pub struct MatchScan {
    /// The details so far.
    pub details: Seq<DetailView>,
    /// The matched texts that were reported.
    pub seen: Seq<Seq<char>>,
    /// Whether the scan is over.
    pub done: bool,
}

/// The scan after the first `n` findings: a failed search is reported, a
/// matched text is reported unless it was reported before, and the scan is
/// over after the first reported match if only one is wanted.
pub open spec fn match_scan(
    pattern: Seq<char>,
    found: Seq<Option<Seq<char>>>,
    report_all: bool,
    n: int,
) -> MatchScan
    decreases n,
{
    if n <= 0 {
        MatchScan { details: Seq::empty(), seen: Seq::empty(), done: false }
    } else {
        let before = match_scan(pattern, found, report_all, n - 1);
        if before.done {
            before
        } else {
            match found[n - 1] {
                None => MatchScan { details: before.details.push(regex_error_detail()), ..before },
                Some(text) => if before.seen.contains(text) {
                    before
                } else {
                    MatchScan {
                        details: before.details.push(match_detail(pattern, text)),
                        seen: before.seen.push(text),
                        done: !report_all,
                    }
                },
            }
        }
    }
}

/// The result for what a search yielded.
pub open spec fn illegal_regex_outcome(
    pattern: Seq<char>,
    found: Seq<Option<Seq<char>>>,
    report_all: bool,
) -> ResultView {
    result_of(match_scan(pattern, found, report_all, found.len() as int).details, Map::empty())
}

/// Whether the text stands in the list.
fn was_seen(seen: &Vec<String>, text: &String) -> (r: bool)
    ensures
        r == texts(seen@).contains(text@),
{
    let ghost views = texts(seen@);
    let mut i: usize = 0;
    while i < seen.len()
        invariant
            i <= seen.len(),
            views == texts(seen@),
            forall|k: int| 0 <= k < i ==> views[k] != text@,
        decreases seen.len() - i,
    {
        if seen[i] == *text {
            assert(views[i as int] == text@);
            return true;
        }
        i += 1;
    }
    false
}

/// Gives the result for what a search with the pattern yielded.
pub fn illegal_regex_result(pattern: &str, found: &Vec<Option<String>>, report_all: bool) -> (result:
    RuleResult)
    ensures
        result@ == illegal_regex_outcome(pattern@, findings(found@), report_all),
{
    let mut result = RuleResult::default();
    let mut matches: Vec<String> = Vec::new();
    let ghost items = findings(found@);
    let mut i: usize = 0;
    proof {
        reveal_strlit("REGEX_ERROR");
        reveal_strlit("ILLEGAL_MATCH");
        assert(result@.details =~= match_scan(pattern@, items, report_all, 0).details);
        assert(texts(matches@) =~= match_scan(
            pattern@,
            items,
            report_all,
            0,
        ).seen);
    }
    while i < found.len()
        invariant_except_break
            !match_scan(pattern@, items, report_all, i as int).done,
        invariant
            i <= found.len(),
            items == findings(found@),
            "REGEX_ERROR"@.len() > 0,
            "ILLEGAL_MATCH"@.len() > 0,
            texts(matches@) == match_scan(
                pattern@,
                items,
                report_all,
                i as int,
            ).seen,
            result@ == result_of(
                match_scan(pattern@, items, report_all, i as int).details,
                Map::empty(),
            ),
        ensures
            result@ == illegal_regex_outcome(pattern@, items, report_all),
        decreases found.len() - i,
    {
        let ghost before = match_scan(pattern@, items, report_all, i as int);
        match &found[i] {
            None => {
                result.add_error("REGEX_ERROR", None);
            },
            Some(match_str) => {
                if !was_seen(&matches, match_str) {
                    let mut map: Vec<(String, String)> = Vec::new();
                    map.push(parameter("match", match_str.clone()));
                    map.push(parameter("pattern", String::from_str(pattern)));
                    assert(parameter_texts(map@) =~= seq![
                        ("match"@, match_str@),
                        ("pattern"@, pattern@),
                    ]);
                    result.add_error("ILLEGAL_MATCH", Some(map));
                    let ghost seen = texts(matches@);
                    matches.push(match_str.clone());
                    proof {
                        assert(texts(matches@)
                            =~= seen.push(match_str@));
                    }
                    if !report_all {
                        proof {
                            lemma_done_scan_stays(
                                pattern@,
                                items,
                                report_all,
                                i + 1,
                                items.len() as int,
                            );
                        }
                        i += 1;
                        break ;
                    }
                }
            },
        }
        i += 1;
    }
    result
}

/// A scan that is over stays as it is.
proof fn lemma_done_scan_stays(
    pattern: Seq<char>,
    found: Seq<Option<Seq<char>>>,
    report_all: bool,
    n: int,
    m: int,
)
    requires
        0 <= n <= m,
        match_scan(pattern, found, report_all, n).done,
    ensures
        match_scan(pattern, found, report_all, m) == match_scan(pattern, found, report_all, n),
    decreases m - n,
{
    if n < m {
        lemma_done_scan_stays(pattern, found, report_all, n, m - 1);
    }
}

/// Refuses passwords in which a regular expression finds a match.
pub struct IllegalRegexRule {
    regex: Regex,
    pattern: String,
    report_all: bool,
}

impl IllegalRegexRule {
    /// The text of the regular expression, as it is reported.
    pub closed spec fn pattern(&self) -> Seq<char> {
        self.pattern@
    }

    /// Whether every match is reported, or the first alone.
    pub closed spec fn reports_all(&self) -> bool {
        self.report_all
    }

    /// Creates a rule from a regular expression and the reporting policy.
    pub fn new(regex: Regex, report_all: bool) -> (rule: Self)
        ensures
            rule.reports_all() == report_all,
    {
        let pattern = regex_pattern(&regex);
        IllegalRegexRule { regex, pattern, report_all }
    }

    /// Creates a rule that reports every match.
    pub fn from_regex(regex: Regex) -> (rule: Self)
        ensures
            rule.reports_all(),
    {
        Self::new(regex, true)
    }
}

impl Rule for IllegalRegexRule {
    /// The result is that for what the search yields: which texts it
    /// finds is the matter of the regular expression.
    open spec fn admits(&self, data: PasswordView, result: ResultView) -> bool {
        exists|found: Seq<Option<Seq<char>>>|
            result == #[trigger] illegal_regex_outcome(self.pattern(), found, self.reports_all())
    }

    fn validate(&self, password_data: &PasswordData) -> (result: RuleResult) {
        let found = find_all(&self.regex, password_data.password());
        let result = illegal_regex_result(self.pattern.as_str(), &found, self.report_all);
        proof {
            assert(result@ == illegal_regex_outcome(
                self.pattern(),
                findings(found@),
                self.reports_all(),
            ));
        }
        result
    }

    fn as_has_characters(&self) -> (r: Option<&dyn crate::rule::HasCharacters>) {
        None
    }

    fn as_dictionary_rule(&self) -> (r: Option<&dyn crate::rule::DictionaryRuleTrait>) {
        None
    }
}


impl From<Regex> for IllegalRegexRule {
    fn from(regex: Regex) -> (rule: Self) {
        IllegalRegexRule::new(regex, true)
    }
}

impl vstd::std_specs::convert::FromSpecImpl<Regex> for IllegalRegexRule {
    /// The rule holds the text of the regular expression as the crate
    /// hands it out, so what the conversion gives is not stated.
    open spec fn obeys_from_spec() -> bool {
        false
    }

    open spec fn from_spec(regex: Regex) -> Self {
        arbitrary()
    }
}

} // verus!
