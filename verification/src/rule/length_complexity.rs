//! A rule that asks for more or less, depending on the length of the
//! password.
use crate::rule::password_validator::are_results_of;
use crate::rule::rule_result::{
    error_detail, parameter, parameter_texts, result_of, CountCategory, DetailView,
    ParameterTexts, ResultView, RuleResult,
};
use crate::rule::{PasswordData, PasswordView, Rule};
use crate::text::{decimal_digits, decimal_usize, utf8_len};
use std::ops::Range;
use vstd::prelude::*;

verus! {

/// The error code of a password that fails a rule of its length.
pub const ERROR_CODE: &'static str = "INSUFFICIENT_COMPLEXITY";

/// The error code of a password for whose length there are no rules.
pub const ERROR_CODE_RULES: &'static str = "INSUFFICIENT_COMPLEXITY_RULES";

/// An interval of lengths and the rules for the passwords of these
/// lengths.
pub type LengthRules = (Range<usize>, Vec<Box<dyn Rule>>);

/// Whether two intervals have a length in common, or one of them is empty
/// and lies inside the other.
pub open spec fn intersect(a: Range<usize>, b: Range<usize>) -> bool {
    (a.start >= b.start && a.start < b.end) || (a.end > b.start && a.end <= b.end) || (b.start
        >= a.start && b.start < a.end) || (b.end > a.start && b.end <= a.end)
}

/// Says whether two intervals intersect.
pub fn ranges_intersect(a: &Range<usize>, b: &Range<usize>) -> (r: bool)
    ensures
        r == intersect(*a, *b),
{
    // Is a's start within b, a's end within b, b's start within a, or b's
    // end within a?
    (a.start >= b.start && a.start < b.end) || (a.end > b.start && a.end <= b.end) || (b.start
        >= a.start && b.start < a.end) || (b.end > a.start && b.end <= a.end)
}

/// The position of the first of the first `n` intervals that holds `len`,
/// or -1 if none does.
pub open spec fn first_holding(entries: Seq<LengthRules>, len: usize, n: int) -> int
    decreases n,
{
    if n <= 0 {
        -1
    } else {
        let before = first_holding(entries, len, n - 1);
        if before >= 0 {
            before
        } else if entries[n - 1].0.start <= len < entries[n - 1].0.end {
            n - 1
        } else {
            -1
        }
    }
}

/// The position of the first of the first `n` intervals that intersects
/// `interval`, or -1 if none does.
pub open spec fn first_intersecting(entries: Seq<LengthRules>, interval: Range<usize>, n: int)
    -> int
    decreases n,
{
    if n <= 0 {
        -1
    } else {
        let before = first_intersecting(entries, interval, n - 1);
        if before >= 0 {
            before
        } else if intersect(entries[n - 1].0, interval) {
            n - 1
        } else {
            -1
        }
    }
}

/// The named values of a failure: the length of the password, the number
/// of rules passed, and the number of rules.
pub open spec fn complexity_parameters(len: usize, success: nat, rule_count: nat)
    -> ParameterTexts {
    seq![
        ("passwordLength"@, decimal_digits(len as nat)),
        ("successCount"@, decimal_digits(success)),
        ("ruleCount"@, decimal_digits(rule_count)),
    ]
}

/// What the rules of an interval gave so far.
pub struct ComplexityTally {
    /// The number of rules that the password passed.
    pub success: nat,
    /// The failures that are passed on.
    pub details: Seq<DetailView>,
    /// The counts of all rules.
    pub counts: Map<CountCategory, usize>,
}

/// What the given results come to, taken one after the other.
pub open spec fn complexity_tally(results: Seq<ResultView>, report_rule_failures: bool)
    -> ComplexityTally
    decreases results.len(),
{
    if results.len() == 0 {
        ComplexityTally { success: 0, details: Seq::empty(), counts: Map::empty() }
    } else {
        let before = complexity_tally(results.drop_last(), report_rule_failures);
        let rr = results.last();
        ComplexityTally {
            success: if rr.valid {
                before.success + 1
            } else {
                before.success
            },
            details: if !rr.valid && report_rule_failures {
                before.details + rr.details
            } else {
                before.details
            },
            counts: before.counts.union_prefer_right(rr.counts),
        }
    }
}

/// The result for a password of a length, given the results of the rules
/// for that length: the password must pass them all.
pub open spec fn complexity_outcome(
    len: usize,
    results: Seq<ResultView>,
    report_failure: bool,
    report_rule_failures: bool,
) -> ResultView {
    let t = complexity_tally(results, report_rule_failures);
    if t.success < results.len() {
        ResultView {
            valid: false,
            details: if report_failure {
                t.details.push(
                    error_detail(
                        "INSUFFICIENT_COMPLEXITY"@,
                        complexity_parameters(len, t.success, results.len()),
                    ),
                )
            } else {
                t.details
            },
            counts: t.counts,
        }
    } else {
        ResultView { valid: true, details: t.details, counts: t.counts }
    }
}

/// The result for a password of a length for which there are no rules.
pub open spec fn no_rules_outcome(len: usize) -> ResultView {
    result_of(
        seq![error_detail("INSUFFICIENT_COMPLEXITY_RULES"@, complexity_parameters(len, 0, 0))],
        Map::empty(),
    )
}

/// The text of the refusal of an interval that intersects another.
pub open spec fn intersection_message(interval: Range<usize>, existing: Range<usize>) -> Seq<
    char,
> {
    "Interval "@ + decimal_digits(interval.start as nat) + ".."@ + decimal_digits(
        interval.end as nat,
    ) + " intersects existing interval "@ + decimal_digits(existing.start as nat) + ".."@
        + decimal_digits(existing.end as nat)
}

/// Asks a password to pass all the rules that are set for its length.
pub struct LengthComplexityRule {
    rules: Vec<LengthRules>,
    report_failure: bool,
    report_rule_failures: bool,
}

impl LengthComplexityRule {
    /// The intervals with their rules, in the order in which they are
    /// looked through.
    pub closed spec fn entries(&self) -> Seq<LengthRules> {
        self.rules@
    }

    /// Whether a failure of this rule is reported by a detail of its own.
    pub closed spec fn reports_failure(&self) -> bool {
        self.report_failure
    }

    /// Whether the failures of the rules are passed on.
    pub closed spec fn reports_rule_failures(&self) -> bool {
        self.report_rule_failures
    }

    /// Creates a rule from intervals with their rules and the two
    /// reporting policies.
    pub fn new(rules: Vec<LengthRules>, report_failure: bool, report_rule_failures: bool) -> (rule:
        Self)
        ensures
            rule.entries() == rules@,
            rule.reports_failure() == report_failure,
            rule.reports_rule_failures() == report_rule_failures,
    {
        Self { rules, report_failure, report_rule_failures }
    }

    /// Gives access to the intervals with their rules for changing them.
    pub fn rules_mut(&mut self) -> (rules: &mut Vec<LengthRules>)
        ensures
            (*rules)@ == old(self).entries(),
            final(self).entries() == (*final(rules))@,
            final(self).reports_failure() == old(self).reports_failure(),
            final(self).reports_rule_failures() == old(self).reports_rule_failures(),
    {
        &mut self.rules
    }

    /// Sets whether a failure of this rule is reported by a detail of its
    /// own.
    pub fn set_report_failure(&mut self, report_failure: bool)
        ensures
            final(self).entries() == old(self).entries(),
            final(self).reports_failure() == report_failure,
            final(self).reports_rule_failures() == old(self).reports_rule_failures(),
    {
        self.report_failure = report_failure;
    }

    /// Adds rules for an interval of lengths. The rules must not be empty,
    /// and the interval must not intersect one that is there.
    pub fn add_rules(&mut self, interval: Range<usize>, rules: Vec<Box<dyn Rule>>) -> (r: Result<
        (),
        String,
    >)
        ensures
            final(self).reports_failure() == old(self).reports_failure(),
            final(self).reports_rule_failures() == old(self).reports_rule_failures(),
            r is Ok <==> rules@.len() > 0 && first_intersecting(
                old(self).entries(),
                interval,
                old(self).entries().len() as int,
            ) < 0,
            r is Ok ==> final(self).entries() == old(self).entries().push((interval, rules)),
            r is Err ==> final(self).entries() == old(self).entries(),
            r matches Err(message) ==> message@ == (if rules@.len() == 0 {
                "Rules cannot be empty"@
            } else {
                intersection_message(
                    interval,
                    old(self).entries()[first_intersecting(
                        old(self).entries(),
                        interval,
                        old(self).entries().len() as int,
                    )].0,
                )
            }),
    {
        if rules.len() == 0 {
            return Err(String::from_str("Rules cannot be empty"));
        }
        let mut i: usize = 0;
        while i < self.rules.len()
            invariant
                i <= self.rules.len(),
                self.rules@ == old(self).rules@,
                rules@.len() > 0,
                first_intersecting(self.rules@, interval, i as int) < 0,
            decreases self.rules.len() - i,
        {
            if ranges_intersect(&self.rules[i].0, &interval) {
                let mut message = String::from_str("Interval ");
                message.append(decimal_usize(interval.start).as_str());
                message.append("..");
                message.append(decimal_usize(interval.end).as_str());
                message.append(" intersects existing interval ");
                message.append(decimal_usize(self.rules[i].0.start).as_str());
                message.append("..");
                message.append(decimal_usize(self.rules[i].0.end).as_str());
                proof {
                    assert(first_intersecting(self.rules@, interval, i + 1) == i);
                    lemma_first_intersecting_stays(
                        self.rules@,
                        interval,
                        i + 1,
                        self.rules@.len() as int,
                    );
                    assert(first_intersecting(
                        old(self).entries(),
                        interval,
                        old(self).entries().len() as int,
                    ) == i);
                    assert(message@ =~= intersection_message(interval, self.rules@[i as int].0));
                }
                return Err(message);
            }
            i += 1;
        }
        self.rules.push((interval, rules));
        Ok(())
    }

    fn get_rules_by_len(&self, len: usize) -> (found: Option<usize>)
        ensures
            found is None <==> first_holding(self.entries(), len, self.entries().len() as int)
                < 0,
            found matches Some(at) ==> at == first_holding(
                self.entries(),
                len,
                self.entries().len() as int,
            ) && at < self.entries().len(),
    {
        let mut i: usize = 0;
        while i < self.rules.len()
            invariant
                i <= self.rules.len(),
                first_holding(self.rules@, len, i as int) < 0,
            decreases self.rules.len() - i,
        {
            if self.rules[i].0.start <= len && len < self.rules[i].0.end {
                proof {
                    lemma_first_holding_stays(self.rules@, len, i + 1, self.rules@.len() as int);
                }
                return Some(i);
            }
            i += 1;
        }
        None
    }
}

proof fn lemma_first_intersecting_stays(
    entries: Seq<LengthRules>,
    interval: Range<usize>,
    n: int,
    m: int,
)
    requires
        0 <= n <= m,
        first_intersecting(entries, interval, n) >= 0,
    ensures
        first_intersecting(entries, interval, m) == first_intersecting(entries, interval, n),
    decreases m - n,
{
    if n < m {
        lemma_first_intersecting_stays(entries, interval, n, m - 1);
    }
}

proof fn lemma_first_holding_stays(entries: Seq<LengthRules>, len: usize, n: int, m: int)
    requires
        0 <= n <= m,
        first_holding(entries, len, n) >= 0,
    ensures
        first_holding(entries, len, m) == first_holding(entries, len, n),
    decreases m - n,
{
    if n < m {
        lemma_first_holding_stays(entries, len, n, m - 1);
    }
}

fn create_rule_result_detail_parameters(len: usize, success: usize, rule_count: usize) -> (map:
    Vec<(String, String)>)
    ensures
        parameter_texts(map@) == complexity_parameters(len, success as nat, rule_count as nat),
{
    let mut map: Vec<(String, String)> = Vec::new();
    map.push(parameter("passwordLength", decimal_usize(len)));
    map.push(parameter("successCount", decimal_usize(success)));
    map.push(parameter("ruleCount", decimal_usize(rule_count)));
    assert(parameter_texts(map@) =~= complexity_parameters(
        len,
        success as nat,
        rule_count as nat,
    ));
    map
}

impl Rule for LengthComplexityRule {
    /// The result is that for the length of the password in bytes and the
    /// results of the rules of the first interval that holds this length,
    /// or says that there is no such interval.
    open spec fn admits(&self, data: PasswordView, result: ResultView) -> bool {
        let len = utf8_len(data.password);
        let at = first_holding(self.entries(), len, self.entries().len() as int);
        if at < 0 {
            result == no_rules_outcome(len)
        } else {
            exists|results: Seq<ResultView>|
                are_results_of(self.entries()[at].1@, data, results) && result
                    == #[trigger] complexity_outcome(
                    len,
                    results,
                    self.reports_failure(),
                    self.reports_rule_failures(),
                )
        }
    }

    fn validate(&self, password_data: &PasswordData) -> (result: RuleResult) {
        let password_len = password_data.password().len();
        let rules_by_len = self.get_rules_by_len(password_len);
        let mut result = RuleResult::default();
        proof {
            reveal_strlit("INSUFFICIENT_COMPLEXITY");
            reveal_strlit("INSUFFICIENT_COMPLEXITY_RULES");
        }
        let at = match rules_by_len {
            None => {
                result.add_error(
                    "INSUFFICIENT_COMPLEXITY_RULES",
                    Some(create_rule_result_detail_parameters(password_len, 0, 0)),
                );
                assert(result@.details =~= no_rules_outcome(password_len).details);
                return result;
            },
            Some(at) => at,
        };
        let rules_by_len = &self.rules[at].1;
        let rules_len = rules_by_len.len();
        let mut success_count: usize = 0;
        let ghost mut results: Seq<ResultView> = Seq::empty();
        let mut i: usize = 0;
        while i < rules_by_len.len()
            invariant
                i <= rules_by_len.len(),
                rules_by_len@ == self.entries()[at as int].1@,
                results.len() == i,
                forall|k: int|
                    0 <= k < i ==> (#[trigger] rules_by_len@[k]).admits(
                        password_data@,
                        results[k],
                    ),
                success_count <= i,
                success_count == complexity_tally(results, self.report_rule_failures).success,
                result@ == (ResultView {
                    valid: true,
                    details: complexity_tally(results, self.report_rule_failures).details,
                    counts: complexity_tally(results, self.report_rule_failures).counts,
                }),
            decreases rules_by_len.len() - i,
        {
            let rr = rules_by_len[i].validate(password_data);
            proof {
                assert(results.push(rr@).drop_last() =~= results);
                results = results.push(rr@);
            }
            let (valid, details, metadata) = rr.into_parts();
            if !valid {
                if self.report_rule_failures {
                    result.add_details(details);
                }
            } else {
                success_count += 1;
            }
            result.merge_metadata(&metadata);
            i += 1;
        }
        if success_count < rules_len {
            result.set_valid(false);
            if self.report_failure {
                result.add_error(
                    "INSUFFICIENT_COMPLEXITY",
                    Some(
                        create_rule_result_detail_parameters(
                            password_len,
                            success_count,
                            rules_len,
                        ),
                    ),
                );
            }
        }
        proof {
            assert(are_results_of(self.entries()[at as int].1@, password_data@, results));
            assert(result@ == complexity_outcome(
                password_len,
                results,
                self.reports_failure(),
                self.reports_rule_failures(),
            ));
        }
        result
    }

    fn as_has_characters(&self) -> (r: Option<&dyn crate::rule::HasCharacters>) {
        None
    }

    fn as_dictionary_rule(&self) -> (r: Option<&dyn crate::rule::DictionaryRuleTrait>) {
        None
    }
}

impl Default for LengthComplexityRule {
    fn default() -> (rule: Self)
        ensures
            rule.entries() == Seq::<LengthRules>::empty(),
            rule.reports_failure(),
            rule.reports_rule_failures(),
    {
        LengthComplexityRule { rules: Vec::new(), report_failure: true, report_rule_failures: true }
    }
}

} // verus!
