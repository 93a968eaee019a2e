//! A rule that refuses the numbers of a range.
use crate::rule::allowed_character::MatchBehavior;
use crate::rule::rule_result::{
    error_detail, first_or_all, parameter, parameter_texts, result_of, DetailView, ResultView,
    RuleResult,
};
use crate::rule::{PasswordData, PasswordView, Rule};
use crate::text::{decimal_isize, signed_decimal_digits};
use std::ops::Range;
use vstd::prelude::*;

verus! {

/// The error code of the rule.
pub const ERROR_CODE: &'static str = "ILLEGAL_NUMBER_RANGE";

/// Refuses passwords that hold the decimal writing of a number of a range.
pub struct NumberRangeRule {
    start: isize,
    end: isize,
    match_behavior: MatchBehavior,
    report_all: bool,
}

/// The numbers from `start` up to, not including, `end` whose decimal
/// writing the text holds where the behavior looks, in ascending order.
pub open spec fn numbers_found(text: Seq<char>, behavior: MatchBehavior, start: int, end: int)
    -> Seq<int>
    decreases end - start,
{
    if start >= end {
        Seq::empty()
    } else {
        let before = numbers_found(text, behavior, start, end - 1);
        if behavior.text_matches(text, signed_decimal_digits(end - 1)) {
            before.push(end - 1)
        } else {
            before
        }
    }
}

/// The detail that reports a number.
pub open spec fn number_detail(number: int, behavior: MatchBehavior) -> DetailView {
    error_detail(
        "ILLEGAL_NUMBER_RANGE"@,
        seq![
            ("number"@, signed_decimal_digits(number)),
            ("matchBehavior"@, behavior.description_text()),
        ],
    )
}

/// The details that report the given numbers.
pub open spec fn number_details(found: Seq<int>, behavior: MatchBehavior) -> Seq<DetailView> {
    Seq::new(found.len(), |i: int| number_detail(found[i], behavior))
}

proof fn lemma_first_number_stays(
    text: Seq<char>,
    behavior: MatchBehavior,
    start: int,
    upto: int,
    end: int,
)
    requires
        upto <= end,
        numbers_found(text, behavior, start, upto).len() > 0,
    ensures
        numbers_found(text, behavior, start, end).len() > 0,
        numbers_found(text, behavior, start, end)[0] == numbers_found(
            text,
            behavior,
            start,
            upto,
        )[0],
    decreases end - upto,
{
    if upto < end {
        lemma_first_number_stays(text, behavior, start, upto, end - 1);
    }
}

impl NumberRangeRule {
    /// The first number of the range.
    pub closed spec fn first(&self) -> isize {
        self.start
    }

    /// The number after the last number of the range.
    pub closed spec fn limit(&self) -> isize {
        self.end
    }

    /// Where the rule looks for a number.
    pub closed spec fn behavior(&self) -> MatchBehavior {
        self.match_behavior
    }

    /// Whether every number found is reported, or the first alone.
    pub closed spec fn reports_all(&self) -> bool {
        self.report_all
    }

    /// The result of the rule for a password.
    pub open spec fn outcome(&self, password: Seq<char>) -> ResultView {
        result_of(
            number_details(
                first_or_all(
                    numbers_found(
                        password,
                        self.behavior(),
                        self.first() as int,
                        self.limit() as int,
                    ),
                    self.reports_all(),
                ),
                self.behavior(),
            ),
            Map::empty(),
        )
    }

    /// Creates a rule from a range of numbers and the two policies.
    pub fn new(range: Range<isize>, match_behavior: MatchBehavior, report_all: bool) -> (rule: Self)
        ensures
            rule.first() == range.start,
            rule.limit() == range.end,
            rule.behavior() == match_behavior,
            rule.reports_all() == report_all,
    {
        NumberRangeRule { start: range.start, end: range.end, match_behavior, report_all }
    }

    /// Creates a rule that looks everywhere and reports every number.
    pub fn from_range(range: Range<isize>) -> (rule: Self)
        ensures
            rule.first() == range.start,
            rule.limit() == range.end,
            rule.behavior() == MatchBehavior::Contains,
            rule.reports_all(),
    {
        NumberRangeRule::new(range, MatchBehavior::Contains, true)
    }

    fn create_rule_result_detail_parameters(&self, number: isize) -> (map: Vec<(String, String)>)
        ensures
            parameter_texts(map@) == number_detail(number as int, self.behavior()).parameters,
    {
        let mut map: Vec<(String, String)> = Vec::new();
        map.push(parameter("number", decimal_isize(number)));
        map.push(parameter("matchBehavior", self.match_behavior.to_string()));
        assert(parameter_texts(map@) =~= number_detail(
            number as int,
            self.behavior(),
        ).parameters);
        map
    }
}

impl Rule for NumberRangeRule {
    open spec fn admits(&self, data: PasswordView, result: ResultView) -> bool {
        result == self.outcome(data.password)
    }

    fn validate(&self, password_data: &PasswordData) -> (result: RuleResult) {
        let mut result = RuleResult::default();
        let text = password_data.password();
        let ghost mut found: Seq<int> = Seq::empty();
        let mut i: isize = self.start;
        proof {
            reveal_strlit("ILLEGAL_NUMBER_RANGE");
            assert(result@.details =~= number_details(
                first_or_all(found, self.report_all),
                self.match_behavior,
            ));
        }
        proof {
            assert(numbers_found(
                text@,
                self.match_behavior,
                self.start as int,
                self.start as int,
            ) =~= Seq::<int>::empty());
            if self.start >= self.end {
                assert(numbers_found(
                    text@,
                    self.match_behavior,
                    self.start as int,
                    self.end as int,
                ) =~= Seq::<int>::empty());
            }
        }
        while i < self.end
            invariant_except_break
                found == numbers_found(text@, self.match_behavior, self.start as int, i as int),
                !self.report_all ==> found.len() == 0,
            invariant
                self.start <= i,
                i <= self.end || (self.start >= self.end && i == self.start && found.len() == 0),
                text@ == password_data@.password,
                "ILLEGAL_NUMBER_RANGE"@.len() > 0,
                result@ == result_of(
                    number_details(first_or_all(found, self.report_all), self.match_behavior),
                    Map::empty(),
                ),
            ensures
                first_or_all(found, self.report_all) == first_or_all(
                    numbers_found(
                        text@,
                        self.match_behavior,
                        self.start as int,
                        self.end as int,
                    ),
                    self.report_all,
                ),
            decreases self.end - i,
        {
            let number = decimal_isize(i);
            let ghost upto = numbers_found(
                text@,
                self.match_behavior,
                self.start as int,
                i as int,
            );
            proof {
                assert(numbers_found(text@, self.match_behavior, self.start as int, i + 1) == if
                    self.match_behavior.text_matches(text@, signed_decimal_digits(i as int)) {
                    upto.push(i as int)
                } else {
                    upto
                });
            }
            if self.match_behavior.match_str(text, number.as_str()) {
                result.add_error(
                    "ILLEGAL_NUMBER_RANGE",
                    Some(self.create_rule_result_detail_parameters(i)),
                );
                let ghost before = found;
                proof {
                    found = found.push(i as int);
                    assert(first_or_all(found, true) =~= first_or_all(before, true).push(
                        i as int,
                    ));
                    assert(result@.details =~= number_details(
                        first_or_all(found, self.report_all),
                        self.match_behavior,
                    ));
                }
                if !self.report_all {
                    proof {
                        lemma_first_number_stays(
                            text@,
                            self.match_behavior,
                            self.start as int,
                            i + 1,
                            self.end as int,
                        );
                    }
                    break ;
                }
            }
            i += 1;
        }
        result
    }

    fn as_has_characters(&self) -> (r: Option<&dyn crate::rule::HasCharacters>) {
        None
    }

    fn as_dictionary_rule(&self) -> (r: Option<&dyn crate::rule::DictionaryRuleTrait>) {
        None
    }
}


impl From<Range<isize>> for NumberRangeRule {
    fn from(value: Range<isize>) -> (rule: Self)
        ensures
            rule.first() == value.start,
            rule.limit() == value.end,
            rule.behavior() == MatchBehavior::Contains,
            rule.reports_all(),
    {
        NumberRangeRule::new(value, MatchBehavior::Contains, true)
    }
}

impl vstd::std_specs::convert::FromSpecImpl<Range<isize>> for NumberRangeRule {
    open spec fn obeys_from_spec() -> bool {
        true
    }

    closed spec fn from_spec(value: Range<isize>) -> Self {
        NumberRangeRule {
            start: value.start,
            end: value.end,
            match_behavior: MatchBehavior::Contains,
            report_all: true,
        }
    }
}

} // verus!
