//! A rule that asks a password to pass a number of character rules.
use crate::rule::character::CharacterRule;
use crate::rule::rule_result::{
    error_detail, parameter, parameter_texts, CountCategory, DetailView, ParameterTexts,
    ResultView, RuleResult,
};
use crate::rule::{PasswordData, PasswordView, Rule};
use crate::text::{decimal_digits, decimal_usize};
use vstd::prelude::*;

verus! {

/// The error code of the rule.
pub const ERROR_CODE: &'static str = "INSUFFICIENT_CHARACTERISTICS";

/// What the character rules gave so far.
pub struct Tally {
    /// The number of rules that the password passed.
    pub success: nat,
    /// The failures that are passed on.
    pub details: Seq<DetailView>,
    /// The counts of all rules.
    pub counts: Map<CountCategory, usize>,
}

/// What the character rules give for a password, taken one after the
/// other: the failures of a rule are passed on if that is asked for, and
/// the counts of a later rule go before those of an earlier one.
pub open spec fn tally(rules: Seq<CharacterRule>, password: Seq<char>, report_rule_failures: bool)
    -> Tally
    decreases rules.len(),
{
    if rules.len() == 0 {
        Tally { success: 0, details: Seq::empty(), counts: Map::empty() }
    } else {
        let before = tally(rules.drop_last(), password, report_rule_failures);
        let rr = rules.last().outcome(password);
        Tally {
            success: if rr.valid {
                before.success + 1
            } else {
                before.success
            },
            details: if !rr.valid && report_rule_failures {
                before.details + rr.details
            } else {
                before.details
            },
            counts: before.counts.union_prefer_right(rr.counts),
        }
    }
}

/// The named values of a failure: the number of rules passed, the number
/// required, and the number of rules.
pub open spec fn characteristics_parameters(success: nat, required: usize, rule_count: nat)
    -> ParameterTexts {
    seq![
        ("successCount"@, decimal_digits(success)),
        ("minimumRequired"@, decimal_digits(required as nat)),
        ("ruleCount"@, decimal_digits(rule_count)),
    ]
}

/// Asks that a password pass at least a number of character rules.
pub struct CharacterCharacteristics {
    rules: Vec<CharacterRule>,
    num_characteristics: usize,
    report_failure: bool,
    report_rule_failures: bool,
}

impl CharacterCharacteristics {
    /// The character rules.
    pub closed spec fn rules(&self) -> Seq<CharacterRule> {
        self.rules@
    }

    /// The number of rules that a password must pass.
    pub closed spec fn required(&self) -> usize {
        self.num_characteristics
    }

    /// Whether a failure of this rule is reported by a detail of its own.
    pub closed spec fn reports_failure(&self) -> bool {
        self.report_failure
    }

    /// Whether the failures of the character rules are passed on.
    pub closed spec fn reports_rule_failures(&self) -> bool {
        self.report_rule_failures
    }

    /// The result of the rule for a password.
    pub open spec fn outcome(&self, password: Seq<char>) -> ResultView {
        let t = tally(self.rules(), password, self.reports_rule_failures());
        if t.success < self.required() {
            ResultView {
                valid: false,
                details: if self.reports_failure() {
                    t.details.push(
                        error_detail(
                            "INSUFFICIENT_CHARACTERISTICS"@,
                            characteristics_parameters(
                                t.success,
                                self.required(),
                                self.rules().len(),
                            ),
                        ),
                    )
                } else {
                    t.details
                },
                counts: t.counts,
            }
        } else {
            ResultView { valid: true, details: t.details, counts: t.counts }
        }
    }

    /// Creates a rule from character rules, the number of them that a
    /// password must pass, which is at least one and at most their number,
    /// and the two reporting policies.
    pub fn new(
        rules: Vec<CharacterRule>,
        num_characteristics: usize,
        report_failure: bool,
        report_rule_failures: bool,
    ) -> (r: Result<CharacterCharacteristics, String>)
        ensures
            r is Ok <==> 1 <= num_characteristics <= rules.len(),
            r matches Ok(rule) ==> rule.rules() == rules@ && rule.required() == num_characteristics
                && rule.reports_failure() == report_failure && rule.reports_rule_failures()
                == report_rule_failures,
            r matches Err(message) ==> message@ == (if num_characteristics < 1 {
                "Number of characteristics must be greater than zero"@
            } else {
                "Number of characteristics must be <= to the number of rules"@
            }),
    {
        if num_characteristics < 1 {
            return Err(String::from_str("Number of characteristics must be greater than zero"));
        }
        if num_characteristics > rules.len() {
            return Err(
                String::from_str("Number of characteristics must be <= to the number of rules"),
            );
        }
        Ok(
            CharacterCharacteristics {
                rules,
                num_characteristics,
                report_failure,
                report_rule_failures,
            },
        )
    }

    /// Creates a rule that reports its own failure and those of the
    /// character rules.
    pub fn with_rules_and_characteristics(rules: Vec<CharacterRule>, num_characteristics: usize) -> (r:
        Result<CharacterCharacteristics, String>)
        ensures
            r is Ok <==> 1 <= num_characteristics <= rules.len(),
            r matches Ok(rule) ==> rule.rules() == rules@ && rule.required() == num_characteristics
                && rule.reports_failure() && rule.reports_rule_failures(),
    {
        Self::new(rules, num_characteristics, true, true)
    }

    /// Creates a rule that asks for one of the character rules to pass.
    pub fn from_rules(rules: Vec<CharacterRule>) -> (r: Result<CharacterCharacteristics, String>)
        ensures
            r is Ok <==> 1 <= rules.len(),
            r matches Ok(rule) ==> rule.rules() == rules@ && rule.required() == 1
                && rule.reports_failure() && rule.reports_rule_failures(),
    {
        Self::with_rules_and_characteristics(rules, 1)
    }

    fn create_rule_result_detail_parameters(&self, success: usize) -> (map: Vec<(String, String)>)
        ensures
            parameter_texts(map@) == characteristics_parameters(
                success as nat,
                self.required(),
                self.rules().len(),
            ),
    {
        let mut map: Vec<(String, String)> = Vec::new();
        map.push(parameter("successCount", decimal_usize(success)));
        map.push(parameter("minimumRequired", decimal_usize(self.num_characteristics)));
        map.push(parameter("ruleCount", decimal_usize(self.rules.len())));
        assert(parameter_texts(map@) =~= characteristics_parameters(
            success as nat,
            self.required(),
            self.rules().len(),
        ));
        map
    }
}

impl Rule for CharacterCharacteristics {
    open spec fn admits(&self, data: PasswordView, result: ResultView) -> bool {
        result == self.outcome(data.password)
    }

    fn validate(&self, password_data: &PasswordData) -> (result: RuleResult) {
        let mut success_count: usize = 0;
        let mut result = RuleResult::default();
        let ghost password = password_data@.password;
        let mut i: usize = 0;
        proof {
            reveal_strlit("INSUFFICIENT_CHARACTERISTICS");
            assert(self.rules@.take(0) =~= Seq::<CharacterRule>::empty());
        }
        while i < self.rules.len()
            invariant
                i <= self.rules.len(),
                password == password_data@.password,
                success_count <= i,
                success_count == tally(
                    self.rules@.take(i as int),
                    password,
                    self.report_rule_failures,
                ).success,
                result@ == (ResultView {
                    valid: true,
                    details: tally(
                        self.rules@.take(i as int),
                        password,
                        self.report_rule_failures,
                    ).details,
                    counts: tally(
                        self.rules@.take(i as int),
                        password,
                        self.report_rule_failures,
                    ).counts,
                }),
            decreases self.rules.len() - i,
        {
            proof {
                assert(self.rules@.take(i + 1).drop_last() =~= self.rules@.take(i as int));
                assert(self.rules@.take(i + 1).last() == self.rules@[i as int]);
            }
            let rr = self.rules[i].validate(password_data);
            let (valid, details, metadata) = rr.into_parts();
            if valid {
                success_count += 1;
            } else {
                if self.report_rule_failures {
                    result.add_details(details);
                }
            }
            result.merge_metadata(&metadata);
            i += 1;
        }
        proof {
            assert(self.rules@.take(i as int) =~= self.rules@);
        }
        if success_count < self.num_characteristics {
            result.set_valid(false);
            if self.report_failure {
                result.add_error(
                    "INSUFFICIENT_CHARACTERISTICS",
                    Some(self.create_rule_result_detail_parameters(success_count)),
                );
            }
        }
        result
    }

    open spec fn alphabet(&self) -> Option<Seq<char>> {
        Some(all_characters(self.rules()))
    }

    fn as_has_characters(&self) -> (r: Option<&dyn crate::rule::HasCharacters>)
        ensures
            r is Some,
    {
        Some(self)
    }

    fn as_dictionary_rule(&self) -> (r: Option<&dyn crate::rule::DictionaryRuleTrait>) {
        None
    }
}

/// The characters of all rules, one rule after the other.
pub open spec fn all_characters(rules: Seq<CharacterRule>) -> Seq<char>
    decreases rules.len(),
{
    if rules.len() == 0 {
        Seq::empty()
    } else {
        all_characters(rules.drop_last()) + rules.last().characters_text()
    }
}

impl crate::rule::HasCharacters for CharacterCharacteristics {
    open spec fn characters_text(&self) -> Seq<char> {
        all_characters(self.rules())
    }

    fn characters(&self) -> (characters: String) {
        let mut characters = String::new();
        let mut i: usize = 0;
        proof {
            assert(self.rules@.take(0) =~= Seq::<CharacterRule>::empty());
        }
        while i < self.rules.len()
            invariant
                i <= self.rules.len(),
                characters@ == all_characters(self.rules@.take(i as int)),
            decreases self.rules.len() - i,
        {
            proof {
                assert(self.rules@.take(i + 1).drop_last() =~= self.rules@.take(i as int));
                assert(self.rules@.take(i + 1).last() == self.rules@[i as int]);
            }
            characters.append(self.rules[i].valid_characters());
            i += 1;
        }
        proof {
            assert(self.rules@.take(i as int) =~= self.rules@);
        }
        characters
    }
}

} // verus!
