//! A rule that refuses passwords with too many runs of a repeated
//! character.
use crate::rule::illegal_sequence_rule::sentinel;
use crate::rule::repeat_character::{char_texts, collect_runs, long_runs};
use crate::rule::rule_result::{
    error_detail, parameter, parameter_texts, result_of, ParameterTexts, ResultView,
    RuleResult,
};
use crate::rule::{PasswordData, PasswordView, Rule};
use crate::text::{chars_of, decimal_digits, decimal_usize};
use vstd::prelude::*;

verus! {

/// The error code of the rule.
pub const ERROR_CODE: &'static str = "ILLEGAL_REPEATED_CHARS";

/// The texts of a list, with a comma between each two.
pub open spec fn joined(texts: Seq<Seq<char>>) -> Seq<char>
    decreases texts.len(),
{
    if texts.len() == 0 {
        Seq::empty()
    } else if texts.len() == 1 {
        texts[0]
    } else {
        joined(texts.drop_last()) + seq![','] + texts.last()
    }
}

/// Writes the texts of a list with a comma between each two.
fn join(texts: &Vec<Vec<char>>) -> (s: String)
    ensures
        s@ == joined(char_texts(texts@)),
{
    let mut s = String::new();
    let ghost all = char_texts(texts@);
    let mut i: usize = 0;
    proof {
        assert(all.take(0) =~= Seq::<Seq<char>>::empty());
    }
    while i < texts.len()
        invariant
            i <= texts.len(),
            all == char_texts(texts@),
            s@ == joined(all.take(i as int)),
        decreases texts.len() - i,
    {
        proof {
            assert(all.take(i + 1).drop_last() =~= all.take(i as int));
            assert(all.take(i + 1).last() == texts@[i as int]@);
            if i == 0 {
                assert(all.take(1)[0] == texts@[0]@);
            }
        }
        let ghost before = s@;
        if i > 0 {
            s.push(',');
        }
        let part = crate::text::string_of(&texts[i]);
        s.append(part.as_str());
        proof {
            if i > 0 {
                assert(s@ =~= before + seq![','] + part@);
            } else {
                assert(s@ =~= part@);
            }
        }
        i += 1;
    }
    proof {
        assert(all.take(i as int) =~= all);
    }
    s
}

/// The named values of a failure: the two settings, the number of runs
/// and the runs themselves.
pub open spec fn repeats_parameters(
    sequence_length: usize,
    sequence_count: usize,
    matches: Seq<Seq<char>>,
) -> ParameterTexts {
    seq![
        ("sequenceLength"@, decimal_digits(sequence_length as nat)),
        ("sequenceCount"@, decimal_digits(sequence_count as nat)),
        ("matchesCount"@, decimal_digits(matches.len())),
        ("matches"@, joined(matches)),
    ]
}

/// Refuses passwords that hold at least a number of runs of a repeated
/// character.
pub struct RepeatCharactersRule {
    sequence_length: usize,
    sequence_count: usize,
}

impl RepeatCharactersRule {
    #[verifier::type_invariant]
    spec fn settled(&self) -> bool {
        self.sequence_length >= 2 && self.sequence_count >= 1
    }

    /// The least number of equal characters in a row that counts as a run.
    pub closed spec fn min_length(&self) -> usize {
        self.sequence_length
    }

    /// The number of runs from which on a password is refused.
    pub closed spec fn min_count(&self) -> usize {
        self.sequence_count
    }

    /// The runs of a password. A run that reaches the end of a password
    /// that ends in the character U+FFFF is not counted.
    pub open spec fn runs(&self, password: Seq<char>) -> Seq<Seq<char>> {
        long_runs(password.push(sentinel()), password.len() as int, self.min_length() as int)
    }

    /// The result of the rule for a password.
    pub open spec fn outcome(&self, password: Seq<char>) -> ResultView {
        let matches = self.runs(password);
        if matches.len() >= self.min_count() {
            result_of(
                seq![
                    error_detail(
                        "ILLEGAL_REPEATED_CHARS"@,
                        repeats_parameters(self.min_length(), self.min_count(), matches),
                    ),
                ],
                Map::empty(),
            )
        } else {
            result_of(Seq::empty(), Map::empty())
        }
    }

    /// Creates a rule from the length of a run, which must be at least
    /// two, and the number of runs, which must be at least one.
    pub fn new(sequence_length: usize, sequence_count: usize) -> (r: Result<Self, String>)
        ensures
            r is Ok <==> sequence_count >= 1 && sequence_length >= 2,
            r matches Ok(rule) ==> rule.min_length() == sequence_length && rule.min_count()
                == sequence_count,
            r matches Err(message) ==> message@ == (if sequence_count < 1 {
                "sequence count must be > 0"@
            } else {
                "sequence length must be > 2"@
            }),
    {
        if sequence_count < 1 {
            return Err(String::from_str("sequence count must be > 0"));
        }
        if sequence_length < 2 {
            return Err(String::from_str("sequence length must be > 2"));
        }
        Ok(Self { sequence_length, sequence_count })
    }

    /// Creates a rule that refuses a password from its first run on.
    pub fn with_sequence_length(sequence_length: usize) -> (r: Result<Self, String>)
        ensures
            r is Ok <==> sequence_length >= 2,
            r matches Ok(rule) ==> rule.min_length() == sequence_length && rule.min_count() == 1,
            r matches Err(message) ==> message@ == "sequence length must be > 2"@,
    {
        Self::new(sequence_length, 1)
    }

    fn create_rule_result_detail_parameters(&self, matches: &Vec<Vec<char>>) -> (map: Vec<
        (String, String),
    >)
        ensures
            parameter_texts(map@) == repeats_parameters(
                self.min_length(),
                self.min_count(),
                char_texts(matches@),
            ),
    {
        let mut map: Vec<(String, String)> = Vec::new();
        map.push(parameter("sequenceLength", decimal_usize(self.sequence_length)));
        map.push(parameter("sequenceCount", decimal_usize(self.sequence_count)));
        map.push(parameter("matchesCount", decimal_usize(matches.len())));
        map.push(parameter("matches", join(matches)));
        assert(parameter_texts(map@) =~= repeats_parameters(
            self.min_length(),
            self.min_count(),
            char_texts(matches@),
        ));
        map
    }
}

impl Default for RepeatCharactersRule {
    fn default() -> (rule: Self)
        ensures
            rule.min_length() == 5,
            rule.min_count() == 1,
    {
        Self { sequence_length: 5, sequence_count: 1 }
    }
}

impl Rule for RepeatCharactersRule {
    open spec fn admits(&self, data: PasswordView, result: ResultView) -> bool {
        result == self.outcome(data.password)
    }

    fn validate(&self, password_data: &PasswordData) -> (result: RuleResult) {
        proof {
            use_type_invariant(self);
            reveal_strlit("ILLEGAL_REPEATED_CHARS");
        }
        let mut result = RuleResult::default();
        let mut chars = chars_of(password_data.password());
        chars.push('\u{ffff}');
        let max: usize = chars.len() - 1;
        let matches = collect_runs(&chars, self.sequence_length - 1, max);
        if matches.len() >= self.sequence_count {
            result.add_error(
                "ILLEGAL_REPEATED_CHARS",
                Some(self.create_rule_result_detail_parameters(&matches)),
            );
        }
        assert(result@.details =~= self.outcome(password_data@.password).details);
        result
    }

    fn as_has_characters(&self) -> (r: Option<&dyn crate::rule::HasCharacters>) {
        None
    }

    fn as_dictionary_rule(&self) -> (r: Option<&dyn crate::rule::DictionaryRuleTrait>) {
        None
    }
}

} // verus!
