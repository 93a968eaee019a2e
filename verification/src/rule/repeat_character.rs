//! A rule that refuses runs of one repeated character.
use crate::rule::rule_result::{
    error_detail, first_or_all, parameter, parameter_texts, result_of, DetailView, ResultView, RuleResult,
};
use crate::rule::{PasswordData, PasswordView, Rule};
use crate::text::{chars_of, decimal_digits, decimal_usize};
use vstd::prelude::*;

verus! {

/// The error code of the rule.
pub const ERROR_CODE: &'static str = "ILLEGAL_MATCH";

/// Where the run of equal characters that holds position `at` begins.
pub open spec fn run_start(text: Seq<char>, at: int) -> int
    decreases at,
{
    if at <= 0 || text[at - 1] != text[at] {
        at
    } else {
        run_start(text, at - 1)
    }
}

/// Whether a run of equal characters ends just before position `n`.
pub open spec fn run_ends_at(text: Seq<char>, n: int) -> bool {
    0 < n <= text.len() && (n == text.len() || text[n] != text[n - 1])
}

/// The runs of at least `length` equal characters that end at or before
/// position `n`, each as long as it can be, from left to right.
pub open spec fn long_runs(text: Seq<char>, n: int, length: int) -> Seq<Seq<char>>
    decreases n,
{
    if n <= 0 {
        Seq::empty()
    } else {
        let before = long_runs(text, n - 1, length);
        if run_ends_at(text, n) && n - run_start(text, n - 1) >= length {
            before.push(text.subrange(run_start(text, n - 1), n))
        } else {
            before
        }
    }
}

/// The texts of a list without those that stood in it before.
pub open spec fn distinct_texts(found: Seq<Seq<char>>) -> Seq<Seq<char>>
    decreases found.len(),
{
    if found.len() == 0 {
        Seq::empty()
    } else {
        let before = distinct_texts(found.drop_last());
        if before.contains(found.last()) {
            before
        } else {
            before.push(found.last())
        }
    }
}

/// The detail that reports a run.
pub open spec fn repeat_detail(run: Seq<char>, sequence_length: usize) -> DetailView {
    error_detail(
        "ILLEGAL_MATCH"@,
        seq![("match"@, run), ("sequence_length"@, decimal_digits(sequence_length as nat))],
    )
}

/// The details that report the given runs.
pub open spec fn repeat_details(found: Seq<Seq<char>>, sequence_length: usize) -> Seq<DetailView> {
    Seq::new(found.len(), |i: int| repeat_detail(found[i], sequence_length))
}

/// Refuses passwords that hold a character several times in a row.
pub struct RepeatCharacterRule {
    sequence_length: usize,
    report_all: bool,
}

/// Whether the text stands in the list.
fn holds_text(list: &Vec<Vec<char>>, text: &Vec<char>) -> (r: bool)
    ensures
        r == Seq::new(list@.len(), |i: int| list@[i]@).contains(text@),
{
    let ghost views = Seq::new(list@.len(), |i: int| list@[i]@);
    let mut k: usize = 0;
    while k < list.len()
        invariant
            k <= list.len(),
            views == Seq::new(list@.len(), |i: int| list@[i]@),
            forall|j: int| 0 <= j < k ==> views[j] != text@,
        decreases list.len() - k,
    {
        if same_chars(&list[k], text) {
            assert(views[k as int] == text@);
            return true;
        }
        k += 1;
    }
    false
}

/// Whether two lists of characters are the same.
fn same_chars(a: &Vec<char>, b: &Vec<char>) -> (r: bool)
    ensures
        r == (a@ == b@),
{
    if a.len() != b.len() {
        return false;
    }
    let mut i: usize = 0;
    while i < a.len()
        invariant
            i <= a.len(),
            a.len() == b.len(),
            forall|k: int| 0 <= k < i ==> a@[k] == b@[k],
        decreases a.len() - i,
    {
        if a[i] != b[i] {
            return false;
        }
        i += 1;
    }
    assert(a@ =~= b@);
    true
}

/// Copies the characters at `from..to`.
fn chars_between(chars: &Vec<char>, from: usize, to: usize) -> (part: Vec<char>)
    requires
        from <= to <= chars.len(),
    ensures
        part@ == chars@.subrange(from as int, to as int),
{
    let mut part: Vec<char> = Vec::new();
    let mut i: usize = from;
    while i < to
        invariant
            from <= i <= to <= chars.len(),
            part@ =~= chars@.subrange(from as int, i as int),
        decreases to - i,
    {
        part.push(chars[i]);
        i += 1;
    }
    part
}

impl RepeatCharacterRule {
    #[verifier::type_invariant]
    spec fn long_enough(&self) -> bool {
        self.sequence_length >= 3
    }

    /// The least number of equal characters in a row that is refused.
    pub closed spec fn min_length(&self) -> usize {
        self.sequence_length
    }

    /// Whether every run is reported, or the first alone.
    pub closed spec fn reports_all(&self) -> bool {
        self.report_all
    }

    /// The result of the rule for a password: each long run is reported,
    /// but a text that was reported is not reported again.
    pub open spec fn outcome(&self, password: Seq<char>) -> ResultView {
        result_of(
            repeat_details(
                first_or_all(
                    distinct_texts(
                        long_runs(password, password.len() as int, self.min_length() as int),
                    ),
                    self.reports_all(),
                ),
                self.min_length(),
            ),
            Map::empty(),
        )
    }

    /// Creates a rule that refuses runs of at least `sequence_length`
    /// characters, which must be at least three.
    pub fn new(sequence_length: usize, report_all: bool) -> (r: Result<Self, String>)
        ensures
            r is Ok <==> sequence_length >= 3,
            r matches Ok(rule) ==> rule.min_length() == sequence_length && rule.reports_all()
                == report_all,
            r matches Err(message) ==> message@ == "sequence length must be >= 3"@,
    {
        if sequence_length < 3 {
            return Err(String::from_str("sequence length must be >= 3"));
        }
        Ok(Self { sequence_length, report_all })
    }

    /// Creates a rule that reports every run.
    pub fn with_sequence_len(sequence_len: usize) -> (r: Result<Self, String>)
        ensures
            r is Ok <==> sequence_len >= 3,
            r matches Ok(rule) ==> rule.min_length() == sequence_len && rule.reports_all(),
            r matches Err(message) ==> message@ == "sequence length must be >= 3"@,
    {
        Self::new(sequence_len, true)
    }

    fn create_rule_result_detail_parameters(&self, match_str: &Vec<char>) -> (map: Vec<
        (String, String),
    >)
        ensures
            parameter_texts(map@) == repeat_detail(match_str@, self.min_length()).parameters,
    {
        let mut map: Vec<(String, String)> = Vec::new();
        map.push(parameter("match", crate::text::string_of(match_str)));
        map.push(parameter("sequence_length", decimal_usize(self.sequence_length)));
        assert(parameter_texts(map@) =~= repeat_detail(
            match_str@,
            self.min_length(),
        ).parameters);
        map
    }

    /// Reports a run unless its text was reported before, and says whether
    /// the scan is over.
    fn report(
        &self,
        result: &mut RuleResult,
        matches: &mut Vec<Vec<char>>,
        matched_text: Vec<char>,
        Ghost(all): Ghost<Seq<Seq<char>>>,
    ) -> (done: bool)
        requires
            Seq::new(old(matches)@.len(), |i: int| old(matches)@[i]@) == distinct_texts(all),
            old(result)@ == result_of(
                repeat_details(distinct_texts(all), self.min_length()),
                Map::empty(),
            ),
        ensures
            Seq::new(final(matches)@.len(), |i: int| final(matches)@[i]@) == distinct_texts(
                all.push(matched_text@),
            ),
            final(result)@ == result_of(
                repeat_details(distinct_texts(all.push(matched_text@)), self.min_length()),
                Map::empty(),
            ),
            done == (!self.reports_all() && distinct_texts(all.push(matched_text@)).len() > 0),
    {
        proof {
            reveal_strlit("ILLEGAL_MATCH");
            assert(all.push(matched_text@).drop_last() =~= all);
        }
        let ghost before = Seq::new(matches@.len(), |i: int| matches@[i]@);
        if !holds_text(matches, &matched_text) {
            result.add_error(
                "ILLEGAL_MATCH",
                Some(self.create_rule_result_detail_parameters(&matched_text)),
            );
            matches.push(matched_text);
            proof {
                assert(Seq::new(matches@.len(), |i: int| matches@[i]@) =~= before.push(
                    matched_text@,
                ));
                assert(result@.details =~= repeat_details(
                    distinct_texts(all.push(matched_text@)),
                    self.min_length(),
                ));
            }
            !self.report_all
        } else {
            !self.report_all && matches.len() > 0
        }
    }
}

/// Once a text was found, going on leaves the first text as it is.
proof fn lemma_first_distinct_stays(found: Seq<Seq<char>>, n: int)
    requires
        0 <= n <= found.len(),
        distinct_texts(found.take(n)).len() > 0,
    ensures
        distinct_texts(found).len() > 0,
        distinct_texts(found)[0] == distinct_texts(found.take(n))[0],
    decreases found.len() - n,
{
    if n < found.len() {
        assert(found.take(n + 1).drop_last() =~= found.take(n));
        lemma_first_distinct_stays(found, n + 1);
    } else {
        assert(found.take(n) =~= found);
    }
}

/// The long runs that end by `n` are the first of the long runs that end
/// by `m`.
proof fn lemma_long_runs_grow(text: Seq<char>, n: int, m: int, length: int)
    requires
        0 <= n <= m,
    ensures
        long_runs(text, n, length).len() <= long_runs(text, m, length).len(),
        long_runs(text, m, length).take(long_runs(text, n, length).len() as int) == long_runs(
            text,
            n,
            length,
        ),
    decreases m - n,
{
    if n < m {
        lemma_long_runs_grow(text, n, m - 1, length);
        let shorter = long_runs(text, n, length);
        let before = long_runs(text, m - 1, length);
        assert(long_runs(text, m, length).take(shorter.len() as int) =~= before.take(
            shorter.len() as int,
        ));
    } else {
        assert(long_runs(text, n, length).take(long_runs(text, n, length).len() as int)
            =~= long_runs(text, n, length));
    }
}

impl Rule for RepeatCharacterRule {
    open spec fn admits(&self, data: PasswordView, result: ResultView) -> bool {
        result == self.outcome(data.password)
    }

    fn validate(&self, password_data: &PasswordData) -> (result: RuleResult) {
        proof {
            use_type_invariant(self);
        }
        let mut result = RuleResult::default();
        let mut matches: Vec<Vec<char>> = Vec::new();
        let chars = chars_of(password_data.password());
        let ghost text = chars@;
        let ghost length = self.sequence_length as int;
        let ghost goal = long_runs(text, text.len() as int, length);
        proof {
            assert(Seq::new(matches@.len(), |i: int| matches@[i]@) =~= distinct_texts(
                Seq::empty(),
            ));
            assert(result@.details =~= repeat_details(
                distinct_texts(Seq::empty()),
                self.min_length(),
            ));
        }
        if chars.len() == 0 {
            return result;
        }
        let mut count: usize = 1;
        let mut matched = false;
        let mut sequence_start: usize = 0;
        let mut i: usize = 1;
        while i < chars.len()
            invariant
                1 <= i <= chars.len(),
                text == chars@,
                text == password_data@.password,
                length == self.sequence_length as int,
                length >= 3,
                goal == long_runs(text, text.len() as int, length),
                sequence_start == run_start(text, i - 1),
                sequence_start < i,
                count == i - sequence_start,
                matched == (count >= length),
                !self.report_all ==> distinct_texts(long_runs(text, i - 1, length)).len() == 0,
                Seq::new(matches@.len(), |k: int| matches@[k]@) == distinct_texts(
                    long_runs(text, i - 1, length),
                ),
                result@ == result_of(
                    repeat_details(
                        distinct_texts(long_runs(text, i - 1, length)),
                        self.min_length(),
                    ),
                    Map::empty(),
                ),
            decreases chars.len() - i,
        {
            let ch = chars[i];
            if chars[i - 1] == ch {
                count += 1;
                if count >= self.sequence_length {
                    matched = true;
                }
                proof {
                    assert(long_runs(text, i as int, length) == long_runs(text, i - 1, length));
                }
            } else {
                if matched {
                    let matched_text = chars_between(&chars, sequence_start, i);
                    let done = self.report(
                        &mut result,
                        &mut matches,
                        matched_text,
                        Ghost(long_runs(text, i - 1, length)),
                    );
                    proof {
                        assert(long_runs(text, i as int, length) == long_runs(
                            text,
                            i - 1,
                            length,
                        ).push(matched_text@));
                    }
                    if done {
                        proof {
                            lemma_long_runs_grow(text, i as int, text.len() as int, length);
                            assert(goal.take(long_runs(text, i as int, length).len() as int)
                                == long_runs(text, i as int, length));
                            let one = distinct_texts(long_runs(text, i as int, length));
                            let earlier = long_runs(text, i - 1, length);
                            assert(earlier.push(matched_text@).drop_last() =~= earlier);
                            assert(one.len() == 1);
                            assert(first_or_all(one, false) =~= one);
                            lemma_first_distinct_stays(
                                goal,
                                long_runs(text, i as int, length).len() as int,
                            );
                            assert(result@.details =~= self.outcome(text).details);
                        }
                        return result;
                    }
                    matched = false;
                } else {
                    proof {
                        assert(long_runs(text, i as int, length) == long_runs(
                            text,
                            i - 1,
                            length,
                        ));
                    }
                }
                count = 1;
                sequence_start = i;
            }
            i += 1;
        }
        proof {
            assert(goal == if matched {
                long_runs(text, i - 1, length).push(
                    text.subrange(sequence_start as int, text.len() as int),
                )
            } else {
                long_runs(text, i - 1, length)
            });
        }
        if matched {
            let matched_text = chars_between(&chars, sequence_start, chars.len());
            let ghost before = distinct_texts(long_runs(text, i - 1, length));
            self.report(
                &mut result,
                &mut matches,
                matched_text,
                Ghost(long_runs(text, i - 1, length)),
            );
            proof {
                let one = distinct_texts(goal);
                if !self.report_all {
                    let earlier = long_runs(text, i - 1, length);
                    let last = text.subrange(sequence_start as int, text.len() as int);
                    assert(earlier.push(last).drop_last() =~= earlier);
                    assert(one.len() == 1);
                    assert(first_or_all(one, false) =~= one);
                }
                assert(result@.details =~= self.outcome(text).details);
            }
        }
        result
    }

    fn as_has_characters(&self) -> (r: Option<&dyn crate::rule::HasCharacters>) {
        None
    }

    fn as_dictionary_rule(&self) -> (r: Option<&dyn crate::rule::DictionaryRuleTrait>) {
        None
    }
}

impl Default for RepeatCharacterRule {
    fn default() -> (rule: Self)
        ensures
            rule.min_length() == 5,
            rule.reports_all(),
    {
        Self { sequence_length: 5, report_all: true }
    }
}


/// The texts of a list of character lists.
pub open spec fn char_texts(list: Seq<Vec<char>>) -> Seq<Seq<char>> {
    Seq::new(list.len(), |i: int| list[i]@)
}

/// Collects the runs of more than `more_than` equal characters that end
/// at or before position `upto`.
pub(crate) fn collect_runs(chars: &Vec<char>, more_than: usize, upto: usize) -> (runs: Vec<Vec<char>>)
    requires
        upto <= chars.len(),
    ensures
        char_texts(runs@) == long_runs(chars@, upto as int, more_than + 1),
{
    let mut runs: Vec<Vec<char>> = Vec::new();
    let mut start: usize = 0;
    let mut n: usize = 1;
    proof {
        assert(char_texts(runs@) =~= long_runs(chars@, 0, more_than + 1));
    }
    while n <= upto
        invariant
            1 <= n <= upto + 1,
            upto <= chars.len(),
            start < n,
            start == run_start(chars@, n - 1),
            char_texts(runs@) == long_runs(chars@, n - 1, more_than + 1),
        decreases upto + 1 - n,
    {
        let ends = n == chars.len() || chars[n] != chars[n - 1];
        if ends {
            if n - start > more_than {
                let run = chars_between(chars, start, n);
                let ghost before = char_texts(runs@);
                runs.push(run);
                proof {
                    assert(char_texts(runs@) =~= before.push(run@));
                }
            }
            start = n;
        }
        if n == upto {
            proof {
                assert(char_texts(runs@) == long_runs(chars@, upto as int, more_than + 1));
            }
            return runs;
        }
        n += 1;
    }
    runs
}

} // verus!
