//! A rule that bounds the number of times that a character may occur.
use crate::rule::illegal_sequence_rule::sentinel;
use crate::rule::repeat_character::{char_texts, collect_runs, long_runs, run_start};
use crate::rule::rule_result::{
    error_detail, parameter, parameter_texts, result_of, DetailView, ResultView, RuleResult,
};
use crate::rule::{PasswordData, PasswordView, Rule};
use crate::text::{char_string, chars_of, decimal_digits, decimal_usize};
use vstd::prelude::*;

verus! {

/// The error code of the rule.
pub const ERROR_CODE: &'static str = "TOO_MANY_OCCURRENCES";

/// The list with `c` put in after the last member that is not greater.
pub open spec fn inserted(sorted: Seq<char>, c: char) -> Seq<char>
    decreases sorted.len(),
{
    if sorted.len() == 0 {
        seq![c]
    } else if (sorted.last() as int) <= (c as int) {
        sorted.push(c)
    } else {
        inserted(sorted.drop_last(), c).push(sorted.last())
    }
}

/// The characters of a text in ascending order.
pub open spec fn sorted_chars(text: Seq<char>) -> Seq<char>
    decreases text.len(),
{
    if text.len() == 0 {
        Seq::empty()
    } else {
        inserted(sorted_chars(text.drop_last()), text.last())
    }
}

proof fn lemma_inserted_len(sorted: Seq<char>, c: char)
    ensures
        inserted(sorted, c).len() == sorted.len() + 1,
    decreases sorted.len(),
{
    if sorted.len() > 0 && (sorted.last() as int) > (c as int) {
        lemma_inserted_len(sorted.drop_last(), c);
    }
}

/// Puts a character into a list in ascending order.
fn insert_sorted(sorted: &mut Vec<char>, c: char)
    ensures
        final(sorted)@ == inserted(old(sorted)@, c),
{
    let ghost start = sorted@;
    sorted.push(c);
    let mut j: usize = sorted.len() - 1;
    proof {
        assert(sorted@.take(j as int) =~= start);
        assert(sorted@.skip(j + 1) =~= Seq::<char>::empty());
        lemma_inserted_len(start, c);
        assert(start.take(j as int) =~= start);
        assert(start.skip(j as int) =~= Seq::<char>::empty());
        assert(inserted(start, c) + Seq::<char>::empty() =~= inserted(start, c));
    }
    while j > 0 && sorted[j - 1] > c
        invariant
            j < sorted.len(),
            sorted.len() == start.len() + 1,
            sorted@[j as int] == c,
            sorted@.take(j as int) == start.take(j as int),
            sorted@.skip(j + 1) == start.skip(j as int),
            inserted(start, c) == inserted(start.take(j as int), c) + start.skip(j as int),
        decreases j,
    {
        let ghost before = sorted@;
        let moved = sorted[j - 1];
        sorted[j] = moved;
        sorted[j - 1] = c;
        proof {
            let head = start.take(j as int);
            assert(head.last() == moved);
            assert(head.drop_last() =~= start.take(j - 1));
            assert(inserted(head, c) == inserted(head.drop_last(), c).push(moved));
            assert(inserted(start.take(j - 1), c).push(moved) + start.skip(j as int) =~= inserted(
                start.take(j - 1),
                c,
            ) + start.skip(j - 1));
            assert(sorted@.take(j - 1) =~= before.take(j as int).take(j - 1));
            assert(start.take(j as int).take(j - 1) =~= start.take(j - 1));
            assert forall|k: int| j < k < sorted@.len() implies sorted@[k] == start[k - 1] by {
                assert(before.skip(j + 1)[k - j - 1] == before[k]);
                assert(start.skip(j as int)[k - j - 1] == start[k - 1]);
            }
            assert(sorted@.skip(j as int) =~= start.skip(j - 1));
        }
        j -= 1;
    }
    proof {
        let head = start.take(j as int);
        if j > 0 {
            assert(head.last() == sorted@[j - 1]);
        }
        assert(inserted(head, c) =~= head.push(c));
        assert(sorted@ =~= head.push(c) + start.skip(j as int));
        assert(start.take(start.len() as int) =~= start);
        assert(start.skip(0) =~= start);
    }
}

/// Sorts characters in ascending order.
fn sort_chars(text: &Vec<char>) -> (sorted: Vec<char>)
    ensures
        sorted@ == sorted_chars(text@),
{
    let mut sorted: Vec<char> = Vec::new();
    let mut i: usize = 0;
    proof {
        assert(text@.take(0) =~= Seq::<char>::empty());
    }
    while i < text.len()
        invariant
            i <= text.len(),
            sorted@ == sorted_chars(text@.take(i as int)),
        decreases text.len() - i,
    {
        proof {
            assert(text@.take(i + 1).drop_last() =~= text@.take(i as int));
        }
        insert_sorted(&mut sorted, text[i]);
        i += 1;
    }
    proof {
        assert(text@.take(i as int) =~= text@);
    }
    sorted
}

/// The detail that reports a character that occurs too often.
pub open spec fn occurrences_detail(run: Seq<char>, max_occurrences: usize) -> DetailView {
    error_detail(
        "TOO_MANY_OCCURRENCES"@,
        seq![
            ("matchingCharacter"@, seq![run[0]]),
            ("matchingCharacterCount"@, decimal_digits(run.len())),
            ("maximumOccurrences"@, decimal_digits(max_occurrences as nat)),
        ],
    )
}

/// Refuses passwords in which a character occurs more than a number of
/// times.
#[derive(Debug, Clone)]
pub struct CharacterOccurrences {
    max_occurrences: usize,
}

impl CharacterOccurrences {
    /// The greatest number of occurrences that passes.
    pub closed spec fn greatest(&self) -> usize {
        self.max_occurrences
    }

    /// The characters of the password and U+FFFF after them, sorted, and
    /// of this the groups of more than the allowed number of equal
    /// characters, but for the last group.
    pub open spec fn groups(&self, password: Seq<char>) -> Seq<Seq<char>> {
        long_runs(
            sorted_chars(password.push(sentinel())),
            sorted_chars(password.push(sentinel())).len() - 1,
            self.greatest() + 1,
        )
    }

    /// The result of the rule for a password: the characters that occur
    /// too often are reported in ascending order.
    pub open spec fn outcome(&self, password: Seq<char>) -> ResultView {
        let found = self.groups(password);
        result_of(
            Seq::new(found.len(), |i: int| occurrences_detail(found[i], self.greatest())),
            Map::empty(),
        )
    }

    /// Creates a rule that lets a character occur up to a number of times.
    pub fn new(max_occurrences: usize) -> (rule: Self)
        ensures
            rule.greatest() == max_occurrences,
    {
        Self { max_occurrences }
    }

    fn create_rule_result_detail_parameters(&self, c: char, repeat: usize) -> (map: Vec<
        (String, String),
    >)
        ensures
            parameter_texts(map@) == seq![
                ("matchingCharacter"@, seq![c]),
                ("matchingCharacterCount"@, decimal_digits(repeat as nat)),
                ("maximumOccurrences"@, decimal_digits(self.greatest() as nat)),
            ],
    {
        let mut map: Vec<(String, String)> = Vec::new();
        map.push(parameter("matchingCharacter", char_string(c)));
        map.push(parameter("matchingCharacterCount", decimal_usize(repeat)));
        map.push(parameter("maximumOccurrences", decimal_usize(self.max_occurrences)));
        assert(parameter_texts(map@) =~= seq![
            ("matchingCharacter"@, seq![c]),
            ("matchingCharacterCount"@, decimal_digits(repeat as nat)),
            ("maximumOccurrences"@, decimal_digits(self.greatest() as nat)),
        ]);
        map
    }
}

proof fn lemma_long_runs_not_empty(text: Seq<char>, n: int, length: int)
    requires
        length >= 1,
        0 <= n <= text.len(),
    ensures
        forall|i: int|
            0 <= i < long_runs(text, n, length).len() ==> (#[trigger] long_runs(
                text,
                n,
                length,
            )[i]).len() >= 1,
    decreases n,
{
    if n > 0 {
        lemma_long_runs_not_empty(text, n - 1, length);
        lemma_run_start_bounds(text, n - 1);
        let before = long_runs(text, n - 1, length);
        let now = long_runs(text, n, length);
        assert forall|i: int| 0 <= i < now.len() implies (#[trigger] now[i]).len() >= 1 by {
            if i < before.len() {
                assert(now[i] == before[i]);
            }
        }
    }
}

proof fn lemma_run_start_bounds(text: Seq<char>, at: int)
    requires
        0 <= at,
    ensures
        0 <= run_start(text, at) <= at,
    decreases at,
{
    if at > 0 && text[at - 1] == text[at] {
        lemma_run_start_bounds(text, at - 1);
    }
}

impl Rule for CharacterOccurrences {
    open spec fn admits(&self, data: PasswordView, result: ResultView) -> bool {
        result == self.outcome(data.password)
    }

    fn validate(&self, password_data: &PasswordData) -> (result: RuleResult) {
        let mut result = RuleResult::default();
        let mut password = chars_of(password_data.password());
        password.push('\u{ffff}');
        let chars = sort_chars(&password);
        proof {
            reveal_strlit("TOO_MANY_OCCURRENCES");
            lemma_sorted_len(password@);
        }
        let found = collect_runs(&chars, self.max_occurrences, chars.len() - 1);
        let ghost groups = char_texts(found@);
        proof {
            lemma_long_runs_not_empty(chars@, chars@.len() - 1, self.max_occurrences + 1);
            assert(result@.details =~= Seq::new(
                0,
                |i: int| occurrences_detail(groups[i], self.max_occurrences),
            ));
        }
        let mut k: usize = 0;
        while k < found.len()
            invariant
                k <= found.len(),
                groups == char_texts(found@),
                "TOO_MANY_OCCURRENCES"@.len() > 0,
                forall|i: int| 0 <= i < groups.len() ==> (#[trigger] groups[i]).len() >= 1,
                result@ == result_of(
                    Seq::new(
                        k as nat,
                        |i: int| occurrences_detail(groups[i], self.max_occurrences),
                    ),
                    Map::empty(),
                ),
            decreases found.len() - k,
        {
            let run = &found[k];
            assert(groups[k as int] == run@);
            result.add_error(
                "TOO_MANY_OCCURRENCES",
                Some(self.create_rule_result_detail_parameters(run[0], run.len())),
            );
            proof {
                assert(result@.details =~= Seq::new(
                    (k + 1) as nat,
                    |i: int| occurrences_detail(groups[i], self.max_occurrences),
                ));
            }
            k += 1;
        }
        result
    }

    fn as_has_characters(&self) -> (r: Option<&dyn crate::rule::HasCharacters>) {
        None
    }

    fn as_dictionary_rule(&self) -> (r: Option<&dyn crate::rule::DictionaryRuleTrait>) {
        None
    }
}

proof fn lemma_sorted_len(text: Seq<char>)
    ensures
        sorted_chars(text).len() == text.len(),
    decreases text.len(),
{
    if text.len() > 0 {
        lemma_sorted_len(text.drop_last());
        lemma_inserted_len(sorted_chars(text.drop_last()), text.last());
    }
}

} // verus!
