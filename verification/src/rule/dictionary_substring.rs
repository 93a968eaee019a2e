//! A rule that refuses passwords that hold a word of a dictionary.
use crate::dictionary::Dictionary;
use crate::rule::dictionary::{add_word_errors, word_failures};
use crate::rule::rule_result::{result_of, ResultView, RuleResult};
use crate::rule::{optional_text, DictionaryRuleTrait, PasswordData, PasswordView, Rule};
use crate::text::{chars_of, reversed, string_of_range, utf8_len};
use vstd::prelude::*;

verus! {

/// The error code of a word that was found.
pub const ERROR_CODE: &'static str = "ILLEGAL_WORD";

/// The error code of a word that was found backwards.
pub const ERROR_CODE_REVERSED: &'static str = "ILLEGAL_WORD_REVERSED";

/// Refuses passwords that hold a word of a dictionary, or, if asked, hold
/// one when read backwards.
pub struct DictionarySubstringRule<D: Dictionary> {
    dictionary: D,
    match_backwards: bool,
}

/// The first part of the text that the dictionary holds, when the parts of
/// `length` characters are tried from offset `at` on, from left to right,
/// and then the longer parts, each length from the left.
pub open spec fn first_part<D: Dictionary>(dictionary: D, text: Seq<char>, length: int, at: int)
    -> Option<Seq<char>>
    decreases text.len() + 1 - length, text.len() + 1 - at,
{
    if length < 1 || at < 0 || length > text.len() {
        None
    } else if at + length > text.len() {
        first_part(dictionary, text, length + 1, 0)
    } else if dictionary.contains(text.subrange(at, at + length)) {
        Some(text.subrange(at, at + length))
    } else {
        first_part(dictionary, text, length, at + 1)
    }
}

impl<D: Dictionary> DictionarySubstringRule<D> {
    /// The dictionary of the rule.
    pub closed spec fn words(&self) -> D {
        self.dictionary
    }

    /// Whether the password is also searched backwards.
    pub closed spec fn backwards(&self) -> bool {
        self.match_backwards
    }

    /// The word that is found in a text: the shortest part of the text
    /// that the dictionary holds, and of several the leftmost.
    pub open spec fn found(&self, text: Seq<char>) -> Option<Seq<char>> {
        first_part(self.words(), text, 1, 0)
    }

    /// The result of the rule for a password. A password of one byte or
    /// none is not searched backwards.
    pub open spec fn outcome(&self, password: Seq<char>) -> ResultView {
        result_of(
            word_failures(
                self.found(password),
                if self.backwards() && utf8_len(password) > 1 {
                    self.found(password.reverse())
                } else {
                    None
                },
            ),
            Map::empty(),
        )
    }

    /// Creates a rule from a dictionary and the policy on searching
    /// backwards.
    pub fn new(dictionary: D, match_backwards: bool) -> (rule: Self)
        ensures
            rule.words() == dictionary,
            rule.backwards() == match_backwards,
    {
        Self { dictionary, match_backwards }
    }

    /// Creates a rule that searches the password as it is.
    pub fn from_dictionary(dictionary: D) -> (rule: Self)
        ensures
            rule.words() == dictionary,
            !rule.backwards(),
    {
        Self { dictionary, match_backwards: false }
    }

    fn do_word_search(&self, text: &str) -> (word: Option<String>)
        ensures
            optional_text(word) == self.found(text@),
    {
        let chars = chars_of(text);
        let n: usize = chars.len();
        if n == 0 {
            return None;
        }
        let mut i: usize = 1;
        loop
            invariant
                1 <= i <= n,
                n == chars.len(),
                chars@ == text@,
                first_part(self.dictionary, chars@, i as int, 0) == self.found(text@),
            decreases n - i,
        {
            let mut j: usize = 0;
            while j <= n - i
                invariant
                    1 <= i <= n,
                    n == chars.len(),
                    j + i <= n + 1,
                    chars@ == text@,
                    first_part(self.dictionary, chars@, i as int, j as int) == self.found(text@),
                decreases n + 1 - j,
            {
                let s = string_of_range(&chars, j, j + i);
                if self.dictionary.search(s.as_str()) {
                    return Some(s);
                }
                j += 1;
            }
            proof {
                assert(first_part(self.dictionary, chars@, i as int, j as int) == first_part(
                    self.dictionary,
                    chars@,
                    i + 1,
                    0,
                ));
            }
            if i == n {
                proof {
                    assert(first_part(self.dictionary, chars@, n + 1, 0) == None::<Seq<char>>);
                }
                return None;
            }
            i += 1;
        }
    }
}

impl<D: Dictionary> Rule for DictionarySubstringRule<D> {
    open spec fn admits(&self, data: PasswordView, result: ResultView) -> bool {
        result == self.outcome(data.password)
    }

    fn validate(&self, password_data: &PasswordData) -> (result: RuleResult) {
        let mut result = RuleResult::default();
        let text = password_data.password();
        let matching_word = self.do_word_search(text);
        let mut backwards: Option<String> = None;
        if self.match_backwards && text.len() > 1 {
            let text = reversed(text);
            backwards = self.do_word_search(text.as_str());
        }
        add_word_errors(&mut result, matching_word, backwards);
        result
    }

    open spec fn dictionary_size(&self) -> Option<nat> {
        Some(self.words().size())
    }

    fn as_dictionary_rule(&self) -> (r: Option<&dyn DictionaryRuleTrait>)
        ensures
            r is Some,
    {
        Some(self)
    }

    fn as_has_characters(&self) -> (r: Option<&dyn crate::rule::HasCharacters>) {
        None
    }
}

impl<D: Dictionary> DictionaryRuleTrait for DictionarySubstringRule<D> {
    open spec fn dictionary_words(&self) -> nat {
        self.words().size()
    }

    fn dictionary_len(&self) -> (n: usize) {
        self.dictionary.len()
    }
}

} // verus!
