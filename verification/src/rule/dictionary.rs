//! A rule that refuses passwords that are words of a dictionary.
use crate::dictionary::Dictionary;
use crate::rule::rule_result::{
    error_detail, parameter, parameter_texts, result_of, DetailView, ParameterTexts, ResultView,
    RuleResult,
};
use crate::rule::{optional_text, DictionaryRuleTrait, PasswordData, PasswordView, Rule};
use crate::text::{reversed, utf8_len};
use vstd::prelude::*;

verus! {

/// The error code of a word that was found.
pub const ERROR_CODE: &'static str = "ILLEGAL_WORD";

/// The error code of a word that was found backwards.
pub const ERROR_CODE_REVERSED: &'static str = "ILLEGAL_WORD_REVERSED";

/// The named value of a failure: the word that was found.
pub open spec fn word_parameters(word: Seq<char>) -> ParameterTexts {
    seq![("matchingWord"@, word)]
}

/// The failures of a password of which `forwards` was found as it is and
/// `backwards` when it was read backwards.
pub open spec fn word_failures(forwards: Option<Seq<char>>, backwards: Option<Seq<char>>) -> Seq<
    DetailView,
> {
    let first = match forwards {
        Some(word) => seq![error_detail("ILLEGAL_WORD"@, word_parameters(word))],
        None => Seq::<DetailView>::empty(),
    };
    match backwards {
        Some(word) => first.push(error_detail("ILLEGAL_WORD_REVERSED"@, word_parameters(word))),
        None => first,
    }
}

/// Adds to a result the failures for the words that were found.
pub(crate) fn add_word_errors(
    result: &mut RuleResult,
    forwards: Option<String>,
    backwards: Option<String>,
)
    requires
        old(result)@ == result_of(Seq::empty(), Map::empty()),
    ensures
        final(result)@ == result_of(
            word_failures(optional_text(forwards), optional_text(backwards)),
            Map::empty(),
        ),
{
    proof {
        reveal_strlit("ILLEGAL_WORD");
        reveal_strlit("ILLEGAL_WORD_REVERSED");
    }
    if let Some(m) = forwards {
        let mut map: Vec<(String, String)> = Vec::new();
        map.push(parameter("matchingWord", m));
        assert(parameter_texts(map@) =~= word_parameters(m@));
        result.add_error("ILLEGAL_WORD", Some(map));
    }
    if let Some(m) = backwards {
        let mut map: Vec<(String, String)> = Vec::new();
        map.push(parameter("matchingWord", m));
        assert(parameter_texts(map@) =~= word_parameters(m@));
        result.add_error("ILLEGAL_WORD_REVERSED", Some(map));
    }
    assert(result@.details =~= word_failures(
        optional_text(forwards),
        optional_text(backwards),
    ));
}

/// Refuses passwords that are a word of a dictionary, or, if asked, are
/// one when read backwards.
pub struct DictionaryRule<D: Dictionary> {
    dictionary: D,
    match_backwards: bool,
}

impl<D: Dictionary> DictionaryRule<D> {
    /// The dictionary of the rule.
    pub closed spec fn words(&self) -> D {
        self.dictionary
    }

    /// Whether the password is also looked up backwards.
    pub closed spec fn backwards(&self) -> bool {
        self.match_backwards
    }

    /// The word that is found for a text: the text itself, if the
    /// dictionary holds it.
    pub open spec fn found(&self, text: Seq<char>) -> Option<Seq<char>> {
        if self.words().contains(text) {
            Some(text)
        } else {
            None
        }
    }

    /// The result of the rule for a password. A password of one byte or
    /// none is not looked up backwards.
    pub open spec fn outcome(&self, password: Seq<char>) -> ResultView {
        result_of(
            word_failures(
                self.found(password),
                if self.backwards() && utf8_len(password) > 1 {
                    self.found(password.reverse())
                } else {
                    None
                },
            ),
            Map::empty(),
        )
    }

    /// Creates a rule from a dictionary and the policy on looking up
    /// backwards.
    pub fn new(dictionary: D, match_backwards: bool) -> (rule: Self)
        ensures
            rule.words() == dictionary,
            rule.backwards() == match_backwards,
    {
        Self { dictionary, match_backwards }
    }

    /// Creates a rule that looks the password up as it is.
    pub fn from_dictionary(dictionary: D) -> (rule: Self)
        ensures
            rule.words() == dictionary,
            !rule.backwards(),
    {
        Self { dictionary, match_backwards: false }
    }

    fn do_word_search(&self, text: &str) -> (word: Option<String>)
        ensures
            optional_text(word) == self.found(text@),
    {
        match self.dictionary.search(text) {
            true => Some(String::from_str(text)),
            false => None,
        }
    }
}

impl<D: Dictionary> Rule for DictionaryRule<D> {
    open spec fn admits(&self, data: PasswordView, result: ResultView) -> bool {
        result == self.outcome(data.password)
    }

    fn validate(&self, password_data: &PasswordData) -> (result: RuleResult) {
        let mut result = RuleResult::default();
        let text = password_data.password();
        let matching_word = self.do_word_search(text);
        let mut backwards: Option<String> = None;
        if self.match_backwards && text.len() > 1 {
            let text = reversed(text);
            backwards = self.do_word_search(text.as_str());
        }
        add_word_errors(&mut result, matching_word, backwards);
        result
    }

    open spec fn dictionary_size(&self) -> Option<nat> {
        Some(self.words().size())
    }

    fn as_dictionary_rule(&self) -> (r: Option<&dyn DictionaryRuleTrait>)
        ensures
            r is Some,
    {
        Some(self)
    }

    fn as_has_characters(&self) -> (r: Option<&dyn crate::rule::HasCharacters>) {
        None
    }
}

impl<D: Dictionary> DictionaryRuleTrait for DictionaryRule<D> {
    open spec fn dictionary_words(&self) -> nat {
        self.words().size()
    }

    fn dictionary_len(&self) -> (n: usize) {
        self.dictionary.len()
    }
}

} // verus!
