//! Password rules and what they work on.
use crate::rule::reference::{Reference, ReferenceView};
use crate::rule::rule_result::{ResultView, RuleResult};
use vstd::prelude::*;

pub mod allowed_character;
pub mod allowed_regex;
pub mod character;
pub mod character_characteristics;
pub mod character_data;
pub mod character_occurrences;
pub mod character_sequence;
pub mod dictionary;
pub mod dictionary_substring;
pub mod digest_history;
pub mod digest_source;
pub mod history;
pub mod illegal_character;
pub mod illegal_regex;
pub mod illegal_sequence_rule;
pub mod length_rule;
pub mod length_complexity;
pub mod message_resolver;
pub mod number_range;
pub mod password_validator;
pub mod password_utils;
pub mod reference;
pub mod repeat_character;
pub mod repeat_character_regex;
pub mod repeat_characters;
pub mod rule_result;
pub mod sequence_data;
pub mod source;
pub mod username;
pub mod whitespace;

verus! {

/// What a rule reads of the data it validates.
pub struct PasswordView {
    /// The candidate password.
    pub password: Seq<char>,
    /// The user's name, if known.
    pub username: Option<Seq<char>>,
    /// The passwords to compare the candidate with.
    pub references: Seq<ReferenceView>,
}

/// A rule that a password either passes or fails.
pub trait Rule {
    /// Whether `result` is a result that the rule may give for `data`. A
    /// rule whose result is a function of the data admits that one result.
    spec fn admits(&self, data: PasswordView, result: ResultView) -> bool;

    /// Validates the password data against the rule.
    fn validate(&self, password_data: &PasswordData) -> (result: RuleResult)
        ensures
            self.admits(password_data@, result@),
    ;

    /// The characters that the rule is about, if it is about characters.
    open spec fn alphabet(&self) -> Option<Seq<char>> {
        None
    }

    /// The number of words in the rule's dictionary, if it has one.
    open spec fn dictionary_size(&self) -> Option<nat> {
        None
    }

    /// Returns the rule as one that names the characters it is about, if it
    /// is one.
    fn as_has_characters(&self) -> (r: Option<&dyn HasCharacters>)
        ensures
            r is Some <==> self.alphabet() is Some,
            r matches Some(named) ==> self.alphabet() == Some(named.characters_text()),
    ;

    /// Returns the rule as one that has a dictionary, if it is one.
    fn as_dictionary_rule(&self) -> (r: Option<&dyn DictionaryRuleTrait>)
        ensures
            r is Some <==> self.dictionary_size() is Some,
            r matches Some(with) ==> self.dictionary_size() == Some(with.dictionary_words()),
    ;
}

/// A rule that is about a set of characters.
pub trait HasCharacters {
    /// The characters that the rule is about.
    spec fn characters_text(&self) -> Seq<char>;

    /// Returns the characters that the rule is about.
    fn characters(&self) -> (characters: String)
        ensures
            characters@ == self.characters_text(),
    ;
}

/// A rule that looks words up in a dictionary.
pub trait DictionaryRuleTrait {
    /// The number of words in the rule's dictionary.
    spec fn dictionary_words(&self) -> nat;

    /// Returns the number of words in the rule's dictionary.
    fn dictionary_len(&self) -> (n: usize)
        ensures
            n == self.dictionary_words(),
    ;
}

/// Contains password related information used by rules to perform password
/// validation.
pub struct PasswordData {
    password: String,
    username: Option<String>,
    password_references: Vec<Box<dyn Reference>>,
}

/// The views of a list of references.
pub open spec fn reference_views(references: Seq<Box<dyn Reference>>) -> Seq<ReferenceView> {
    Seq::new(references.len(), |i: int| references[i].model())
}

impl View for PasswordData {
    type V = PasswordView;

    closed spec fn view(&self) -> PasswordView {
        PasswordView {
            password: self.password@,
            username: match self.username {
                Some(name) => Some(name@),
                None => None,
            },
            references: reference_views(self.password_references@),
        }
    }
}

/// The text of a name that may be missing.
pub open spec fn optional_text(text: Option<String>) -> Option<Seq<char>> {
    match text {
        Some(t) => Some(t@),
        None => None,
    }
}

impl PasswordData {
    /// Creates data with a password alone.
    pub fn with_password(password: String) -> (data: Self)
        ensures
            data@ == (PasswordView {
                password: password@,
                username: None,
                references: Seq::empty(),
            }),
    {
        let data = Self { password, username: None, password_references: Vec::new() };
        assert(reference_views(data.password_references@) =~= Seq::empty());
        data
    }

    /// Creates data with a password and, if known, the user's name.
    pub fn with_password_and_user(password: String, username: Option<String>) -> (data: Self)
        ensures
            data@ == (PasswordView {
                password: password@,
                username: optional_text(username),
                references: Seq::empty(),
            }),
    {
        let data = Self { password, username, password_references: Vec::new() };
        assert(reference_views(data.password_references@) =~= Seq::empty());
        data
    }

    /// Creates data with a password, the user's name and reference
    /// passwords.
    pub fn new(
        password: String,
        username: Option<String>,
        password_references: Vec<Box<dyn Reference>>,
    ) -> (data: Self)
        ensures
            data@ == (PasswordView {
                password: password@,
                username: optional_text(username),
                references: reference_views(password_references@),
            }),
    {
        Self { password, username, password_references }
    }

    /// Returns the password.
    pub fn password(&self) -> (password: &str)
        ensures
            password@ == self@.password,
    {
        self.password.as_str()
    }

    /// Returns the reference passwords.
    pub fn password_references(&self) -> (references: &Vec<Box<dyn Reference>>)
        ensures
            reference_views(references@) == self@.references,
    {
        &self.password_references
    }

    /// Returns the user's name, if known.
    pub fn username(&self) -> (username: Option<&str>)
        ensures
            username is Some == self@.username is Some,
            username matches Some(name) ==> name@ == self@.username.unwrap(),
    {
        match &self.username {
            Some(name) => Some(name.as_str()),
            None => None,
        }
    }
}

} // verus!
