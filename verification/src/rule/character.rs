//! A rule that asks for a number of characters of a set.
use crate::rule::character_data::CharacterData;
use crate::rule::password_utils::{
    count_matching_characters, first_matching_characters, get_matching_characters,
    matching_characters,
};
use crate::rule::rule_result::{
    error_detail, parameter, parameter_texts, CountCategory, ParameterTexts,
    ResultView, RuleResult, RuleResultMetadata,
};
use crate::rule::{PasswordData, PasswordView, Rule};
use crate::text::{decimal_digits, decimal_usize, utf8_len};
use vstd::prelude::*;

verus! {

/// Asks that a password hold at least a number of characters of a set.
pub struct CharacterRule {
    characters: String,
    error_code: String,
    count_category: Option<CountCategory>,
    num_characters: usize,
}

/// The counts of a rule about a set of characters: the number of
/// characters of the password that are in the set, under the set's
/// category, if it has one.
pub open spec fn character_counts(
    category: Option<CountCategory>,
    characters: Seq<char>,
    password: Seq<char>,
) -> Map<CountCategory, usize> {
    match category {
        Some(c) => Map::<CountCategory, usize>::empty().insert(
            c,
            matching_characters(characters, password).len() as usize,
        ),
        None => Map::empty(),
    }
}

/// The named values of a failure: the number required, the length in
/// bytes of the matching characters, the set, and the matching characters.
pub open spec fn character_parameters(
    num_characters: usize,
    characters: Seq<char>,
    matching: Seq<char>,
) -> ParameterTexts {
    seq![
        ("minimumRequired"@, decimal_digits(num_characters as nat)),
        ("matchingCharacterCount"@, decimal_digits(utf8_len(matching) as nat)),
        ("validCharacters"@, characters),
        ("matchingCharacters"@, matching),
    ]
}

impl CharacterRule {
    #[verifier::type_invariant]
    spec fn coded(&self) -> bool {
        self.error_code@.len() > 0
    }

    /// The characters of the rule's set.
    pub closed spec fn characters_text(&self) -> Seq<char> {
        self.characters@
    }

    /// The error code of the rule's set.
    pub closed spec fn code(&self) -> Seq<char> {
        self.error_code@
    }

    /// The count category of the rule's set.
    pub closed spec fn category(&self) -> Option<CountCategory> {
        self.count_category
    }

    /// The number of characters that the rule asks for.
    pub closed spec fn required(&self) -> usize {
        self.num_characters
    }

    /// The result of the rule for a password. The characters of the set
    /// are gathered up to the number required, and the password fails if
    /// they take fewer bytes than that number.
    pub open spec fn outcome(&self, password: Seq<char>) -> ResultView {
        let characters = self.characters_text();
        let matching = first_matching_characters(characters, password, self.required() as nat);
        let counts = character_counts(self.category(), characters, password);
        if utf8_len(matching) < self.required() {
            ResultView {
                valid: false,
                details: seq![
                    error_detail(
                        self.code(),
                        character_parameters(self.required(), characters, matching),
                    ),
                ],
                counts,
            }
        } else {
            ResultView { valid: true, details: Seq::empty(), counts }
        }
    }

    /// Creates a rule that asks for the given number of characters, which
    /// must be at least one.
    pub fn new(character_data: Box<dyn CharacterData>, num_characters: usize) -> (r: Result<
        CharacterRule,
        String,
    >)
        ensures
            r is Ok <==> num_characters >= 1,
            r matches Ok(rule) ==> rule.characters_text() == character_data.characters_text()
                && rule.code() == character_data.code() && rule.category()
                == character_data.category() && rule.required() == num_characters,
            r matches Err(message) ==> message@
                == "Number of characters must be greater than zero"@,
    {
        if num_characters < 1 {
            return Err(String::from_str("Number of characters must be greater than zero"));
        }
        Ok(
            CharacterRule {
                characters: String::from_str(character_data.characters()),
                error_code: String::from_str(character_data.error_code()),
                count_category: character_data.count_category(),
                num_characters,
            },
        )
    }

    /// Creates a rule that asks for one character.
    pub fn from_character_data(character_data: Box<dyn CharacterData>) -> (rule: CharacterRule)
        ensures
            rule.characters_text() == character_data.characters_text(),
            rule.code() == character_data.code(),
            rule.category() == character_data.category(),
            rule.required() == 1,
    {
        CharacterRule {
            characters: String::from_str(character_data.characters()),
            error_code: String::from_str(character_data.error_code()),
            count_category: character_data.count_category(),
            num_characters: 1,
        }
    }

    /// Returns the characters of the rule's set.
    pub fn valid_characters(&self) -> (characters: &str)
        ensures
            characters@ == self.characters_text(),
    {
        self.characters.as_str()
    }

    /// Returns the number of characters that the rule asks for.
    pub fn num_characters(&self) -> (n: usize)
        ensures
            n == self.required(),
    {
        self.num_characters
    }

    fn create_rule_result_detail_parameters(&self, matching_chars: String) -> (map: Vec<
        (String, String),
    >)
        ensures
            parameter_texts(map@) == character_parameters(
                self.required(),
                self.characters_text(),
                matching_chars@,
            ),
    {
        let mut map: Vec<(String, String)> = Vec::new();
        map.push(parameter("minimumRequired", decimal_usize(self.num_characters)));
        map.push(
            parameter("matchingCharacterCount", decimal_usize(matching_chars.as_str().len())),
        );
        map.push(
            parameter("validCharacters", self.characters.clone()),
        );
        map.push(parameter("matchingCharacters", matching_chars));
        assert(parameter_texts(map@) =~= character_parameters(
            self.required(),
            self.characters_text(),
            matching_chars@,
        ));
        map
    }

    /// Counts the characters of the password that are in the rule's set.
    pub fn create_rule_result_metadata(&self, password_data: &PasswordData) -> (metadata:
        RuleResultMetadata)
        ensures
            metadata@ == character_counts(
                self.category(),
                self.characters_text(),
                password_data@.password,
            ),
    {
        if let Some(cc) = self.count_category {
            return RuleResultMetadata::new(
                cc,
                count_matching_characters(self.characters.as_str(), password_data.password()),
            );
        }
        RuleResultMetadata::default()
    }
}

impl Rule for CharacterRule {
    open spec fn admits(&self, data: PasswordView, result: ResultView) -> bool {
        result == self.outcome(data.password)
    }

    fn validate(&self, password_data: &PasswordData) -> (result: RuleResult) {
        proof {
            use_type_invariant(self);
        }
        let matching_chars = get_matching_characters(
            self.characters.as_str(),
            password_data.password(),
            self.num_characters,
        );
        if matching_chars.as_str().len() < self.num_characters {
            let mut result = RuleResult::new(false);
            let params = self.create_rule_result_detail_parameters(matching_chars);
            result.add_error(self.error_code.as_str(), Some(params));
            result.set_metadata(self.create_rule_result_metadata(password_data));
            assert(result@.details =~= self.outcome(password_data@.password).details);
            result
        } else {
            let mut result = RuleResult::default();
            result.set_metadata(self.create_rule_result_metadata(password_data));
            result
        }
    }

    open spec fn alphabet(&self) -> Option<Seq<char>> {
        Some(self.characters_text())
    }

    fn as_has_characters(&self) -> (r: Option<&dyn crate::rule::HasCharacters>)
        ensures
            r is Some,
    {
        Some(self)
    }

    fn as_dictionary_rule(&self) -> (r: Option<&dyn crate::rule::DictionaryRuleTrait>) {
        None
    }
}


impl crate::rule::HasCharacters for CharacterRule {
    open spec fn characters_text(&self) -> Seq<char> {
        CharacterRule::characters_text(self)
    }

    fn characters(&self) -> (characters: String) {
        self.characters.clone()
    }
}

} // verus!
