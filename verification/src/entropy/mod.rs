//! Estimates of the entropy of a password, as far as they are made of
//! whole numbers: the sizes that the estimate for random passwords rests
//! on, and the estimate for chosen passwords in half bits.
use crate::rule::password_utils::{count_matching_characters, matching_characters};
use crate::rule::rule_result::distinct_offenders;
use crate::rule::{PasswordData, Rule};
use crate::text::{chars_of, contains_char, utf8_len};
use vstd::prelude::*;

verus! {

/// The sizes from which the entropy of a randomly generated password is
/// estimated: the size of the alphabet and the length of the password.
pub struct RandomPasswordEntropy {
    alphabet_size: usize,
    password_size: usize,
}

/// The members of a list, each once, in the order of their first
/// occurrence.
pub open spec fn distinct_chars(characters: Seq<char>) -> Seq<char> {
    distinct_offenders(characters, |c: char| true, characters.len() as int)
}

/// Returns the members of a list, each once, in the order of their first
/// occurrence.
pub(crate) fn unique_chars(characters: &Vec<char>) -> (unique: Vec<char>)
    ensures
        unique@ == distinct_chars(characters@),
{
    let ghost any = |c: char| true;
    let mut unique: Vec<char> = Vec::new();
    let mut i: usize = 0;
    while i < characters.len()
        invariant
            i <= characters.len(),
            any == (|c: char| true),
            unique@ == distinct_offenders(characters@, any, i as int),
        decreases characters.len() - i,
    {
        let c = characters[i];
        if !contains_char(&unique, c) {
            unique.push(c);
        }
        i += 1;
    }
    unique
}

impl RandomPasswordEntropy {
    /// The number of distinct characters that a password may be made of.
    pub closed spec fn alphabet(&self) -> usize {
        self.alphabet_size
    }

    /// The length of the password in bytes.
    pub closed spec fn length(&self) -> usize {
        self.password_size
    }

    /// Creates the sizes from the characters that passwords are made of,
    /// which must not be empty, and a password.
    pub fn of_alphabet(characters: &Vec<char>, password_data: &PasswordData) -> (r: Result<
        Self,
        &'static str,
    >)
        ensures
            r is Ok <==> characters@.len() > 0,
            r matches Ok(entropy) ==> entropy.alphabet() == distinct_chars(characters@).len()
                && entropy.length() == utf8_len(password_data@.password),
            r matches Err(message) ==> message@
                == "Password rules must contain at least 1 unique character by CharacterRule definition"@,
    {
        let unique = unique_chars(characters);
        if unique.len() == 0 {
            proof {
                lemma_distinct_not_empty(characters@, characters@.len() as int);
            }
            return Err(
                "Password rules must contain at least 1 unique character by CharacterRule definition",
            );
        }
        Ok(
            RandomPasswordEntropy {
                alphabet_size: unique.len(),
                password_size: password_data.password().len(),
            },
        )
    }

    /// Creates the sizes from the rules that name the characters they are
    /// about, and a password. It fails where the rules name no character.
    pub fn new(rules: &[Box<dyn Rule>], password_data: &PasswordData) -> (r: Result<
        Self,
        &'static str,
    >)
        ensures
            r is Ok <==> named_characters(rules@).len() > 0,
            r matches Ok(entropy) ==> entropy.alphabet() == distinct_chars(
                named_characters(rules@),
            ).len() && entropy.length() == utf8_len(password_data@.password),
            r matches Err(message) ==> message@
                == "Password rules must contain at least 1 unique character by CharacterRule definition"@,
    {
        let mut characters: Vec<char> = Vec::new();
        let mut i: usize = 0;
        proof {
            assert(rules@.take(0) =~= Seq::<Box<dyn Rule>>::empty());
        }
        while i < rules.len()
            invariant
                i <= rules@.len(),
                characters@ == named_characters(rules@.take(i as int)),
            decreases rules@.len() - i,
        {
            proof {
                assert(rules@.take(i + 1).drop_last() =~= rules@.take(i as int));
                assert(rules@.take(i + 1).last() == rules@[i as int]);
            }
            if let Some(ccc) = rules[i].as_has_characters() {
                let named = ccc.characters();
                let mut more = chars_of(named.as_str());
                characters.append(&mut more);
            }
            i += 1;
        }
        proof {
            assert(rules@.take(i as int) =~= rules@);
        }
        Self::of_alphabet(&characters, password_data)
    }

    /// Returns the number of distinct characters.
    pub fn alphabet_size(&self) -> (n: usize)
        ensures
            n == self.alphabet(),
    {
        self.alphabet_size
    }

    /// Returns the length of the password in bytes.
    pub fn password_size(&self) -> (n: usize)
        ensures
            n == self.length(),
    {
        self.password_size
    }
}

/// The characters that the rules name, one rule after the other; a rule
/// that is not about characters names none.
pub open spec fn named_characters(rules: Seq<Box<dyn Rule>>) -> Seq<char>
    decreases rules.len(),
{
    if rules.len() == 0 {
        Seq::empty()
    } else {
        let before = named_characters(rules.drop_last());
        match rules.last().alphabet() {
            Some(characters) => before + characters,
            None => before,
        }
    }
}

/// The number of words in the dictionary of the first rule that has a
/// dictionary, if a rule has one.
pub open spec fn first_dictionary_size(rules: Seq<Box<dyn Rule>>) -> Option<nat>
    decreases rules.len(),
{
    if rules.len() == 0 {
        None
    } else {
        match first_dictionary_size(rules.drop_last()) {
            Some(size) => Some(size),
            None => rules.last().dictionary_size(),
        }
    }
}

/// Once a rule has a dictionary, later rules do not change which is the
/// first.
proof fn lemma_first_dictionary_stays(rules: Seq<Box<dyn Rule>>, n: int)
    requires
        0 <= n <= rules.len(),
        first_dictionary_size(rules.take(n)) is Some,
    ensures
        first_dictionary_size(rules) == first_dictionary_size(rules.take(n)),
    decreases rules.len() - n,
{
    if n < rules.len() {
        assert(rules.take(n + 1).drop_last() =~= rules.take(n));
        lemma_first_dictionary_stays(rules, n + 1);
    } else {
        assert(rules.take(n) =~= rules);
    }
}

/// Of a list that is not empty, some member is left when each is taken
/// once; of an empty list, none.
pub(crate) proof fn lemma_distinct_not_empty(characters: Seq<char>, n: int)
    requires
        0 <= n <= characters.len(),
    ensures
        distinct_offenders(characters, |c: char| true, n).len() > 0 <==> n > 0,
    decreases n,
{
    if n > 0 {
        lemma_distinct_not_empty(characters, n - 1);
    }
}

/// Bonus in half bits for a password that passes a dictionary check, by
/// its length less one; longer passwords get that of the last entry.
pub open spec fn dictionary_sieve() -> Seq<int> {
    seq![0, 0, 0, 4, 5, 6, 6, 6, 5, 5, 4, 4, 3, 3, 2, 2, 1, 1, 0]
}

/// Bonus in half bits for a password with characters of all kinds, by its
/// length less one; longer passwords get that of the last entry.
pub open spec fn composition_sieve() -> Seq<int> {
    seq![0, 0, 0, 2, 3, 3, 5, 6]
}

/// The entry of a sieve for a password of a length, which is not zero.
pub open spec fn sieve_entry(sieve: Seq<int>, len: int) -> int {
    if len > sieve.len() {
        sieve.last()
    } else {
        sieve[len - 1]
    }
}

/// The estimate for a chosen password, in half bits: four bits for the
/// first character, two bits each for the next seven, one and a half each
/// up to the twentieth, one for each after that, and the bonuses.
pub open spec fn shannon_half_bits(len: int, has_composition: bool, has_dictionary: bool) -> int {
    if len <= 0 {
        0
    } else {
        let by_length = if len > 8 {
            8 + 7 * 4 + if len > 20 {
                12 * 3 + (len - 20) * 2
            } else {
                (len - 8) * 3
            }
        } else {
            8 + (len - 1) * 4
        };
        by_length + (if has_composition {
            2 * sieve_entry(composition_sieve(), len)
        } else {
            0
        }) + (if has_dictionary {
            2 * sieve_entry(dictionary_sieve(), len)
        } else {
            0
        })
    }
}

fn composition_bonus(len: usize) -> (bonus: u128)
    requires
        len > 0,
    ensures
        bonus == sieve_entry(composition_sieve(), len as int),
{
    if len > 8 {
        6
    } else if len == 8 {
        6
    } else if len == 7 {
        5
    } else if len == 6 {
        3
    } else if len == 5 {
        3
    } else if len == 4 {
        2
    } else {
        0
    }
}

fn dictionary_bonus(len: usize) -> (bonus: u128)
    requires
        len > 0,
    ensures
        bonus == sieve_entry(dictionary_sieve(), len as int),
{
    if len > 18 {
        0
    } else if len >= 17 {
        1
    } else if len >= 15 {
        2
    } else if len >= 13 {
        3
    } else if len >= 11 {
        4
    } else if len >= 9 {
        5
    } else if len >= 6 {
        6
    } else if len == 5 {
        5
    } else if len == 4 {
        4
    } else {
        0
    }
}

/// What the estimate for a chosen password rests on.
pub struct ShannonEntropy {
    has_dictionary_check: bool,
    has_composition_check: bool,
    password_len: usize,
}

/// Whether a password holds a digit, a lowercase letter, an uppercase
/// letter and a special character of the English sets.
pub open spec fn holds_all_kinds(password: Seq<char>) -> bool {
    &&& matching_characters("0123456789"@, password).len() > 0
    &&& matching_characters("abcdefghijklmnopqrstuvwxyz"@, password).len() > 0
    &&& matching_characters("ABCDEFGHIJKLMNOPQRSTUVWXYZ"@, password).len() > 0
    &&& matching_characters(special_characters(), password).len() > 0
}

/// The special characters of the English sets.
pub open spec fn special_characters() -> Seq<char> {
    crate::rule::character_data::CharacterData::characters_text(
        &crate::rule::character_data::EnglishCharacterData::Special,
    )
}

impl ShannonEntropy {
    /// Whether the password was checked against a dictionary.
    pub closed spec fn dictionary_checked(&self) -> bool {
        self.has_dictionary_check
    }

    /// Whether the password holds characters of all kinds.
    pub closed spec fn composed(&self) -> bool {
        self.has_composition_check
    }

    /// The length of the password in bytes.
    pub closed spec fn length(&self) -> usize {
        self.password_len
    }

    /// Creates what the estimate rests on from a password and whether it
    /// was checked against a dictionary.
    pub fn new(has_dictionary_check: bool, password_data: &PasswordData) -> (entropy:
        ShannonEntropy)
        ensures
            entropy.dictionary_checked() == has_dictionary_check,
            entropy.composed() == holds_all_kinds(password_data@.password),
            entropy.length() == utf8_len(password_data@.password),
    {
        let has_composition_check = Self::has_composition(password_data);
        ShannonEntropy {
            has_dictionary_check,
            has_composition_check,
            password_len: password_data.password().len(),
        }
    }

    /// Creates what the estimate rests on from a password and the rules
    /// that it is validated against: the first of the rules that has a
    /// dictionary decides whether the password counts as checked against
    /// one, and it does if the dictionary is not empty.
    pub fn from_rules(rules: &[Box<dyn Rule>], password_data: &PasswordData) -> (entropy:
        ShannonEntropy)
        ensures
            entropy.composed() == holds_all_kinds(password_data@.password),
            entropy.length() == utf8_len(password_data@.password),
            entropy.dictionary_checked() == (first_dictionary_size(rules@) matches Some(size)
                && size > 0),
    {
        let mut has_dict = false;
        let mut i: usize = 0;
        proof {
            assert(rules@.take(0) =~= Seq::<Box<dyn Rule>>::empty());
            if rules@.len() == 0 {
                assert(rules@.take(0) =~= rules@);
            }
        }
        while i < rules.len()
            invariant_except_break
                !has_dict,
                first_dictionary_size(rules@.take(i as int)) is None,
                i == rules@.len() ==> first_dictionary_size(rules@) is None,
            invariant
                i <= rules@.len(),
            ensures
                has_dict == (first_dictionary_size(rules@) matches Some(size) && size > 0),
            decreases rules@.len() - i,
        {
            proof {
                assert(rules@.take(i + 1).drop_last() =~= rules@.take(i as int));
                assert(rules@.take(i + 1).last() == rules@[i as int]);
            }
            if let Some(dr) = rules[i].as_dictionary_rule() {
                has_dict = dr.dictionary_len() != 0;
                proof {
                    lemma_first_dictionary_stays(rules@, i + 1);
                }
                break ;
            }
            i += 1;
            proof {
                if i == rules@.len() {
                    assert(rules@.take(i as int) =~= rules@);
                }
            }
        }
        Self::new(has_dict, password_data)
    }

    fn has_composition(password_data: &PasswordData) -> (r: bool)
        ensures
            r == holds_all_kinds(password_data@.password),
    {
        let password = password_data.password();
        count_matching_characters("0123456789", password) >= 1 && count_matching_characters(
            "abcdefghijklmnopqrstuvwxyz",
            password,
        ) >= 1 && count_matching_characters("ABCDEFGHIJKLMNOPQRSTUVWXYZ", password) >= 1
            && count_matching_characters(
            crate::rule::character_data::CharacterData::characters(
                &crate::rule::character_data::EnglishCharacterData::Special,
            ),
            password,
        ) >= 1
    }

    /// Returns the estimate in half bits.
    pub fn estimate_half_bits(&self) -> (estimate: u128)
        ensures
            estimate == shannon_half_bits(
                self.length() as int,
                self.composed(),
                self.dictionary_checked(),
            ),
    {
        let len: u128 = self.password_len as u128;
        let mut shannon_entropy: u128 = 0;
        if self.password_len > 0 {
            shannon_entropy += 8;
            if self.password_len > 8 {
                shannon_entropy += 7 * 4;
                if self.password_len > 20 {
                    shannon_entropy += 12 * 3 + (len - 20) * 2;
                } else {
                    shannon_entropy += (len - 8) * 3;
                }
            } else {
                shannon_entropy += (len - 1) * 4;
            }
            if self.has_composition_check {
                shannon_entropy += 2 * composition_bonus(self.password_len);
            }
            if self.has_dictionary_check {
                shannon_entropy += 2 * dictionary_bonus(self.password_len);
            }
        }
        shannon_entropy
    }
}

} // verus!
