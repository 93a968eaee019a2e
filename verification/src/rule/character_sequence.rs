//! A sequence of keys or characters in one or more forms of equal length:
//! the characters at one position of all forms stand for the same key.
use crate::text::texts;
use vstd::prelude::*;

verus! {

/// Whether forms may make a sequence: there is at least one, and all are of
/// the same length.
pub open spec fn are_forms(forms: Seq<Seq<char>>) -> bool {
    &&& forms.len() > 0
    &&& forall|i: int| 0 <= i < forms.len() ==> (#[trigger] forms[i]).len() == forms[0].len()
}

/// Whether `c` stands at position `index` of one of the forms.
pub open spec fn form_matches(forms: Seq<Seq<char>>, index: int, c: char) -> bool {
    exists|f: int| 0 <= f < forms.len() && 0 <= index < forms[f].len() && #[trigger] forms[f][index] == c
}

/// The first position below `limit` at which `c` stands in one of the
/// forms, or -1 if there is none.
pub open spec fn position_below(forms: Seq<Seq<char>>, c: char, limit: int) -> int
    decreases limit,
{
    if limit <= 0 {
        -1
    } else {
        let before = position_below(forms, c, limit - 1);
        if before >= 0 {
            before
        } else if form_matches(forms, limit - 1, c) {
            limit - 1
        } else {
            -1
        }
    }
}

/// The first position of the sequence at which `c` stands in one of the
/// forms, or -1 if it stands nowhere.
pub open spec fn position_of(forms: Seq<Seq<char>>, c: char) -> int {
    if forms.len() == 0 {
        -1
    } else {
        position_below(forms, c, forms[0].len() as int)
    }
}

/// Models a sequence of characters in one or more forms as strings of equal
/// length where each string represents one form of characters in the
/// sequence.
#[derive(Debug, PartialEq, Eq)]
pub struct CharacterSequence {
    forms: Vec<String>,
}

impl View for CharacterSequence {
    type V = Seq<Seq<char>>;

    closed spec fn view(&self) -> Seq<Seq<char>> {
        texts(self.forms@)
    }
}

impl CharacterSequence {
    #[verifier::type_invariant]
    spec fn formed(&self) -> bool {
        are_forms(texts(self.forms@))
    }

    /// Creates a new instance from one or more forms. At least one form
    /// must be given, and all forms must be of equal length.
    pub fn new(strings: Vec<String>) -> (r: Result<Self, String>)
        ensures
            r is Ok <==> are_forms(texts(strings@)),
            r matches Ok(sequence) ==> sequence@ == texts(strings@),
            r matches Err(message) ==> message@ == (if strings.len() == 0 {
                "At least one sequence must be defined"@
            } else {
                "Strings have unequal length"@
            }),
    {
        if strings.len() == 0 {
            return Err(String::from_str("At least one sequence must be defined"));
        }
        let length: usize = strings[0].as_str().unicode_len();
        let mut i: usize = 1;
        while i < strings.len()
            invariant
                1 <= i <= strings.len(),
                length == strings@[0]@.len(),
                forall|k: int| 0 <= k < i ==> (#[trigger] texts(strings@)[k]).len() == length,
            decreases strings.len() - i,
        {
            if strings[i].as_str().unicode_len() != length {
                assert(texts(strings@)[i as int].len() != texts(strings@)[0].len());
                return Err(String::from_str("Strings have unequal length"));
            }
            i += 1;
        }
        Ok(CharacterSequence { forms: strings })
    }

    /// Returns the strings that define the forms.
    pub fn get_forms(&self) -> (forms: &Vec<String>)
        ensures
            texts(forms@) == self@,
            are_forms(self@),
    {
        proof {
            use_type_invariant(self);
        }
        &self.forms
    }

    /// Determines whether the character at the given position of the
    /// sequence is the given one, in any of the forms.
    pub fn matches(&self, index: usize, c: char) -> (r: bool)
        requires
            index < self@[0].len(),
        ensures
            r == form_matches(self@, index as int, c),
    {
        proof {
            use_type_invariant(self);
        }
        let mut f: usize = 0;
        while f < self.forms.len()
            invariant
                f <= self.forms.len(),
                are_forms(texts(self.forms@)),
                index < texts(self.forms@)[0].len(),
                forall|k: int| 0 <= k < f ==> (#[trigger] texts(self.forms@)[k])[index as int] != c,
            decreases self.forms.len() - f,
        {
            assert(texts(self.forms@)[f as int].len() == texts(self.forms@)[0].len());
            if self.forms[f].as_str().get_char(index) == c {
                assert(texts(self.forms@)[f as int][index as int] == c);
                return true;
            }
            f += 1;
        }
        false
    }

    /// Returns the length of the sequence, which is that of each form.
    pub fn length(&self) -> (n: usize)
        ensures
            are_forms(self@),
            n == self@[0].len(),
    {
        proof {
            use_type_invariant(self);
        }
        self.forms[0].as_str().unicode_len()
    }
}

} // verus!
