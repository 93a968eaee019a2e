//! Catalogs of character sequences: alphabets, digits and keyboard rows.
use crate::rule::character_sequence::{are_forms, CharacterSequence};
use crate::text::texts;
use vstd::prelude::*;

verus! {

/// The forms of each sequence of a list.
pub open spec fn sequence_views(sequences: Seq<CharacterSequence>) -> Seq<Seq<Seq<char>>> {
    Seq::new(sequences.len(), |i: int| sequences[i]@)
}

/// Whether every sequence of a catalog is made of forms of equal length.
pub open spec fn are_sequences(sequences: Seq<Seq<Seq<char>>>) -> bool {
    forall|i: int| 0 <= i < sequences.len() ==> are_forms(#[trigger] sequences[i])
}

/// Container for one or more `CharacterSequence`.
pub trait SequenceData {
    /// The error code of the catalog.
    spec fn code(&self) -> Seq<char>;

    /// The sequences of the catalog, each as its forms.
    spec fn sequences(&self) -> Seq<Seq<Seq<char>>>;

    /// Returns the error code used for message resolution.
    fn error_code(&self) -> (code: &str)
        ensures
            code@ == self.code(),
            code@.len() > 0,
    ;

    /// Returns the sequences of the catalog.
    fn get_sequences(&self) -> (sequences: Vec<CharacterSequence>)
        ensures
            sequence_views(sequences@) == self.sequences(),
            are_sequences(self.sequences()),
    ;
}

/// A sequence with one form.
fn sequence_of_one(a: &str) -> (sequence: CharacterSequence)
    ensures
        sequence@ == seq![a@],
{
    let mut forms: Vec<String> = Vec::new();
    forms.push(String::from_str(a));
    assert(texts(forms@) =~= seq![a@]);
    CharacterSequence::new(forms).unwrap()
}

/// A sequence with two forms.
fn sequence_of_two(a: &str, b: &str) -> (sequence: CharacterSequence)
    requires
        a@.len() == b@.len(),
    ensures
        sequence@ == seq![a@, b@],
{
    let mut forms: Vec<String> = Vec::new();
    forms.push(String::from_str(a));
    forms.push(String::from_str(b));
    assert(texts(forms@) =~= seq![a@, b@]);
    CharacterSequence::new(forms).unwrap()
}

/// A sequence with four forms.
fn sequence_of_four(a: &str, b: &str, c: &str, d: &str) -> (sequence: CharacterSequence)
    requires
        a@.len() == b@.len(),
        a@.len() == c@.len(),
        a@.len() == d@.len(),
    ensures
        sequence@ == seq![a@, b@, c@, d@],
{
    let mut forms: Vec<String> = Vec::new();
    forms.push(String::from_str(a));
    forms.push(String::from_str(b));
    forms.push(String::from_str(c));
    forms.push(String::from_str(d));
    assert(texts(forms@) =~= seq![a@, b@, c@, d@]);
    CharacterSequence::new(forms).unwrap()
}

/// English character sequences.
#[derive(Debug, PartialEq, Eq)]
pub enum EnglishSequenceData {
    Alphabetical,
    Numerical,
    USQwerty,
}

impl SequenceData for EnglishSequenceData {
    open spec fn code(&self) -> Seq<char> {
        match self {
            EnglishSequenceData::Alphabetical => "ILLEGAL_ALPHABETICAL_SEQUENCE"@,
            EnglishSequenceData::Numerical => "ILLEGAL_NUMERICAL_SEQUENCE"@,
            EnglishSequenceData::USQwerty => "ILLEGAL_QWERTY_SEQUENCE"@,
        }
    }

    open spec fn sequences(&self) -> Seq<Seq<Seq<char>>> {
        match self {
            EnglishSequenceData::Alphabetical => seq![
                seq!["abcdefghijklmnopqrstuvwxyz"@, "ABCDEFGHIJKLMNOPQRSTUVWXYZ"@],
            ],
            EnglishSequenceData::Numerical => seq![
                seq!["0123456789"@],
            ],
            EnglishSequenceData::USQwerty => seq![
                seq!["`1234567890-="@, "~!@#$%^&*()_+"@, "\u{0}\u{a1}\u{2122}\u{a3}\u{a2}\u{221e}\u{a7}\u{b6}\u{2022}\u{aa}\u{ba}\u{2013}\u{2260}"@, "\u{60}\u{2044}\u{20ac}\u{2039}\u{203a}\u{fb01}\u{fb02}\u{2021}\u{b0}\u{b7}\u{201a}\u{2014}\u{b1}"@],
                seq!["qwertyuiop[]\\"@, "QWERTYUIOP{}|"@, "\u{153}\u{2211}\u{0}\u{ae}\u{2020}\u{a5}\u{0}\u{0}\u{f8}\u{3c0}\u{201c}\u{2018}\u{ab}"@, "\u{152}\u{201e}\u{b4}\u{2030}\u{2c7}\u{c1}\u{a8}\u{2c6}\u{d8}\u{220f}\u{201d}\u{2019}\u{bb}"@],
                seq!["asdfghjkl;'"@, "ASDFGHJKL:\""@, "\u{e5}\u{df}\u{2202}\u{192}\u{a9}\u{2d9}\u{2206}\u{2da}\u{ac}\u{2026}\u{e6}"@, "\u{c5}\u{cd}\u{ce}\u{cf}\u{2dd}\u{d3}\u{d4}\u{f8ff}\u{d2}\u{da}\u{c6}"@],
                seq!["zxcvbnm,./"@, "ZXCVBNM<>?"@, "\u{39}\u{2248}\u{e7}\u{221a}\u{222b}\u{0}\u{b5}\u{2264}\u{2265}\u{f7}"@, "\u{b8}\u{2db}\u{c7}\u{25ca}\u{131}\u{2dc}\u{c2}\u{af}\u{2d8}\u{bf}"@],
            ],
        }
    }

    fn error_code(&self) -> (code: &str) {
        match self {
            EnglishSequenceData::Alphabetical => {
                proof {
                    reveal_strlit("ILLEGAL_ALPHABETICAL_SEQUENCE");
                }
                "ILLEGAL_ALPHABETICAL_SEQUENCE"
            },
            EnglishSequenceData::Numerical => {
                proof {
                    reveal_strlit("ILLEGAL_NUMERICAL_SEQUENCE");
                }
                "ILLEGAL_NUMERICAL_SEQUENCE"
            },
            EnglishSequenceData::USQwerty => {
                proof {
                    reveal_strlit("ILLEGAL_QWERTY_SEQUENCE");
                }
                "ILLEGAL_QWERTY_SEQUENCE"
            },
        }
    }

    fn get_sequences(&self) -> (sequences: Vec<CharacterSequence>) {
        let mut sequences: Vec<CharacterSequence> = Vec::new();
        match self {
            EnglishSequenceData::Alphabetical => {
                proof {
                    reveal_strlit("abcdefghijklmnopqrstuvwxyz");
                    reveal_strlit("ABCDEFGHIJKLMNOPQRSTUVWXYZ");
                }
                sequences.push(sequence_of_two("abcdefghijklmnopqrstuvwxyz", "ABCDEFGHIJKLMNOPQRSTUVWXYZ"));
            },
            EnglishSequenceData::Numerical => {
                proof {
                    reveal_strlit("0123456789");
                }
                sequences.push(sequence_of_one("0123456789"));
            },
            EnglishSequenceData::USQwerty => {
                proof {
                    reveal_strlit("`1234567890-=");
                    reveal_strlit("~!@#$%^&*()_+");
                    reveal_strlit("\u{0}\u{a1}\u{2122}\u{a3}\u{a2}\u{221e}\u{a7}\u{b6}\u{2022}\u{aa}\u{ba}\u{2013}\u{2260}");
                    reveal_strlit("\u{60}\u{2044}\u{20ac}\u{2039}\u{203a}\u{fb01}\u{fb02}\u{2021}\u{b0}\u{b7}\u{201a}\u{2014}\u{b1}");
                    reveal_strlit("qwertyuiop[]\\");
                    reveal_strlit("QWERTYUIOP{}|");
                    reveal_strlit("\u{153}\u{2211}\u{0}\u{ae}\u{2020}\u{a5}\u{0}\u{0}\u{f8}\u{3c0}\u{201c}\u{2018}\u{ab}");
                    reveal_strlit("\u{152}\u{201e}\u{b4}\u{2030}\u{2c7}\u{c1}\u{a8}\u{2c6}\u{d8}\u{220f}\u{201d}\u{2019}\u{bb}");
                    reveal_strlit("asdfghjkl;'");
                    reveal_strlit("ASDFGHJKL:\"");
                    reveal_strlit("\u{e5}\u{df}\u{2202}\u{192}\u{a9}\u{2d9}\u{2206}\u{2da}\u{ac}\u{2026}\u{e6}");
                    reveal_strlit("\u{c5}\u{cd}\u{ce}\u{cf}\u{2dd}\u{d3}\u{d4}\u{f8ff}\u{d2}\u{da}\u{c6}");
                    reveal_strlit("zxcvbnm,./");
                    reveal_strlit("ZXCVBNM<>?");
                    reveal_strlit("\u{39}\u{2248}\u{e7}\u{221a}\u{222b}\u{0}\u{b5}\u{2264}\u{2265}\u{f7}");
                    reveal_strlit("\u{b8}\u{2db}\u{c7}\u{25ca}\u{131}\u{2dc}\u{c2}\u{af}\u{2d8}\u{bf}");
                }
                sequences.push(sequence_of_four("`1234567890-=", "~!@#$%^&*()_+", "\u{0}\u{a1}\u{2122}\u{a3}\u{a2}\u{221e}\u{a7}\u{b6}\u{2022}\u{aa}\u{ba}\u{2013}\u{2260}", "\u{60}\u{2044}\u{20ac}\u{2039}\u{203a}\u{fb01}\u{fb02}\u{2021}\u{b0}\u{b7}\u{201a}\u{2014}\u{b1}"));
                sequences.push(sequence_of_four("qwertyuiop[]\\", "QWERTYUIOP{}|", "\u{153}\u{2211}\u{0}\u{ae}\u{2020}\u{a5}\u{0}\u{0}\u{f8}\u{3c0}\u{201c}\u{2018}\u{ab}", "\u{152}\u{201e}\u{b4}\u{2030}\u{2c7}\u{c1}\u{a8}\u{2c6}\u{d8}\u{220f}\u{201d}\u{2019}\u{bb}"));
                sequences.push(sequence_of_four("asdfghjkl;'", "ASDFGHJKL:\"", "\u{e5}\u{df}\u{2202}\u{192}\u{a9}\u{2d9}\u{2206}\u{2da}\u{ac}\u{2026}\u{e6}", "\u{c5}\u{cd}\u{ce}\u{cf}\u{2dd}\u{d3}\u{d4}\u{f8ff}\u{d2}\u{da}\u{c6}"));
                sequences.push(sequence_of_four("zxcvbnm,./", "ZXCVBNM<>?", "\u{39}\u{2248}\u{e7}\u{221a}\u{222b}\u{0}\u{b5}\u{2264}\u{2265}\u{f7}", "\u{b8}\u{2db}\u{c7}\u{25ca}\u{131}\u{2dc}\u{c2}\u{af}\u{2d8}\u{bf}"));
            },
        }
        assert(sequence_views(sequences@) =~= self.sequences());
        sequences
    }
}

/// Polish character sequences.
pub enum PolishSequenceData {
    Alphabetical,
}

impl SequenceData for PolishSequenceData {
    open spec fn code(&self) -> Seq<char> {
        match self {
            PolishSequenceData::Alphabetical => "ILLEGAL_ALPHABETICAL_SEQUENCE"@,
        }
    }

    open spec fn sequences(&self) -> Seq<Seq<Seq<char>>> {
        match self {
            PolishSequenceData::Alphabetical => seq![
                seq!["aąbcćdeęfghijklmnoópqrsśtuwxyzźż"@, "AĄBCĆDEĘFGHIJKLMNOÓPQRSŚTUWXYZŹŻ"@],
            ],
        }
    }

    fn error_code(&self) -> (code: &str) {
        match self {
            PolishSequenceData::Alphabetical => {
                proof {
                    reveal_strlit("ILLEGAL_ALPHABETICAL_SEQUENCE");
                }
                "ILLEGAL_ALPHABETICAL_SEQUENCE"
            },
        }
    }

    fn get_sequences(&self) -> (sequences: Vec<CharacterSequence>) {
        let mut sequences: Vec<CharacterSequence> = Vec::new();
        match self {
            PolishSequenceData::Alphabetical => {
                proof {
                    reveal_strlit("aąbcćdeęfghijklmnoópqrsśtuwxyzźż");
                    reveal_strlit("AĄBCĆDEĘFGHIJKLMNOÓPQRSŚTUWXYZŹŻ");
                }
                sequences.push(sequence_of_two("aąbcćdeęfghijklmnoópqrsśtuwxyzźż", "AĄBCĆDEĘFGHIJKLMNOÓPQRSŚTUWXYZŹŻ"));
            },
        }
        assert(sequence_views(sequences@) =~= self.sequences());
        sequences
    }
}

/// German character sequences.
pub enum GermanSequenceData {
    Alphabetical,
    DEQwertz,
}

impl SequenceData for GermanSequenceData {
    open spec fn code(&self) -> Seq<char> {
        match self {
            GermanSequenceData::Alphabetical => "ILLEGAL_ALPHABETICAL_SEQUENCE"@,
            GermanSequenceData::DEQwertz => "ILLEGAL_QWERTY_SEQUENCE"@,
        }
    }

    open spec fn sequences(&self) -> Seq<Seq<Seq<char>>> {
        match self {
            GermanSequenceData::Alphabetical => seq![
                seq!["abcdefghijklmnopqrstuvwxyzäöüß"@, "ABCDEFGHIJKLMNOPQRSTUVWXYZÄÖÜẞ"@],
            ],
            GermanSequenceData::DEQwertz => seq![
                seq!["^1234567890\\´"@, "°!\"§$%&/()=?`"@],
                seq!["qwertzuiopü+"@, "QWERTZUIOPÜ*"@],
                seq!["asdfghjklöä#"@, "ASDFGHJKLÖÄ'"@],
                seq!["<yxcvbnm,.-"@, ">YXCVBNM;:_"@],
            ],
        }
    }

    fn error_code(&self) -> (code: &str) {
        match self {
            GermanSequenceData::Alphabetical => {
                proof {
                    reveal_strlit("ILLEGAL_ALPHABETICAL_SEQUENCE");
                }
                "ILLEGAL_ALPHABETICAL_SEQUENCE"
            },
            GermanSequenceData::DEQwertz => {
                proof {
                    reveal_strlit("ILLEGAL_QWERTY_SEQUENCE");
                }
                "ILLEGAL_QWERTY_SEQUENCE"
            },
        }
    }

    fn get_sequences(&self) -> (sequences: Vec<CharacterSequence>) {
        let mut sequences: Vec<CharacterSequence> = Vec::new();
        match self {
            GermanSequenceData::Alphabetical => {
                proof {
                    reveal_strlit("abcdefghijklmnopqrstuvwxyzäöüß");
                    reveal_strlit("ABCDEFGHIJKLMNOPQRSTUVWXYZÄÖÜẞ");
                }
                sequences.push(sequence_of_two("abcdefghijklmnopqrstuvwxyzäöüß", "ABCDEFGHIJKLMNOPQRSTUVWXYZÄÖÜẞ"));
            },
            GermanSequenceData::DEQwertz => {
                proof {
                    reveal_strlit("^1234567890\\´");
                    reveal_strlit("°!\"§$%&/()=?`");
                    reveal_strlit("qwertzuiopü+");
                    reveal_strlit("QWERTZUIOPÜ*");
                    reveal_strlit("asdfghjklöä#");
                    reveal_strlit("ASDFGHJKLÖÄ'");
                    reveal_strlit("<yxcvbnm,.-");
                    reveal_strlit(">YXCVBNM;:_");
                }
                sequences.push(sequence_of_two("^1234567890\\´", "°!\"§$%&/()=?`"));
                sequences.push(sequence_of_two("qwertzuiopü+", "QWERTZUIOPÜ*"));
                sequences.push(sequence_of_two("asdfghjklöä#", "ASDFGHJKLÖÄ'"));
                sequences.push(sequence_of_two("<yxcvbnm,.-", ">YXCVBNM;:_"));
            },
        }
        assert(sequence_views(sequences@) =~= self.sequences());
        sequences
    }
}

/// Czech character sequences.
pub enum CzechSequenceData {
    Alphabetical,
}

impl SequenceData for CzechSequenceData {
    open spec fn code(&self) -> Seq<char> {
        match self {
            CzechSequenceData::Alphabetical => "ILLEGAL_ALPHABETICAL_SEQUENCE"@,
        }
    }

    open spec fn sequences(&self) -> Seq<Seq<Seq<char>>> {
        match self {
            CzechSequenceData::Alphabetical => seq![
                seq!["aábcčdďeěéfghiíjklmnňoópqrřsštťuúůvwxyýzž"@, "AÁBCČDĎEĚÉFGHIÍJKLMNŇOÓPQRŘSŠTŤUÚŮVWXYÝZŽ"@],
            ],
        }
    }

    fn error_code(&self) -> (code: &str) {
        match self {
            CzechSequenceData::Alphabetical => {
                proof {
                    reveal_strlit("ILLEGAL_ALPHABETICAL_SEQUENCE");
                }
                "ILLEGAL_ALPHABETICAL_SEQUENCE"
            },
        }
    }

    fn get_sequences(&self) -> (sequences: Vec<CharacterSequence>) {
        let mut sequences: Vec<CharacterSequence> = Vec::new();
        match self {
            CzechSequenceData::Alphabetical => {
                proof {
                    reveal_strlit("aábcčdďeěéfghiíjklmnňoópqrřsštťuúůvwxyýzž");
                    reveal_strlit("AÁBCČDĎEĚÉFGHIÍJKLMNŇOÓPQRŘSŠTŤUÚŮVWXYÝZŽ");
                }
                sequences.push(sequence_of_two("aábcčdďeěéfghiíjklmnňoópqrřsštťuúůvwxyýzž", "AÁBCČDĎEĚÉFGHIÍJKLMNŇOÓPQRŘSŠTŤUÚŮVWXYÝZŽ"));
            },
        }
        assert(sequence_views(sequences@) =~= self.sequences());
        sequences
    }
}

/// Cyrillic character sequences.
pub enum CyrillicSequenceData {
    Alphabetical,
}

impl SequenceData for CyrillicSequenceData {
    open spec fn code(&self) -> Seq<char> {
        match self {
            CyrillicSequenceData::Alphabetical => "ILLEGAL_ALPHABETICAL_SEQUENCE"@,
        }
    }

    open spec fn sequences(&self) -> Seq<Seq<Seq<char>>> {
        match self {
            CyrillicSequenceData::Alphabetical => seq![
                seq!["абвгдеёжзийклмнопрстуфхцчшщъыьэюяіѣѳѵ"@, "АБВГДЕЁЖЗИЙКЛМНОПРСТУФХЦЧШЩЪЫЬЭЮЯІѢѲѴ"@],
            ],
        }
    }

    fn error_code(&self) -> (code: &str) {
        match self {
            CyrillicSequenceData::Alphabetical => {
                proof {
                    reveal_strlit("ILLEGAL_ALPHABETICAL_SEQUENCE");
                }
                "ILLEGAL_ALPHABETICAL_SEQUENCE"
            },
        }
    }

    fn get_sequences(&self) -> (sequences: Vec<CharacterSequence>) {
        let mut sequences: Vec<CharacterSequence> = Vec::new();
        match self {
            CyrillicSequenceData::Alphabetical => {
                proof {
                    reveal_strlit("абвгдеёжзийклмнопрстуфхцчшщъыьэюяіѣѳѵ");
                    reveal_strlit("АБВГДЕЁЖЗИЙКЛМНОПРСТУФХЦЧШЩЪЫЬЭЮЯІѢѲѴ");
                }
                sequences.push(sequence_of_two("абвгдеёжзийклмнопрстуфхцчшщъыьэюяіѣѳѵ", "АБВГДЕЁЖЗИЙКЛМНОПРСТУФХЦЧШЩЪЫЬЭЮЯІѢѲѴ"));
            },
        }
        assert(sequence_views(sequences@) =~= self.sequences());
        sequences
    }
}

} // verus!
