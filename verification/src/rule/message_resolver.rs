//! Messages for the failures of a password.
use crate::rule::rule_result::{parameter_texts, DetailView, ParameterTexts, RuleResultDetail};
use crate::text::texts;
use vstd::prelude::*;

verus! {

/// Strategy pattern interface for resolving messages from password
/// validation failures described by a `RuleResultDetail` object.
pub trait MessageResolver {
    /// The message for a detail.
    spec fn message(&self, detail: DetailView) -> Seq<char>;

    /// Resolves the message for the supplied rule result detail.
    fn resolve(&self, detail: &RuleResultDetail) -> (message: String)
        ensures
            message@ == self.message(detail@),
    ;
}

/// How one character is written inside quotes: a backslash goes before a
/// backslash and before a quote, and a line feed, a carriage return and a
/// tab are written as `\n`, `\r` and `\t`.
pub open spec fn escape_of(c: char) -> Seq<char> {
    if c == '\\' {
        seq!['\\', '\\']
    } else if c == '"' {
        seq!['\\', '"']
    } else if c == '\n' {
        seq!['\\', 'n']
    } else if c == '\r' {
        seq!['\\', 'r']
    } else if c == '\t' {
        seq!['\\', 't']
    } else {
        seq![c]
    }
}

/// How a text is written inside quotes.
pub open spec fn escaped(text: Seq<char>) -> Seq<char>
    decreases text.len(),
{
    if text.len() == 0 {
        Seq::empty()
    } else {
        escaped(text.drop_last()) + escape_of(text.last())
    }
}

/// A text in quotes.
pub open spec fn quoted(text: Seq<char>) -> Seq<char> {
    seq!['"'] + escaped(text) + seq!['"']
}

/// Appends a text in quotes.
fn push_quoted(message: &mut String, text: &str)
    ensures
        final(message)@ == old(message)@ + quoted(text@),
{
    let chars = crate::text::chars_of(text);
    let ghost start = message@;
    message.push('"');
    let mut i: usize = 0;
    proof {
        assert(chars@.take(0) =~= Seq::<char>::empty());
        assert(message@ =~= start + seq!['"'] + escaped(chars@.take(0)));
    }
    while i < chars.len()
        invariant
            i <= chars.len(),
            message@ == start + seq!['"'] + escaped(chars@.take(i as int)),
        decreases chars.len() - i,
    {
        let c = chars[i];
        let ghost before = message@;
        proof {
            assert(chars@.take(i + 1).drop_last() =~= chars@.take(i as int));
            assert(chars@.take(i + 1).last() == c);
        }
        if c == '\\' {
            message.push('\\');
            message.push('\\');
        } else if c == '"' {
            message.push('\\');
            message.push('"');
        } else if c == '\n' {
            message.push('\\');
            message.push('n');
        } else if c == '\r' {
            message.push('\\');
            message.push('r');
        } else if c == '\t' {
            message.push('\\');
            message.push('t');
        } else {
            message.push(c);
        }
        proof {
            assert(message@ =~= before + escape_of(c));
            assert(message@ =~= start + seq!['"'] + (escaped(chars@.take(i as int)) + escape_of(
                c,
            )));
        }
        i += 1;
    }
    proof {
        assert(chars@.take(i as int) =~= chars@);
    }
    message.push('"');
    proof {
        assert(message@ =~= start + quoted(text@));
    }
}

/// The texts of a list in quotes, with a comma and a space between each
/// two.
pub open spec fn quoted_list(items: Seq<Seq<char>>) -> Seq<char>
    decreases items.len(),
{
    if items.len() == 0 {
        Seq::empty()
    } else if items.len() == 1 {
        quoted(items[0])
    } else {
        quoted_list(items.drop_last()) + ", "@ + quoted(items.last())
    }
}

/// Each name with its value, both in quotes and with a colon and a space
/// between them, and a comma and a space between each two pairs.
pub open spec fn quoted_pairs(pairs: ParameterTexts) -> Seq<char>
    decreases pairs.len(),
{
    if pairs.len() == 0 {
        Seq::empty()
    } else if pairs.len() == 1 {
        quoted(pairs[0].0) + ": "@ + quoted(pairs[0].1)
    } else {
        quoted_pairs(pairs.drop_last()) + ", "@ + quoted(pairs.last().0) + ": "@ + quoted(
            pairs.last().1,
        )
    }
}

/// The text that shows all that a detail holds: its error codes in square
/// brackets and its named values in braces.
pub open spec fn debug_text(detail: DetailView) -> Seq<char> {
    "RuleResultDetail { error_codes: ["@ + quoted_list(detail.error_codes) + "], parameters: {"@
        + quoted_pairs(detail.parameters) + "} }"@
}

/// Resolves a detail to a text that shows all that it holds.
pub struct DebugMessageResolver;

impl MessageResolver for DebugMessageResolver {
    open spec fn message(&self, detail: DetailView) -> Seq<char> {
        debug_text(detail)
    }

    fn resolve(&self, detail: &RuleResultDetail) -> (message: String) {
        let mut message = String::from_str("RuleResultDetail { error_codes: [");
        let codes = detail.error_codes();
        let ghost code_texts = texts(codes@);
        let ghost head = message@;
        let mut i: usize = 0;
        proof {
            assert(code_texts.take(0) =~= Seq::<Seq<char>>::empty());
            assert(message@ =~= head + quoted_list(code_texts.take(0)));
        }
        while i < codes.len()
            invariant
                i <= codes@.len(),
                code_texts == texts(codes@),
                message@ == head + quoted_list(code_texts.take(i as int)),
            decreases codes@.len() - i,
        {
            proof {
                assert(code_texts.take(i + 1).drop_last() =~= code_texts.take(i as int));
                assert(code_texts.take(i + 1).last() == codes@[i as int]@);
                if i == 0 {
                    assert(code_texts.take(1)[0] == codes@[0]@);
                }
            }
            let ghost before = message@;
            if i > 0 {
                message.append(", ");
            }
            push_quoted(&mut message, codes[i].as_str());
            proof {
                let shown = quoted_list(code_texts.take(i as int));
                if i > 0 {
                    assert(message@ =~= head + (shown + ", "@ + quoted(codes@[i as int]@)));
                } else {
                    assert(shown =~= Seq::<char>::empty());
                    assert(message@ =~= head + quoted(codes@[i as int]@));
                }
            }
            i += 1;
        }
        proof {
            assert(code_texts.take(i as int) =~= code_texts);
        }
        message.append("], parameters: {");
        let parameters = detail.parameters();
        let ghost pairs = parameter_texts(parameters@);
        let ghost middle = message@;
        let mut k: usize = 0;
        proof {
            assert(pairs.take(0) =~= Seq::<(Seq<char>, Seq<char>)>::empty());
            assert(message@ =~= middle + quoted_pairs(pairs.take(0)));
        }
        while k < parameters.len()
            invariant
                k <= parameters.len(),
                pairs == parameter_texts(parameters@),
                message@ == middle + quoted_pairs(pairs.take(k as int)),
            decreases parameters.len() - k,
        {
            proof {
                assert(pairs.take(k + 1).drop_last() =~= pairs.take(k as int));
                assert(pairs.take(k + 1).last() == pairs[k as int]);
                if k == 0 {
                    assert(pairs.take(1)[0] == pairs[0]);
                }
            }
            if k > 0 {
                message.append(", ");
            }
            push_quoted(&mut message, parameters[k].0.as_str());
            message.append(": ");
            push_quoted(&mut message, parameters[k].1.as_str());
            proof {
                let shown = quoted_pairs(pairs.take(k as int));
                let name = pairs[k as int].0;
                let value = pairs[k as int].1;
                if k > 0 {
                    assert(message@ =~= middle + (shown + ", "@ + quoted(name) + ": "@ + quoted(
                        value,
                    )));
                } else {
                    assert(shown =~= Seq::<char>::empty());
                    assert(message@ =~= middle + (quoted(name) + ": "@ + quoted(value)));
                }
            }
            k += 1;
        }
        proof {
            assert(pairs.take(k as int) =~= pairs);
        }
        message.append("} }");
        proof {
            assert(message@ =~= debug_text(detail@));
        }
        message
    }
}

} // verus!
