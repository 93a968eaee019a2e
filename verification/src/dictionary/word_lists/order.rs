//! The order of words: byte-wise lexicographic on the UTF-8 encoding, either
//! of the words as written or of their lowercase forms.
use crate::text::{lowercase, texts, to_lowercase};
use vstd::prelude::*;
use vstd::utf8::encode_utf8;

verus! {

/// How one word stands to another.
#[derive(Clone, Copy, Debug, PartialEq, Eq, Structural)]
pub enum WordOrder {
    Less,
    Equal,
    Greater,
}

/// The comparison that a word list is ordered and searched by.
#[derive(Clone, Copy, Debug, PartialEq, Eq, Structural)]
pub enum Comparator {
    /// Words are compared as written.
    CaseSensitive,
    /// Words are compared by their lowercase forms.
    CaseInsensitive,
}

/// Lexicographic order of the bytes from offset `i` on.
pub open spec fn bytes_order_from(a: Seq<u8>, b: Seq<u8>, i: int) -> WordOrder
    decreases a.len() - i,
{
    if i >= a.len() {
        if i >= b.len() {
            WordOrder::Equal
        } else {
            WordOrder::Less
        }
    } else if i >= b.len() {
        WordOrder::Greater
    } else if a[i] < b[i] {
        WordOrder::Less
    } else if a[i] > b[i] {
        WordOrder::Greater
    } else {
        bytes_order_from(a, b, i + 1)
    }
}

/// Lexicographic order of two byte strings.
pub open spec fn bytes_order(a: Seq<u8>, b: Seq<u8>) -> WordOrder {
    bytes_order_from(a, b, 0)
}

/// The text that stands for a word under a comparator.
pub open spec fn folded(word: Seq<char>, comparator: Comparator) -> Seq<char> {
    match comparator {
        Comparator::CaseSensitive => word,
        Comparator::CaseInsensitive => lowercase(word),
    }
}

/// The bytes by which a word is ordered under a comparator.
pub open spec fn word_key(word: Seq<char>, comparator: Comparator) -> Seq<u8> {
    encode_utf8(folded(word, comparator))
}

/// How `a` stands to `b` under a comparator.
pub open spec fn word_order(a: Seq<char>, b: Seq<char>, comparator: Comparator) -> WordOrder {
    bytes_order(word_key(a, comparator), word_key(b, comparator))
}

/// `a` stands before or beside `b`.
pub open spec fn precedes(a: Seq<char>, b: Seq<char>, comparator: Comparator) -> bool {
    word_order(a, b, comparator) != WordOrder::Greater
}

/// Every word of the list stands before or beside each word that follows it.
pub open spec fn is_sorted(words: Seq<Seq<char>>, comparator: Comparator) -> bool {
    forall|i: int, j: int|
        0 <= i < j < words.len() ==> #[trigger] precedes(words[i], words[j], comparator)
}

proof fn lemma_from_equal(a: Seq<u8>, b: Seq<u8>, i: int)
    requires
        0 <= i,
        i <= a.len(),
        i <= b.len(),
        forall|k: int| 0 <= k < i ==> a[k] == b[k],
    ensures
        (bytes_order_from(a, b, i) == WordOrder::Equal) <==> a == b,
    decreases a.len() - i,
{
    if i >= a.len() {
        if i >= b.len() {
            assert(a =~= b);
        }
    } else if i >= b.len() {
    } else if a[i] == b[i] {
        lemma_from_equal(a, b, i + 1);
    }
}

proof fn lemma_from_flip(a: Seq<u8>, b: Seq<u8>, i: int)
    requires
        0 <= i,
    ensures
        (bytes_order_from(a, b, i) == WordOrder::Less) <==> (bytes_order_from(b, a, i)
            == WordOrder::Greater),
        (bytes_order_from(a, b, i) == WordOrder::Equal) <==> (bytes_order_from(b, a, i)
            == WordOrder::Equal),
    decreases a.len() - i,
{
    if i < a.len() && i < b.len() && a[i] == b[i] {
        lemma_from_flip(a, b, i + 1);
    }
}

proof fn lemma_from_transitive(a: Seq<u8>, b: Seq<u8>, c: Seq<u8>, i: int)
    requires
        0 <= i,
        bytes_order_from(a, b, i) != WordOrder::Greater,
        bytes_order_from(b, c, i) != WordOrder::Greater,
    ensures
        bytes_order_from(a, c, i) != WordOrder::Greater,
        (bytes_order_from(a, b, i) == WordOrder::Less || bytes_order_from(b, c, i)
            == WordOrder::Less) ==> bytes_order_from(a, c, i) == WordOrder::Less,
    decreases a.len() - i,
{
    if i < a.len() && i < b.len() && i < c.len() && a[i] == b[i] && b[i] == c[i] {
        lemma_from_transitive(a, b, c, i + 1);
    }
}

/// Two byte strings compare as equal exactly when they are the same.
pub proof fn lemma_bytes_order_equal(a: Seq<u8>, b: Seq<u8>)
    ensures
        (bytes_order(a, b) == WordOrder::Equal) <==> a == b,
{
    lemma_from_equal(a, b, 0);
}

/// Swapping the operands swaps `Less` and `Greater` and keeps `Equal`.
pub proof fn lemma_bytes_order_flip(a: Seq<u8>, b: Seq<u8>)
    ensures
        (bytes_order(a, b) == WordOrder::Less) <==> (bytes_order(b, a) == WordOrder::Greater),
        (bytes_order(a, b) == WordOrder::Equal) <==> (bytes_order(b, a) == WordOrder::Equal),
{
    lemma_from_flip(a, b, 0);
}

/// The order is transitive, and strict where one of the two steps is.
pub proof fn lemma_bytes_order_transitive(a: Seq<u8>, b: Seq<u8>, c: Seq<u8>)
    requires
        bytes_order(a, b) != WordOrder::Greater,
        bytes_order(b, c) != WordOrder::Greater,
    ensures
        bytes_order(a, c) != WordOrder::Greater,
        (bytes_order(a, b) == WordOrder::Less || bytes_order(b, c) == WordOrder::Less)
            ==> bytes_order(a, c) == WordOrder::Less,
{
    lemma_from_transitive(a, b, c, 0);
}

/// Two words compare as equal under a comparator exactly when their folded
/// texts are the same.
pub proof fn lemma_word_order_equal(a: Seq<char>, b: Seq<char>, comparator: Comparator)
    ensures
        (word_order(a, b, comparator) == WordOrder::Equal) <==> folded(a, comparator) == folded(
            b,
            comparator,
        ),
{
    let x = folded(a, comparator);
    let y = folded(b, comparator);
    lemma_bytes_order_equal(encode_utf8(x), encode_utf8(y));
    vstd::utf8::encode_utf8_decode_utf8(x);
    vstd::utf8::encode_utf8_decode_utf8(y);
}

/// Compares two byte strings lexicographically.
pub fn compare_bytes(a: &[u8], b: &[u8]) -> (r: WordOrder)
    ensures
        r == bytes_order(a@, b@),
{
    let mut i: usize = 0;
    while i < a.len() && i < b.len()
        invariant
            i <= a@.len(),
            i <= b@.len(),
            bytes_order_from(a@, b@, i as int) == bytes_order(a@, b@),
        decreases a@.len() - i,
    {
        if a[i] < b[i] {
            return WordOrder::Less;
        }
        if a[i] > b[i] {
            return WordOrder::Greater;
        }
        i += 1;
    }
    if i < b.len() {
        WordOrder::Less
    } else if i < a.len() {
        WordOrder::Greater
    } else {
        WordOrder::Equal
    }
}

impl Comparator {
    /// Says how `a` stands to `b`.
    pub fn compare(&self, a: &str, b: &str) -> (r: WordOrder)
        ensures
            r == word_order(a@, b@, *self),
    {
        match self {
            Comparator::CaseSensitive => compare_bytes(a.as_bytes(), b.as_bytes()),
            Comparator::CaseInsensitive => {
                let x = to_lowercase(a);
                let y = to_lowercase(b);
                compare_bytes(x.as_str().as_bytes(), y.as_str().as_bytes())
            },
        }
    }

    /// Whether words are compared as written.
    pub fn is_case_sensitive(&self) -> (r: bool)
        ensures
            r == (*self == Comparator::CaseSensitive),
    {
        match self {
            Comparator::CaseSensitive => true,
            Comparator::CaseInsensitive => false,
        }
    }
}


/// A word stands beside itself.
pub proof fn lemma_word_order_reflexive(a: Seq<char>, comparator: Comparator)
    ensures
        word_order(a, a, comparator) == WordOrder::Equal,
        precedes(a, a, comparator),
{
    lemma_bytes_order_equal(word_key(a, comparator), word_key(a, comparator));
}

/// Of two words, one precedes the other; `Less` and `Greater` mirror each
/// other.
pub proof fn lemma_word_order_total(a: Seq<char>, b: Seq<char>, comparator: Comparator)
    ensures
        precedes(a, b, comparator) || precedes(b, a, comparator),
        (word_order(a, b, comparator) == WordOrder::Less) <==> (word_order(b, a, comparator)
            == WordOrder::Greater),
        (word_order(a, b, comparator) == WordOrder::Equal) <==> (word_order(b, a, comparator)
            == WordOrder::Equal),
{
    lemma_bytes_order_flip(word_key(a, comparator), word_key(b, comparator));
    lemma_bytes_order_flip(word_key(b, comparator), word_key(a, comparator));
}

/// `precedes` is transitive, and strict where one of the two steps is.
pub proof fn lemma_precedes_transitive(
    a: Seq<char>,
    b: Seq<char>,
    c: Seq<char>,
    comparator: Comparator,
)
    requires
        precedes(a, b, comparator),
        precedes(b, c, comparator),
    ensures
        precedes(a, c, comparator),
        (word_order(a, b, comparator) == WordOrder::Less || word_order(b, c, comparator)
            == WordOrder::Less) ==> word_order(a, c, comparator) == WordOrder::Less,
{
    lemma_bytes_order_transitive(
        word_key(a, comparator),
        word_key(b, comparator),
        word_key(c, comparator),
    );
}

/// Exchanging two strings of a list exchanges their texts and keeps the
/// list's texts as a multiset.
pub(crate) proof fn lemma_swap_texts(s: Seq<String>, i: int, j: int)
    requires
        0 <= i < s.len(),
        0 <= j < s.len(),
    ensures
        texts(s.update(i, s[j]).update(j, s[i])) == texts(s).update(i, texts(s)[j]).update(
            j,
            texts(s)[i],
        ),
        texts(s.update(i, s[j]).update(j, s[i])).to_multiset() == texts(s).to_multiset(),
{
    broadcast use {vstd::multiset::group_multiset_axioms, vstd::seq_lib::to_multiset_contains};

    let t = texts(s);
    let swapped = t.update(i, t[j]).update(j, t[i]);
    assert(texts(s.update(i, s[j]).update(j, s[i])) =~= swapped);
    assert(t.contains(t[i]));
    assert(t.contains(t[j]));
    vstd::seq_lib::to_multiset_update(t, i, t[j]);
    vstd::seq_lib::to_multiset_update(t.update(i, t[j]), j, t[i]);
    if i == j {
        assert(swapped =~= t);
    } else {
        assert(t.update(i, t[j])[j] == t[j]);
        assert(swapped.to_multiset() =~= t.to_multiset());
    }
}

} // verus!
