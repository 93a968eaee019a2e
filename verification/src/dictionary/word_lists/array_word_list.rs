//! A word list backed by a vector, and the two comparators of word lists as
//! plain functions.
use crate::dictionary::word_lists::order::{is_sorted, word_order, Comparator, WordOrder};
use crate::dictionary::word_lists::sort::ArraySorter;
use crate::dictionary::word_lists::WordLists;
use std::cmp::Ordering;
use crate::text::texts;
use vstd::prelude::*;

verus! {

/// The standard library's name for a `WordOrder`.
pub open spec fn ordering_of(order: WordOrder) -> Ordering {
    match order {
        WordOrder::Less => Ordering::Less,
        WordOrder::Equal => Ordering::Equal,
        WordOrder::Greater => Ordering::Greater,
    }
}

impl Comparator {
    /// Says how `a` stands to `b`, in the standard library's terms.
    pub fn ordering(&self, a: &str, b: &str) -> (r: Ordering)
        ensures
            r == ordering_of(word_order(a@, b@, *self)),
    {
        match self.compare(a, b) {
            WordOrder::Less => Ordering::Less,
            WordOrder::Equal => Ordering::Equal,
            WordOrder::Greater => Ordering::Greater,
        }
    }
}

/// Compares two words as written, byte by byte.
pub fn case_sensitive_comparator(a: &str, b: &str) -> (r: Ordering)
    ensures
        r == ordering_of(word_order(a@, b@, Comparator::CaseSensitive)),
{
    Comparator::CaseSensitive.ordering(a, b)
}

/// Compares the lowercase forms of two words, byte by byte.
pub fn case_insensitive_comparator(a: &str, b: &str) -> (r: Ordering)
    ensures
        r == ordering_of(word_order(a@, b@, Comparator::CaseInsensitive)),
{
    Comparator::CaseInsensitive.ordering(a, b)
}

/// A word list held in a vector. Searching it presumes that its words are
/// ordered under its comparator: a sorter given at construction orders them,
/// without one the caller vouches for the order.
pub struct ArrayWordList {
    words: Vec<String>,
    case_sensitive: bool,
    comparator: Comparator,
}

impl ArrayWordList {
    /// The comparator that belongs to a case policy.
    pub open spec fn comparator_for(case_sensitive: bool) -> Comparator {
        if case_sensitive {
            Comparator::CaseSensitive
        } else {
            Comparator::CaseInsensitive
        }
    }

    #[verifier::type_invariant]
    spec fn consistent(&self) -> bool {
        self.comparator == Self::comparator_for(self.case_sensitive)
    }

    /// Whether the list compares its words as written.
    pub closed spec fn case_sensitive(&self) -> bool {
        self.case_sensitive
    }

    /// Creates a word list from the given words, ordered by the sorter if
    /// there is one.
    pub fn with_sorter<S: ArraySorter>(
        words: Vec<String>,
        case_sensitive: bool,
        sorter: Option<S>,
    ) -> (list: Self)
        ensures
            list.case_sensitive() == case_sensitive,
            list.comparator() == Self::comparator_for(case_sensitive),
            list.words().to_multiset() == texts(words@).to_multiset(),
            sorter is Some ==> is_sorted(list.words(), list.comparator()),
            sorter is None ==> list.words() == texts(words@),
    {
        let mut words = words;
        let comparator = if case_sensitive {
            Comparator::CaseSensitive
        } else {
            Comparator::CaseInsensitive
        };
        if let Some(sort) = sorter {
            sort.sort_with_comparator(words.as_mut_slice(), comparator);
        }
        ArrayWordList { words, case_sensitive, comparator }
    }

    /// Creates a word list from words that already stand in order.
    pub fn new(words: Vec<String>, case_sensitive: bool) -> (list: Self)
        ensures
            list.case_sensitive() == case_sensitive,
            list.comparator() == Self::comparator_for(case_sensitive),
            list.words() == texts(words@),
    {
        let comparator = if case_sensitive {
            Comparator::CaseSensitive
        } else {
            Comparator::CaseInsensitive
        };
        ArrayWordList { words, case_sensitive, comparator }
    }

    /// Creates a case-sensitive word list from words that already stand in
    /// order.
    pub fn with_words(words: Vec<String>) -> (list: Self)
        ensures
            list.case_sensitive(),
            list.comparator() == Comparator::CaseSensitive,
            list.words() == texts(words@),
    {
        Self::new(words, true)
    }
}

impl WordLists for ArrayWordList {
    closed spec fn words(&self) -> Seq<Seq<char>> {
        texts(self.words@)
    }

    closed spec fn comparator(&self) -> Comparator {
        self.comparator
    }

    fn len(&self) -> (n: usize) {
        self.words.len()
    }

    fn get(&self, index: usize) -> (word: &String) {
        &self.words[index]
    }

    fn get_comparator(&self) -> (c: Comparator) {
        self.comparator
    }
}

} // verus!
