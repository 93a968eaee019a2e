//! A dictionary that searches a word list by bisection.
use crate::dictionary::word_lists::order::{is_sorted, word_order, WordOrder};
use crate::dictionary::word_lists::{
    binary_search, binary_search_finds_present_words, bisect, WordLists,
};
use crate::dictionary::Dictionary;
use vstd::prelude::*;

verus! {

/// Provides fast searching for dictionary words using a word list. The
/// searches are right only if the word list is sorted under its own
/// comparator.
pub struct WordListDictionary<W: WordLists> {
    word_list: W,
}

impl<W: WordLists> WordListDictionary<W> {
    /// The word list that the dictionary searches.
    pub closed spec fn list(&self) -> W {
        self.word_list
    }

    /// Creates a dictionary over the given word list.
    pub fn new(word_list: W) -> (dictionary: WordListDictionary<W>)
        ensures
            dictionary.list() == word_list,
    {
        Self { word_list }
    }

    /// In a dictionary over a sorted list, the words that are found are
    /// those that some word of the list is equal to under the list's
    /// comparator.
    pub proof fn found_words_are_listed_words(&self, word: Seq<char>)
        requires
            is_sorted(self.list().words(), self.list().comparator()),
        ensures
            self.contains(word) <==> exists|at: int|
                0 <= at < self.list().words().len() && #[trigger] word_order(
                    self.list().words()[at],
                    word,
                    self.list().comparator(),
                ) == WordOrder::Equal,
    {
        binary_search_finds_present_words(self.list().words(), word, self.list().comparator());
    }
}

impl<W: WordLists> Dictionary for WordListDictionary<W> {
    open spec fn contains(&self, word: Seq<char>) -> bool {
        bisect(
            self.list().words(),
            word,
            self.list().comparator(),
            0,
            self.list().words().len() as int,
        ) is Some
    }

    open spec fn size(&self) -> nat {
        self.list().words().len()
    }

    fn search(&self, word: &str) -> (found: bool) {
        binary_search(&self.word_list, word).is_some()
    }

    fn len(&self) -> (n: usize) {
        self.word_list.len()
    }
}

} // verus!
