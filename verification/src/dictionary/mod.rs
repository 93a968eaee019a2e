//! Dictionaries: sets of words that answer membership queries.
use crate::dictionary::word_lists::order::is_sorted;
use crate::dictionary::word_lists::sort::SliceSort;
use crate::dictionary::word_lists::word_list_dictionary::WordListDictionary;
use crate::dictionary::word_lists::{create_from_reads, lines_of_all, ArrayWordList, WordLists};
use crate::text::texts;
use vstd::prelude::*;

pub mod ternary_tree;
pub mod word_lists;

verus! {

/// A set of words that can be asked whether it holds a word.
pub trait Dictionary {
    /// Whether the dictionary holds the word.
    spec fn contains(&self, word: Seq<char>) -> bool;

    /// The number of words that the dictionary counts.
    spec fn size(&self) -> nat;

    /// Returns whether the dictionary holds the word.
    fn search(&self, word: &str) -> (found: bool)
        ensures
            found == self.contains(word@),
    ;

    /// Returns the number of words in the dictionary.
    fn len(&self) -> (n: usize)
        ensures
            n == self.size(),
    ;
}

/// Builds a dictionary over a sorted word list from texts that hold one
/// word per line.
pub struct DictionaryBuilder {
    reads: Vec<String>,
    case_sensitive: bool,
}

impl DictionaryBuilder {
    /// The texts added so far.
    pub closed spec fn reads(&self) -> Seq<Seq<char>> {
        texts(self.reads@)
    }

    /// Whether the dictionary to build compares words as written.
    pub closed spec fn is_case_sensitive(&self) -> bool {
        self.case_sensitive
    }

    /// Builds the dictionary: the lines of all texts, sorted under the
    /// comparator of the chosen case policy.
    pub fn build(self) -> (dictionary: WordListDictionary<ArrayWordList>)
        ensures
            dictionary.list().comparator() == ArrayWordList::comparator_for(
                self.is_case_sensitive(),
            ),
            dictionary.list().words().to_multiset() == lines_of_all(self.reads()).to_multiset(),
            is_sorted(dictionary.list().words(), dictionary.list().comparator()),
    {
        let case_sensitive = self.case_sensitive;
        let word_list = create_from_reads(self.reads, case_sensitive, Some(SliceSort));
        WordListDictionary::new(word_list)
    }

    /// Adds a text of words, one per line.
    pub fn add_read(self, read: String) -> (builder: DictionaryBuilder)
        ensures
            builder.reads() == self.reads().push(read@),
            builder.is_case_sensitive() == self.is_case_sensitive(),
    {
        let mut builder = self;
        builder.reads.push(read);
        assert(builder.reads() =~= self.reads().push(read@));
        builder
    }

    /// Chooses the case policy.
    pub fn case_sensitive(self, case_sensitive: bool) -> (builder: DictionaryBuilder)
        ensures
            builder.reads() == self.reads(),
            builder.is_case_sensitive() == case_sensitive,
    {
        let mut builder = self;
        builder.case_sensitive = case_sensitive;
        builder
    }

    /// Creates a builder without texts, for a dictionary that ignores case.
    pub fn new() -> (builder: Self)
        ensures
            builder.reads() == Seq::<Seq<char>>::empty(),
            !builder.is_case_sensitive(),
    {
        let builder = Self { reads: Vec::new(), case_sensitive: false };
        assert(builder.reads() =~= Seq::<Seq<char>>::empty());
        builder
    }
}

impl Default for DictionaryBuilder {
    fn default() -> (builder: Self)
        ensures
            builder.reads() == Seq::<Seq<char>>::empty(),
            !builder.is_case_sensitive(),
    {
        Self::new()
    }
}

} // verus!
