//! A dictionary that keeps its words in a ternary search tree.
use crate::dictionary::ternary_tree::tree::{key_of, Tst};
use crate::dictionary::word_lists::order::Comparator;
use crate::dictionary::word_lists::WordLists;
use crate::dictionary::Dictionary;
use vstd::prelude::*;

pub mod tree;

verus! {

/// The distinct non-empty keys of a list of words under a case policy.
pub open spec fn keys_of(words: Seq<Seq<char>>, case_sensitive: bool) -> Set<Seq<char>> {
    Set::new(
        |key: Seq<char>|
            key.len() > 0 && exists|at: int|
                0 <= at < words.len() && key_of(#[trigger] words[at], case_sensitive) == key,
    )
}

/// Every word of a list whose key is not empty has its key among the keys
/// of the list: a dictionary built from the list finds each such word.
pub proof fn every_listed_word_has_its_key(words: Seq<Seq<char>>, case_sensitive: bool, at: int)
    requires
        0 <= at < words.len(),
        key_of(words[at], case_sensitive).len() > 0,
    ensures
        keys_of(words, case_sensitive).contains(key_of(words[at], case_sensitive)),
{
}

/// Taking one more word of a list adds its key to the keys, unless the key
/// is empty.
proof fn lemma_keys_of_next(words: Seq<Seq<char>>, case_sensitive: bool, n: int)
    requires
        0 <= n < words.len(),
    ensures
        keys_of(words.take(n + 1), case_sensitive) == if key_of(words[n], case_sensitive).len()
            > 0 {
            keys_of(words.take(n), case_sensitive).insert(key_of(words[n], case_sensitive))
        } else {
            keys_of(words.take(n), case_sensitive)
        },
{
    let shorter = words.take(n);
    let longer = words.take(n + 1);
    let added = key_of(words[n], case_sensitive);
    assert forall|key: Seq<char>|
        keys_of(longer, case_sensitive).contains(key) <==> (keys_of(
            shorter,
            case_sensitive,
        ).contains(key) || (added.len() > 0 && key == added)) by {
        if keys_of(longer, case_sensitive).contains(key) {
            let at = choose|at: int|
                0 <= at < longer.len() && key_of(#[trigger] longer[at], case_sensitive) == key;
            if at < n {
                assert(key_of(shorter[at], case_sensitive) == key);
            }
        }
        if keys_of(shorter, case_sensitive).contains(key) {
            let at = choose|at: int|
                0 <= at < shorter.len() && key_of(#[trigger] shorter[at], case_sensitive) == key;
            assert(key_of(longer[at], case_sensitive) == key);
        }
        if added.len() > 0 && key == added {
            assert(key_of(longer[n], case_sensitive) == key);
        }
    }
    if added.len() > 0 {
        assert(keys_of(longer, case_sensitive) =~= keys_of(shorter, case_sensitive).insert(added));
    } else {
        assert(keys_of(longer, case_sensitive) =~= keys_of(shorter, case_sensitive));
    }
}

/// A dictionary backed by a ternary search tree. In a case-insensitive
/// dictionary words are stored and looked up by their lowercase forms.
pub struct TernaryTreeDictionary {
    tree: Tst,
}

impl TernaryTreeDictionary {
    /// The keys that the dictionary holds.
    pub closed spec fn keys(&self) -> Set<Seq<char>> {
        self.tree.keys()
    }

    /// Whether the dictionary tells upper case from lower case.
    pub closed spec fn case_sensitive(&self) -> bool {
        self.tree.case_sensitive()
    }

    /// Creates a dictionary that holds the words of the given list, with
    /// the case policy of the list's comparator.
    pub fn with_wordlist<W: WordLists>(wordlist: W) -> (dictionary: Self)
        ensures
            dictionary.case_sensitive() == (wordlist.comparator() == Comparator::CaseSensitive),
            dictionary.keys() == keys_of(wordlist.words(), dictionary.case_sensitive()),
            dictionary.keys().finite(),
    {
        Self::with_wordlist_and_median(wordlist)
    }

    /// Creates a dictionary that holds the words of the given list, put in
    /// one by one in the order of the list.
    pub fn with_wordlist_and_median<W: WordLists>(wordlist: W) -> (dictionary: Self)
        ensures
            dictionary.case_sensitive() == (wordlist.comparator() == Comparator::CaseSensitive),
            dictionary.keys() == keys_of(wordlist.words(), dictionary.case_sensitive()),
            dictionary.keys().finite(),
    {
        let case_sensitive = wordlist.get_comparator().is_case_sensitive();
        let mut tst = Tst::new(case_sensitive);
        let n: usize = wordlist.len();
        let ghost words = wordlist.words();
        let mut i: usize = 0;
        proof {
            assert(keys_of(words.take(0), case_sensitive) =~= Set::<Seq<char>>::empty());
        }
        while i < n
            invariant
                i <= n,
                n == words.len(),
                words == wordlist.words(),
                tst.case_sensitive() == case_sensitive,
                tst.keys() == keys_of(words.take(i as int), case_sensitive),
                tst.keys().finite(),
                tst.keys().len() <= i,
            decreases n - i,
        {
            let word = wordlist.get(i);
            proof {
                lemma_keys_of_next(words, case_sensitive, i as int);
            }
            tst.insert(word.as_str());
            i += 1;
        }
        proof {
            assert(words.take(n as int) =~= words);
        }
        TernaryTreeDictionary { tree: tst }
    }

    /// Returns the key of a word: the text that the dictionary holds and
    /// looks the word up under. A word with an empty key is never held.
    pub fn key(&self, word: &str) -> (key: String)
        ensures
            key@ == key_of(word@, self.case_sensitive()),
    {
        self.tree.key(word)
    }

    /// Puts a word into the dictionary. A word that the dictionary holds
    /// already, as written or in another case where the dictionary ignores
    /// case, leaves the number of words as it is.
    pub fn insert(&mut self, word: &str)
        requires
            old(self).keys().len() < usize::MAX,
        ensures
            final(self).case_sensitive() == old(self).case_sensitive(),
            final(self).keys().finite(),
            key_of(word@, old(self).case_sensitive()).len() > 0 ==> final(self).keys() == old(
                self,
            ).keys().insert(key_of(word@, old(self).case_sensitive())),
            key_of(word@, old(self).case_sensitive()).len() == 0 ==> final(self).keys() == old(
                self,
            ).keys(),
    {
        self.tree.insert(word);
    }
}

/// A dictionary that was built from a list of words finds every word of
/// the list whose key is not empty, and the number of its words is the
/// number of distinct non-empty keys of the list.
pub proof fn dictionary_finds_its_words(
    dictionary: TernaryTreeDictionary,
    words: Seq<Seq<char>>,
    at: int,
)
    requires
        dictionary.keys() == keys_of(words, dictionary.case_sensitive()),
        0 <= at < words.len(),
        key_of(words[at], dictionary.case_sensitive()).len() > 0,
    ensures
        dictionary.contains(words[at]),
        dictionary.size() == keys_of(words, dictionary.case_sensitive()).len(),
{
    every_listed_word_has_its_key(words, dictionary.case_sensitive(), at);
}

impl Dictionary for TernaryTreeDictionary {
    open spec fn contains(&self, word: Seq<char>) -> bool {
        self.keys().contains(key_of(word, self.case_sensitive()))
    }

    open spec fn size(&self) -> nat {
        self.keys().len()
    }

    fn search(&self, word: &str) -> (found: bool) {
        self.tree.get(word)
    }

    fn len(&self) -> (n: usize) {
        self.tree.len()
    }
}

} // verus!
