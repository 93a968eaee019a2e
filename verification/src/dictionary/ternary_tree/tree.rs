//! A ternary search tree that holds a set of words. Each node carries one
//! character and three children: the words whose next character is less,
//! the rest of the words whose next character is this one, and the words
//! whose next character is greater.
use crate::text::{chars_of, lowercase, to_lowercase};
use vstd::prelude::*;

verus! {

struct Node {
    key: char,
    present: bool,
    left: Option<Box<Node>>,
    mid: Option<Box<Node>>,
    right: Option<Box<Node>>,
}

/// The place of a character in the order of the tree's keys.
pub open spec fn rank(c: char) -> int {
    c as int
}

/// Whether the subtree below `node` holds `word`: the descent compares the
/// word's first character with the key, goes left on less and right on
/// greater, and on equal either ends at a one-character word, which is held
/// if the node is marked, or goes on below `mid` with the rest of the word.
spec fn holds(node: Option<Box<Node>>, word: Seq<char>) -> bool
    decreases node, word.len(),
{
    match node {
        None => false,
        Some(n) => word.len() > 0 && (if rank(word[0]) < rank(n.key) {
            holds(n.left, word)
        } else if rank(word[0]) > rank(n.key) {
            holds(n.right, word)
        } else if word.len() == 1 {
            n.present
        } else {
            holds(n.mid, word.drop_first())
        }),
    }
}

/// The words that the subtree below `node` holds.
spec fn words_of(node: Option<Box<Node>>) -> Set<Seq<char>> {
    Set::new(|word: Seq<char>| holds(node, word))
}

/// The text that a word is stored and looked up under.
pub open spec fn key_of(word: Seq<char>, case_sensitive: bool) -> Seq<char> {
    if case_sensitive {
        word
    } else {
        lowercase(word)
    }
}

proof fn lemma_same_head_and_tail(a: Seq<char>, b: Seq<char>)
    requires
        a.len() > 0,
        b.len() > 0,
        a[0] == b[0],
        a.drop_first() == b.drop_first(),
    ensures
        a == b,
{
    assert(a.drop_first().len() == a.len() - 1);
    assert(b.drop_first().len() == b.len() - 1);
    assert forall|i: int| 0 <= i < a.len() implies a[i] == b[i] by {
        if i > 0 {
            assert(a.drop_first()[i - 1] == a[i]);
            assert(b.drop_first()[i - 1] == b[i]);
        }
    }
    assert(a =~= b);
}

/// A chain of nodes linked by `mid` that holds the rest of `word` from
/// position `at` on, and nothing else.
fn chain(word: &Vec<char>, at: usize) -> (node: Box<Node>)
    requires
        at < word.len(),
    ensures
        words_of(Some(node)) == Set::<Seq<char>>::empty().insert(word@.skip(at as int)),
    decreases word.len() - at,
{
    let ghost rest = word@.skip(at as int);
    if at + 1 == word.len() {
        let node = Box::new(Node { key: word[at], present: true, left: None, mid: None, right: None });
        proof {
            reveal_with_fuel(holds, 2);
            assert forall|w: Seq<char>| holds(Some(node), w) <==> w == rest by {
                if w.len() == 1 && w[0] == word@[at as int] {
                    assert(w =~= rest);
                }
            }
            assert(words_of(Some(node)) =~= Set::<Seq<char>>::empty().insert(rest));
        }
        node
    } else {
        let below = chain(word, at + 1);
        let node = Box::new(
            Node { key: word[at], present: false, left: None, mid: Some(below), right: None },
        );
        proof {
            let tail = word@.skip(at + 1);
            assert(rest.drop_first() =~= tail);
            assert(words_of(Some(below)).contains(tail));
            reveal_with_fuel(holds, 2);
            assert forall|w: Seq<char>| holds(Some(node), w) <==> w == rest by {
                if w.len() > 1 && w[0] == word@[at as int] {
                    assert(words_of(Some(below)).contains(w.drop_first()) == holds(
                        Some(below),
                        w.drop_first(),
                    ));
                    if w.drop_first() == tail {
                        lemma_same_head_and_tail(w, rest);
                    }
                }
            }
            assert(words_of(Some(node)) =~= Set::<Seq<char>>::empty().insert(rest));
        }
        node
    }
}

/// Puts the rest of `word` from position `at` on into the subtree and says
/// whether the subtree did not hold it before.
fn insert_below(node: &mut Option<Box<Node>>, word: &Vec<char>, at: usize) -> (added: bool)
    requires
        at < word.len(),
    ensures
        words_of(*final(node)) == words_of(*old(node)).insert(word@.skip(at as int)),
        added == !words_of(*old(node)).contains(word@.skip(at as int)),
    decreases word.len() - at, *old(node),
{
    let ghost before = *node;
    let ghost rest = word@.skip(at as int);
    match node.take() {
        None => {
            let fresh = chain(word, at);
            *node = Some(fresh);
            proof {
                assert(words_of(before) =~= Set::<Seq<char>>::empty());
            }
            true
        },
        Some(mut boxed) => {
            let c = word[at];
            let ghost old_node = *boxed;
            let added: bool;
            if c < boxed.key {
                added = insert_below(&mut boxed.left, word, at);
                proof {
                    let new_left = boxed.left;
                    assert forall|w: Seq<char>|
                        holds(Some(boxed), w) <==> (holds(before, w) || w == rest) by {
                        assert(words_of(new_left).contains(w) == holds(new_left, w));
                        assert(words_of(old_node.left).contains(w) == holds(old_node.left, w));
                    }
                    assert(holds(before, rest) == holds(old_node.left, rest));
                    assert(words_of(old_node.left).contains(rest) == holds(old_node.left, rest));
                }
            } else if c > boxed.key {
                added = insert_below(&mut boxed.right, word, at);
                proof {
                    let new_right = boxed.right;
                    assert forall|w: Seq<char>|
                        holds(Some(boxed), w) <==> (holds(before, w) || w == rest) by {
                        assert(words_of(new_right).contains(w) == holds(new_right, w));
                        assert(words_of(old_node.right).contains(w) == holds(old_node.right, w));
                    }
                    assert(holds(before, rest) == holds(old_node.right, rest));
                    assert(words_of(old_node.right).contains(rest) == holds(old_node.right, rest));
                }
            } else if at + 1 == word.len() {
                added = !boxed.present;
                boxed.present = true;
                proof {
                    assert forall|w: Seq<char>|
                        holds(Some(boxed), w) <==> (holds(before, w) || w == rest) by {
                        if w.len() == 1 && w[0] == c {
                            assert(w =~= rest);
                        }
                    }
                }
            } else {
                added = insert_below(&mut boxed.mid, word, at + 1);
                proof {
                    let tail = word@.skip(at + 1);
                    assert(rest.drop_first() =~= tail);
                    let new_mid = boxed.mid;
                    assert forall|w: Seq<char>|
                        holds(Some(boxed), w) <==> (holds(before, w) || w == rest) by {
                        if w.len() > 1 && w[0] == c {
                            let t = w.drop_first();
                            assert(words_of(new_mid).contains(t) == holds(new_mid, t));
                            assert(words_of(old_node.mid).contains(t) == holds(old_node.mid, t));
                            if t == tail {
                                lemma_same_head_and_tail(w, rest);
                            }
                        }
                    }
                    assert(holds(before, rest) == holds(old_node.mid, tail));
                    assert(words_of(old_node.mid).contains(tail) == holds(old_node.mid, tail));
                }
            }
            *node = Some(boxed);
            proof {
                assert(words_of(*node) =~= words_of(before).insert(rest));
            }
            added
        },
    }
}

/// Says whether the subtree holds the rest of `word` from position `at` on.
fn find_below(node: &Option<Box<Node>>, word: &Vec<char>, at: usize) -> (found: bool)
    requires
        at < word.len(),
    ensures
        found == words_of(*node).contains(word@.skip(at as int)),
{
    let mut current: &Option<Box<Node>> = node;
    let mut i: usize = at;
    loop
        invariant
            i < word.len(),
            holds(*current, word@.skip(i as int)) == holds(*node, word@.skip(at as int)),
        decreases word.len() - i, *current,
    {
        match current {
            None => {
                return false;
            },
            Some(n) => {
                let c = word[i];
                if c < n.key {
                    current = &n.left;
                } else if c > n.key {
                    current = &n.right;
                } else if i + 1 == word.len() {
                    return n.present;
                } else {
                    proof {
                        assert(word@.skip(i as int).drop_first() =~= word@.skip(i + 1));
                    }
                    current = &n.mid;
                    i += 1;
                }
            },
        }
    }
}

/// A ternary search tree over the keys of words: the words themselves in a
/// case-sensitive tree, their lowercase forms otherwise. The empty key is
/// never held.
pub struct Tst {
    root: Option<Box<Node>>,
    case_sensitive: bool,
    count: usize,
}

impl Tst {
    #[verifier::type_invariant]
    spec fn counted(&self) -> bool {
        &&& words_of(self.root).finite()
        &&& self.count == words_of(self.root).len()
    }

    /// The keys that the tree holds.
    pub closed spec fn keys(&self) -> Set<Seq<char>> {
        words_of(self.root)
    }

    /// Whether the tree stores words as written.
    pub closed spec fn case_sensitive(&self) -> bool {
        self.case_sensitive
    }

    /// Creates an empty tree with the given case policy.
    pub fn new(case_sensitive: bool) -> (tree: Tst)
        ensures
            tree.keys() == Set::<Seq<char>>::empty(),
            tree.case_sensitive() == case_sensitive,
    {
        proof {
            assert(words_of(None) =~= Set::<Seq<char>>::empty());
        }
        Tst { root: None, case_sensitive, count: 0 }
    }

    /// The characters of the key of a word.
    fn key_chars(&self, word: &str) -> (key: Vec<char>)
        ensures
            key@ == key_of(word@, self.case_sensitive()),
    {
        if self.case_sensitive {
            chars_of(word)
        } else {
            let folded = to_lowercase(word);
            chars_of(folded.as_str())
        }
    }

    /// Returns the key of a word: the text that the word is stored and
    /// looked up under.
    pub fn key(&self, word: &str) -> (key: String)
        ensures
            key@ == key_of(word@, self.case_sensitive()),
    {
        let chars = self.key_chars(word);
        crate::text::string_of(&chars)
    }

    /// Puts the key of a word into the tree, unless the key is empty, and
    /// says whether the tree has grown by it.
    pub fn insert(&mut self, word: &str) -> (added: bool)
        requires
            old(self).keys().len() < usize::MAX,
        ensures
            final(self).case_sensitive() == old(self).case_sensitive(),
            final(self).keys().finite(),
            key_of(word@, old(self).case_sensitive()).len() > 0 ==> final(self).keys() == old(
                self,
            ).keys().insert(key_of(word@, old(self).case_sensitive())),
            key_of(word@, old(self).case_sensitive()).len() == 0 ==> final(self).keys() == old(
                self,
            ).keys(),
            added == (key_of(word@, old(self).case_sensitive()).len() > 0 && !old(
                self,
            ).keys().contains(key_of(word@, old(self).case_sensitive()))),
            final(self).keys().len() == old(self).keys().len() + if added {
                1nat
            } else {
                0nat
            },
    {
        proof {
            use_type_invariant(&*self);
        }
        let key = self.key_chars(word);
        if key.len() == 0 {
            return false;
        }
        proof {
            assert(key@.skip(0) =~= key@);
        }
        let mut taken = Tst::new(self.case_sensitive);
        core::mem::swap(self, &mut taken);
        proof {
            use_type_invariant(&taken);
        }
        let Tst { root, case_sensitive, count } = taken;
        let mut root = root;
        let added = insert_below(&mut root, &key, 0);
        let count: usize = if added {
            count + 1
        } else {
            count
        };
        *self = Tst { root, case_sensitive, count };
        added
    }

    /// Says whether the tree holds the key of a word.
    pub fn get(&self, word: &str) -> (found: bool)
        ensures
            found == (self.keys().contains(key_of(word@, self.case_sensitive()))),
            key_of(word@, self.case_sensitive()).len() == 0 ==> !found,
    {
        let key = self.key_chars(word);
        if key.len() == 0 {
            proof {
                assert(!holds(self.root, key@));
            }
            return false;
        }
        proof {
            assert(key@.skip(0) =~= key@);
        }
        find_below(&self.root, &key, 0)
    }

    /// Returns the number of keys in the tree.
    pub fn len(&self) -> (n: usize)
        ensures
            n == self.keys().len(),
            self.keys().finite(),
    {
        proof {
            use_type_invariant(self);
        }
        self.count
    }

    /// Whether the tree stores words as written.
    pub fn is_case_sensitive(&self) -> (r: bool)
        ensures
            r == self.case_sensitive(),
    {
        self.case_sensitive
    }
}

} // verus!
