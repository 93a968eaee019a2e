//! A generator of random passwords that pass given character rules. The
//! randomness comes from the crate `rand`.
use crate::rule::character::CharacterRule;
use crate::rule::character_characteristics::all_characters;
use crate::text::{chars_of, string_of};
use rand::distr::{Distribution, Uniform};
use rand::rngs::StdRng;
use rand::SeedableRng;
use vstd::prelude::*;

verus! {

/// The standard random number generator of `rand`.
#[verifier::external_type_specification]
#[verifier::external_body]
pub struct ExStdRng(rand::rngs::StdRng);

/// Makes a generator seeded by the operating system, with
/// `SeedableRng::try_from_os_rng`, which fails where the operating system
/// gives no randomness. Nothing is stated of the outcome.
#[verifier::external_body]
fn seeded_generator() -> (random: Option<StdRng>) {
    StdRng::try_from_os_rng().ok()
}

/// Says why there is no uniform distribution over the numbers below `n`,
/// in the words of `rand`: `Uniform::try_from(0..n)` refuses the empty
/// range and no other, and the text is that of its error.
#[verifier::external_body]
fn uniform_refusal(n: usize) -> (refusal: Option<String>)
    ensures
        refusal is Some <==> n == 0,
{
    Uniform::<usize>::try_from(0..n).err().map(|error| error.to_string())
}

/// Draws a number below `n` with `Uniform::try_from(0..n)` and
/// `Distribution::sample`. The uniform distribution exists exactly for a
/// range that is not empty, and a sample lies in the range; which number
/// is drawn is chance.
#[verifier::external_body]
fn sample_below(random: &mut StdRng, n: usize) -> (index: Option<usize>)
    ensures
        index is Some <==> n > 0,
        index matches Some(i) ==> i < n,
{
    Uniform::try_from(0..n).ok().map(|uni| uni.sample(random))
}

/// Generates random passwords.
pub struct PasswordGenerator {
    random: StdRng,
}

/// The number of characters that the rules ask for in a password of a
/// length: of each rule its number, but not more than the length.
pub open spec fn asked(rules: Seq<CharacterRule>, len: usize) -> nat
    decreases rules.len(),
{
    if rules.len() == 0 {
        0
    } else {
        asked(rules.drop_last(), len) + if rules.last().required() < len {
            rules.last().required() as nat
        } else {
            len as nat
        }
    }
}

/// Whether each member of `text` is a member of `source`.
pub open spec fn drawn_from(text: Seq<char>, source: Seq<char>) -> bool {
    forall|i: int| 0 <= i < text.len() ==> source.contains(#[trigger] text[i])
}

impl PasswordGenerator {
    /// Creates a generator that is seeded by the operating system, if the
    /// operating system gives the randomness for it.
    pub fn new() -> (generator: Option<Self>) {
        match seeded_generator() {
            Some(random) => Some(Self { random }),
            None => None,
        }
    }

    /// Generates a password of at least `len` characters: for each rule
    /// as many characters of its set as it asks for, but not more than
    /// `len`, and then characters of all sets up to the length. It fails
    /// if `len` is zero, and, in the words of `rand`, if there is no rule
    /// or a rule has no characters.
    pub fn generate_password(&mut self, len: usize, rules: &Vec<CharacterRule>) -> (r: Result<
        String,
        String,
    >)
        ensures
            r is Ok <==> len > 0 && rules@.len() > 0 && forall|i: int|
                0 <= i < rules@.len() ==> (#[trigger] rules@[i]).characters_text().len() > 0,
            r matches Ok(password) ==> password@.len() == (if asked(rules@, len) > len {
                asked(rules@, len)
            } else {
                len as nat
            }) && drawn_from(password@, all_characters(rules@)),
            len == 0 ==> (r matches Err(message) && message@
                == "length must be greater than 0"@),
    {
        if len == 0 {
            return Err(String::from_str("length must be greater than 0"));
        }
        let mut target: Vec<char> = Vec::new();
        let mut all_chars: Vec<char> = Vec::new();
        let mut i: usize = 0;
        proof {
            assert(rules@.take(0) =~= Seq::<CharacterRule>::empty());
        }
        while i < rules.len()
            invariant
                i <= rules.len(),
                len > 0,
                forall|k: int| 0 <= k < i ==> (#[trigger] rules@[k]).characters_text().len() > 0,
                target@.len() == asked(rules@.take(i as int), len),
                all_chars@ == all_characters(rules@.take(i as int)),
                drawn_from(target@, all_chars@),
            decreases rules.len() - i,
        {
            proof {
                assert(rules@.take(i + 1).drop_last() =~= rules@.take(i as int));
                assert(rules@.take(i + 1).last() == rules@[i as int]);
            }
            let rule = &rules[i];
            let source = chars_of(rule.valid_characters());
            let size: usize = if len < rule.num_characters() {
                len
            } else {
                rule.num_characters()
            };
            let ghost before = target@;
            let ghost known = all_chars@;
            match self.fill_random_char(&source, size, &mut target) {
                Ok(()) => {},
                Err(message) => {
                    return Err(message);
                },
            }
            let mut more = source;
            all_chars.append(&mut more);
            proof {
                let now = all_chars@;
                assert forall|k: int| 0 <= k < target@.len() implies now.contains(
                    #[trigger] target@[k],
                ) by {
                    if k < before.len() {
                        assert(target@[k] == before[k]);
                        let at = choose|at: int| 0 <= at < known.len() && known[at] == before[k];
                        assert(now[at] == before[k]);
                    } else {
                        let c = target@[k];
                        let from = rules@[i as int].characters_text();
                        assert(target@.skip(before.len() as int)[k - before.len()] == c);
                        let at = choose|at: int| 0 <= at < from.len() && from[at] == c;
                        assert(now[known.len() + at] == c);
                    }
                }
            }
            i += 1;
        }
        proof {
            assert(rules@.take(i as int) =~= rules@);
        }
        let rest: usize = if target.len() < len {
            len - target.len()
        } else {
            0
        };
        let ghost before = target@;
        match self.fill_random_char(&all_chars, rest, &mut target) {
            Ok(()) => {},
            Err(message) => {
                return Err(message);
            },
        }
        proof {
            assert forall|k: int| 0 <= k < target@.len() implies all_chars@.contains(
                #[trigger] target@[k],
            ) by {
                if k < before.len() {
                    assert(target@[k] == before[k]);
                } else {
                    assert(target@.skip(before.len() as int)[k - before.len()] == target@[k]);
                }
            }
        }
        Ok(string_of(&target))
    }

    /// Appends `size` characters drawn from `source` to `target`. It fails,
    /// in the words of `rand`, if `source` is empty.
    fn fill_random_char(&mut self, source: &Vec<char>, size: usize, target: &mut Vec<char>) -> (r:
        Result<(), String>)
        ensures
            r is Ok <==> source@.len() > 0,
            r is Ok ==> final(target)@.len() == old(target)@.len() + size && final(target)@.take(
                old(target)@.len() as int,
            ) == old(target)@ && drawn_from(
                final(target)@.skip(old(target)@.len() as int),
                source@,
            ),
    {
        if let Some(message) = uniform_refusal(source.len()) {
            return Err(message);
        }
        let ghost start = target@;
        let mut k: usize = 0;
        proof {
            assert(target@.take(start.len() as int) =~= start);
        }
        while k < size
            invariant
                k <= size,
                source@.len() > 0,
                target@.len() == start.len() + k,
                target@.take(start.len() as int) == start,
                drawn_from(target@.skip(start.len() as int), source@),
            decreases size - k,
        {
            let ghost before = target@;
            match sample_below(&mut self.random, source.len()) {
                Some(index) => {
                    target.push(source[index]);
                    proof {
                        assert(target@.take(start.len() as int) =~= before.take(
                            start.len() as int,
                        ));
                        let tail = target@.skip(start.len() as int);
                        assert forall|j: int| 0 <= j < tail.len() implies source@.contains(
                            #[trigger] tail[j],
                        ) by {
                            if j < k {
                                assert(tail[j] == before.skip(start.len() as int)[j]);
                            } else {
                                assert(tail[j] == source@[index as int]);
                            }
                        }
                    }
                },
                None => {},
            }
            k += 1;
        }
        Ok(())
    }

    /// Exchanges each character of a text, from the first to the last,
    /// with one at a random place. It fails, in the words of `rand`, on
    /// the empty text.
    pub fn randomize(&mut self, text: String) -> (r: Result<String, String>)
        ensures
            r is Ok <==> text@.len() > 0,
            r matches Ok(mixed) ==> mixed@.to_multiset() == text@.to_multiset(),
    {
        let mut chars = chars_of(text.as_str());
        if let Some(message) = uniform_refusal(chars.len()) {
            return Err(message);
        }
        let mut i: usize = 0;
        while i < chars.len()
            invariant
                i <= chars.len(),
                chars@.len() == text@.len(),
                chars@.len() > 0,
                chars@.to_multiset() == text@.to_multiset(),
            decreases chars.len() - i,
        {
            match sample_below(&mut self.random, chars.len()) {
                Some(n) => {
                    let ghost before = chars@;
                    let c = chars[n];
                    let other = chars[i];
                    chars[n] = other;
                    chars[i] = c;
                    proof {
                        lemma_swap_keeps_chars(before, n as int, i as int);
                    }
                },
                None => {},
            }
            i += 1;
        }
        Ok(string_of(&chars))
    }
}

/// Exchanging two members of a list keeps its members as a multiset.
proof fn lemma_swap_keeps_chars(s: Seq<char>, a: int, b: int)
    requires
        0 <= a < s.len(),
        0 <= b < s.len(),
    ensures
        s.update(a, s[b]).update(b, s[a]).to_multiset() == s.to_multiset(),
{
    broadcast use {vstd::multiset::group_multiset_axioms, vstd::seq_lib::to_multiset_contains};

    vstd::seq_lib::to_multiset_update(s, a, s[b]);
    vstd::seq_lib::to_multiset_update(s.update(a, s[b]), b, s[a]);
    assert(s.contains(s[a]));
    assert(s.contains(s[b]));
    if a == b {
        assert(s.update(a, s[b]).update(b, s[a]) =~= s);
    } else {
        assert(s.update(a, s[b])[b] == s[b]);
        assert(s.update(a, s[b]).update(b, s[a]).to_multiset() =~= s.to_multiset());
    }
}

} // verus!
