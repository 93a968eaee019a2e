//! Counting and collecting the characters of a password that belong to a
//! set of characters.
use crate::text::{chars_of, contains_char, lemma_filter_push, string_of};
use vstd::prelude::*;

verus! {

/// The characters of `input` that are also in `characters`, in order.
pub open spec fn matching_characters(characters: Seq<char>, input: Seq<char>) -> Seq<char> {
    input.filter(|c: char| characters.contains(c))
}

/// The first `maximum_len` of the characters of `input` that are also in
/// `characters`, or all of them if they are fewer.
pub open spec fn first_matching_characters(
    characters: Seq<char>,
    input: Seq<char>,
    maximum_len: nat,
) -> Seq<char> {
    let all = matching_characters(characters, input);
    if all.len() <= maximum_len {
        all
    } else {
        all.take(maximum_len as int)
    }
}

/// Collects the characters of `input` that are in `characters`, up to a
/// limit if there is one.
fn collect_matching(characters: &Vec<char>, input: &Vec<char>, limit: Option<usize>) -> (found: Vec<
    char,
>)
    ensures
        limit is None ==> found@ == matching_characters(characters@, input@),
        limit matches Some(maximum_len) ==> found@ == first_matching_characters(
            characters@,
            input@,
            maximum_len as nat,
        ),
{
    let ghost keep = |c: char| characters@.contains(c);
    let mut found: Vec<char> = Vec::new();
    let mut i: usize = 0;
    proof {
        assert(input@.take(0) =~= Seq::<char>::empty());
        assert(Seq::<char>::empty().filter(keep) =~= Seq::<char>::empty());
    }
    while i < input.len()
        invariant
            i <= input.len(),
            keep == (|c: char| characters@.contains(c)),
            limit is None ==> found@ == input@.take(i as int).filter(keep),
            limit matches Some(maximum_len) ==> found@.len() <= maximum_len && (if input@.take(
                i as int,
            ).filter(keep).len() <= maximum_len {
                found@ == input@.take(i as int).filter(keep)
            } else {
                found@ == input@.take(i as int).filter(keep).take(maximum_len as int)
            }),
        decreases input.len() - i,
    {
        let c = input[i];
        let ghost before = input@.take(i as int).filter(keep);
        proof {
            assert(input@.take(i + 1) =~= input@.take(i as int).push(c));
            lemma_filter_push(input@.take(i as int), c, keep);
        }
        if contains_char(characters, c) {
            let full = match limit {
                Some(maximum_len) => found.len() >= maximum_len,
                None => false,
            };
            if !full {
                found.push(c);
            } else {
                proof {
                    let maximum_len = limit.unwrap();
                    assert(before.push(c).take(maximum_len as int) =~= before.take(
                        maximum_len as int,
                    ));
                    assert(before.len() == maximum_len ==> before.take(maximum_len as int)
                        =~= before);
                }
            }
        }
        i += 1;
    }
    proof {
        assert(input@.take(i as int) =~= input@);
    }
    found
}

/// Returns count of the characters in the input string that are also in
/// the characters string.
pub fn count_matching_characters(characters: &str, input: &str) -> (n: usize)
    ensures
        n == matching_characters(characters@, input@).len(),
{
    let set = chars_of(characters);
    let text = chars_of(input);
    collect_matching(&set, &text, None).len()
}

/// Returns the characters in the input string that are also in the
/// characters string, up to a maximum number of them.
pub fn get_matching_characters(characters: &str, input: &str, maximum_len: usize) -> (found: String)
    ensures
        found@ == first_matching_characters(characters@, input@, maximum_len as nat),
{
    let set = chars_of(characters);
    let text = chars_of(input);
    let found = collect_matching(&set, &text, Some(maximum_len));
    string_of(&found)
}

} // verus!
