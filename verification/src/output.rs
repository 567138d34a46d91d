//! Where the assembled program goes: the name of the output file.

use vstd::prelude::*;
use crate::text::{chars_of, same_text, string_of};

verus! {

/// `text` without the occurrences of `word`, found from left to right and never
/// overlapping. An empty `word` occurs nowhere.
pub open spec fn without(text: Seq<char>, word: Seq<char>) -> Seq<char>
    decreases text.len(),
{
    if word.len() == 0 || text.len() < word.len() {
        text
    } else if text.take(word.len() as int) == word {
        without(text.skip(word.len() as int), word)
    } else {
        seq![text.first()] + without(text.skip(1), word)
    }
}

/// The name of the file that the program assembled from `file_name` is written to:
/// `file_name` without any `asm` in it, and with `hack` at its end.
pub open spec fn output_name_of(file_name: Seq<char>) -> Seq<char> {
    without(file_name, "asm"@) + "hack"@
}

/// Takes every occurrence of `word` out of `text`.
pub fn remove_all(text: &[char], word: &[char]) -> (rest: Vec<char>)
    ensures
        rest@ == without(text@, word@),
{
    let mut rest: Vec<char> = Vec::new();
    let mut i: usize = 0;
    assert(text@.skip(0) == text@);
    assert(rest@ + without(text@, word@) == without(text@, word@));
    while i < text.len()
        invariant
            i <= text.len(),
            without(text@, word@) == rest@ + without(text@.skip(i as int), word@),
        decreases text.len() - i,
    {
        let ghost tail = text@.skip(i as int);
        let ghost next = text@.skip(i + 1);
        let fits = word.len() > 0 && word.len() <= text.len() - i;
        if fits && same_text(&text[i..i + word.len()], word) {
            assert(tail.take(word.len() as int) == text@.subrange(i as int, i + word.len()));
            assert(tail.skip(word.len() as int) == text@.skip(i + word.len()));
            i += word.len();
        } else {
            proof {
                assert(tail.skip(1) == next);
                assert(tail == seq![tail.first()] + next);
                if fits {
                    assert(tail.take(word.len() as int) == text@.subrange(
                        i as int,
                        i + word.len(),
                    ));
                } else {
                    assert(without(next, word@) == next);
                }
            }
            rest.push(text[i]);
            i += 1;
        }
    }
    rest
}

/// The name of the output file for the source file `file_name`.
pub fn output_name(file_name: &str) -> (name: String)
    ensures
        name@ == output_name_of(file_name@),
{
    let text = chars_of(file_name);
    let word = chars_of("asm");
    let mut name = string_of(remove_all(text.as_slice(), word.as_slice()).as_slice());
    name.append("hack");
    name
}

} // verus!
