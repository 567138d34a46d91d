//! The pipeline: preprocessor, symbol resolver and encoder, one after the other. Every
//! symbol is resolved before the first instruction is encoded.

use vstd::prelude::*;
use crate::encoder::{
    address_word, encode, encoded, is_word, lemma_address_line_encodes, lemma_encoded_is_word,
    MAX_ADDRESS,
};
use crate::error::AsmError;
use crate::preprocess::{clean_source, cleaned};
use crate::resolver::{
    final_table, instructions, lemma_resolved_len, outcome, resolved, symbols,
};
use crate::syntax::{is_reference, operand};

verus! {

/// The words of a resolved program, one for each instruction and in the order of the
/// instructions, or the error of the first instruction that cannot be encoded.
pub open spec fn encoded_program(code: Seq<Seq<char>>) -> Result<Seq<Seq<char>>, AsmError>
    decreases code.len(),
{
    if code.len() == 0 {
        Ok(Seq::empty())
    } else {
        match encoded_program(code.drop_last()) {
            Err(e) => Err(e),
            Ok(words) => match encoded(code.last()) {
                Ok(word) => Ok(words.push(word)),
                Err(e) => Err(e),
            },
        }
    }
}

/// What assembling the lines of a program comes to: its symbols are resolved, then its
/// instructions are encoded.
pub open spec fn assembled(lines: Seq<Seq<char>>) -> Result<Seq<Seq<char>>, AsmError> {
    match resolved(lines) {
        Ok(code) => encoded_program(code),
        Err(e) => Err(e),
    }
}

/// Whether every one of `words` is sixteen binary digits.
pub open spec fn all_words(words: Seq<Seq<char>>) -> bool {
    forall|k: int| 0 <= k < words.len() ==> is_word(#[trigger] words[k])
}

/// A program is encoded when, and only when, each of its instructions can be encoded.
/// There is then one word for each instruction, in order, and each is sixteen binary
/// digits. Otherwise the error is that of the first instruction that cannot be encoded.
pub proof fn lemma_encoded_program(code: Seq<Seq<char>>)
    ensures
        match encoded_program(code) {
            Ok(words) => {
                &&& words.len() == code.len()
                &&& forall|k: int|
                    0 <= k < code.len() ==> encoded(#[trigger] code[k]) == Ok::<
                        Seq<char>,
                        AsmError,
                    >(words[k])
                &&& all_words(words)
            },
            Err(e) => exists|k: int|
                {
                    &&& 0 <= k < code.len()
                    &&& encoded(#[trigger] code[k]) == Err::<Seq<char>, AsmError>(e)
                    &&& forall|i: int| 0 <= i < k ==> encoded(#[trigger] code[i]) is Ok
                },
        },
    decreases code.len(),
{
    if code.len() > 0 {
        let front = code.drop_last();
        lemma_encoded_program(front);
        lemma_encoded_is_word(code.last());
        match encoded_program(front) {
            Err(e) => {
                let k = choose|k: int|
                    {
                        &&& 0 <= k < front.len()
                        &&& encoded(#[trigger] front[k]) == Err::<Seq<char>, AsmError>(e)
                        &&& forall|i: int| 0 <= i < k ==> encoded(#[trigger] front[i]) is Ok
                    };
                assert(code[k] == front[k]);
                assert forall|i: int| 0 <= i < k implies encoded(#[trigger] code[i]) is Ok by {
                    assert(code[i] == front[i]);
                }
            },
            Ok(words) => {
                assert forall|i: int| 0 <= i < front.len() implies encoded(#[trigger] code[i])
                    == Ok::<Seq<char>, AsmError>(words[i]) by {
                    assert(code[i] == front[i]);
                }
                match encoded(code.last()) {
                    Ok(word) => {},
                    Err(e) => {
                        assert(code[code.len() - 1] == code.last());
                    },
                }
            },
        }
    }
}

/// Encodes every instruction of a resolved program, in order.
pub fn encode_program(code: &Vec<String>) -> (words: Result<Vec<String>, AsmError>)
    ensures
        outcome(words) == encoded_program(code.deep_view()),
        words matches Ok(list) ==> list.len() == code.len() && all_words(list.deep_view()),
{
    let mut words: Vec<String> = Vec::new();
    let mut i: usize = 0;
    assert(words.deep_view() == Seq::<Seq<char>>::empty());
    while i < code.len()
        invariant
            i <= code.len(),
            words.len() == i,
            encoded_program(code.deep_view().take(i as int)) == Ok::<Seq<Seq<char>>, AsmError>(
                words.deep_view(),
            ),
        decreases code.len() - i,
    {
        let ghost seen = code.deep_view().take(i + 1);
        assert(seen.drop_last() == code.deep_view().take(i as int));
        assert(seen.last() == code[i as int]@);
        match encode(&code[i]) {
            Ok(word) => {
                let ghost done = words.deep_view();
                words.push(word);
                assert(words.deep_view() == done.push(word@));
            },
            Err(e) => {
                proof {
                    lemma_first_error_stays(code.deep_view(), i + 1);
                }
                return Err(e);
            },
        }
        i += 1;
    }
    proof {
        assert(code.deep_view().take(code.len() as int) == code.deep_view());
        lemma_encoded_program(code.deep_view());
    }
    Ok(words)
}

/// Once an instruction could not be encoded, the instructions after it change nothing.
proof fn lemma_first_error_stays(code: Seq<Seq<char>>, i: int)
    requires
        0 <= i <= code.len(),
        encoded_program(code.take(i)) is Err,
    ensures
        encoded_program(code) == encoded_program(code.take(i)),
    decreases code.len() - i,
{
    if i == code.len() {
        assert(code.take(i) == code);
    } else {
        assert(code.take(i + 1).drop_last() == code.take(i));
        lemma_first_error_stays(code, i + 1);
    }
}

/// An assembled program has one word for each instruction, none for a label definition,
/// and the word of an instruction that refers to a symbol is the word of the address
/// that the symbol stands for.
pub proof fn lemma_assembled(lines: Seq<Seq<char>>)
    ensures
        assembled(lines) matches Ok(words) ==> {
            &&& words.len() == instructions(lines).len()
            &&& all_words(words)
            &&& forall|j: int|
                0 <= j < words.len() && is_reference(#[trigger] instructions(lines)[j]) ==> {
                    &&& final_table(lines)[operand(instructions(lines)[j])] <= MAX_ADDRESS
                    &&& words[j] == address_word(
                        final_table(lines)[operand(instructions(lines)[j])],
                    )
                }
        },
{
    if assembled(lines) is Ok {
        let code = resolved(lines)->Ok_0;
        let words = assembled(lines)->Ok_0;
        lemma_resolved_len(lines);
        lemma_encoded_program(code);
        assert forall|j: int|
            0 <= j < words.len() && is_reference(#[trigger] instructions(lines)[j]) implies {
            &&& final_table(lines)[operand(instructions(lines)[j])] <= MAX_ADDRESS
            &&& words[j] == address_word(final_table(lines)[operand(instructions(lines)[j])])
        } by {
            lemma_address_line_encodes(final_table(lines)[operand(instructions(lines)[j])]);
            assert(encoded(code[j]) == Ok::<Seq<char>, AsmError>(words[j]));
        }
    }
}

/// Assembles the lines of a program: resolves its symbols, then encodes its instructions.
pub fn assemble(lines: &Vec<String>) -> (words: Result<Vec<String>, AsmError>)
    ensures
        outcome(words) == assembled(lines.deep_view()),
        words matches Ok(list) ==> list.len() == instructions(lines.deep_view()).len()
            && all_words(list.deep_view()),
{
    proof {
        lemma_assembled(lines.deep_view());
    }
    match symbols(lines) {
        Ok(code) => encode_program(&code),
        Err(e) => Err(e),
    }
}

/// What assembling source text comes to: `Pattern` where the regex engine refuses the
/// cleaning pattern, else what assembling the cleaned lines comes to.
pub open spec fn assembled_source(source: Seq<char>) -> Result<Seq<Seq<char>>, AsmError> {
    match cleaned(source) {
        Ok(lines) => assembled(lines),
        Err(e) => Err(e),
    }
}

/// Assembles source text: cleans it into lines, resolves the symbols and encodes the
/// instructions.
pub fn assemble_source(source: &str) -> (words: Result<Vec<String>, AsmError>)
    ensures
        outcome(words) == assembled_source(source@),
        words matches Ok(list) ==> all_words(list.deep_view()),
{
    match clean_source(source) {
        Ok(lines) => assemble(&lines),
        Err(e) => Err(e),
    }
}

} // verus!
