//! The three lookup tables of the compute instruction: destination, jump and computation.

use vstd::prelude::*;
use crate::text::spells;

verus! {

/// The three-bit code of a destination mnemonic.
pub open spec fn dest_code(mnemonic: Seq<char>) -> Option<nat> {
    if mnemonic == "null"@ {
        Some(0b000)
    } else if mnemonic == "M"@ {
        Some(0b001)
    } else if mnemonic == "D"@ {
        Some(0b010)
    } else if mnemonic == "MD"@ {
        Some(0b011)
    } else if mnemonic == "A"@ {
        Some(0b100)
    } else if mnemonic == "AM"@ {
        Some(0b101)
    } else if mnemonic == "AD"@ {
        Some(0b110)
    } else if mnemonic == "AMD"@ {
        Some(0b111)
    } else {
        None
    }
}

/// The three-bit code of a jump mnemonic.
pub open spec fn jump_code(mnemonic: Seq<char>) -> Option<nat> {
    if mnemonic == "null"@ {
        Some(0b000)
    } else if mnemonic == "JGT"@ {
        Some(0b001)
    } else if mnemonic == "JEQ"@ {
        Some(0b010)
    } else if mnemonic == "JGE"@ {
        Some(0b011)
    } else if mnemonic == "JLT"@ {
        Some(0b100)
    } else if mnemonic == "JNE"@ {
        Some(0b101)
    } else if mnemonic == "JLE"@ {
        Some(0b110)
    } else if mnemonic == "JMP"@ {
        Some(0b111)
    } else {
        None
    }
}

/// The six-bit code of a computation on the registers `D` and `A`.
pub open spec fn register_comp_code(mnemonic: Seq<char>) -> Option<nat> {
    if mnemonic == "0"@ {
        Some(0b101010)
    } else if mnemonic == "1"@ {
        Some(0b111111)
    } else if mnemonic == "-1"@ {
        Some(0b111010)
    } else if mnemonic == "D"@ {
        Some(0b001100)
    } else if mnemonic == "A"@ {
        Some(0b110000)
    } else if mnemonic == "!D"@ {
        Some(0b001101)
    } else if mnemonic == "!A"@ {
        Some(0b110001)
    } else if mnemonic == "-D"@ {
        Some(0b001111)
    } else if mnemonic == "-A"@ {
        Some(0b110011)
    } else if mnemonic == "D+1"@ {
        Some(0b011111)
    } else if mnemonic == "A+1"@ {
        Some(0b110111)
    } else if mnemonic == "D-1"@ {
        Some(0b001110)
    } else if mnemonic == "A-1"@ {
        Some(0b110010)
    } else if mnemonic == "D+A"@ {
        Some(0b000010)
    } else if mnemonic == "D-A"@ {
        Some(0b010011)
    } else if mnemonic == "A-D"@ {
        Some(0b000111)
    } else if mnemonic == "D&A"@ {
        Some(0b000000)
    } else if mnemonic == "D|A"@ {
        Some(0b010101)
    } else {
        None
    }
}

/// For a computation that reads memory through `M`, the computation on `A` whose code
/// it shares.
pub open spec fn register_form(mnemonic: Seq<char>) -> Option<Seq<char>> {
    if mnemonic == "M"@ {
        Some("A"@)
    } else if mnemonic == "!M"@ {
        Some("!A"@)
    } else if mnemonic == "-M"@ {
        Some("-A"@)
    } else if mnemonic == "M+1"@ {
        Some("A+1"@)
    } else if mnemonic == "M-1"@ {
        Some("A-1"@)
    } else if mnemonic == "D+M"@ {
        Some("D+A"@)
    } else if mnemonic == "D-M"@ {
        Some("D-A"@)
    } else if mnemonic == "M-D"@ {
        Some("A-D"@)
    } else if mnemonic == "D&M"@ {
        Some("D&A"@)
    } else if mnemonic == "D|M"@ {
        Some("D|A"@)
    } else {
        None
    }
}

/// The selector bit and the six-bit code of a computation mnemonic. A computation on `M`
/// has the code of its form on `A` and the selector 1; any other has the selector 0.
pub open spec fn comp_code(mnemonic: Seq<char>) -> Option<(nat, nat)> {
    match register_form(mnemonic) {
        Some(form) => match register_comp_code(form) {
            Some(code) => Some((1, code)),
            None => None,
        },
        None => match register_comp_code(mnemonic) {
            Some(code) => Some((0, code)),
            None => None,
        },
    }
}

/// Every destination code fits in three bits.
pub proof fn lemma_dest_code_fits(mnemonic: Seq<char>)
    ensures
        dest_code(mnemonic) matches Some(code) ==> code < 8,
{
}

/// Every jump code fits in three bits.
pub proof fn lemma_jump_code_fits(mnemonic: Seq<char>)
    ensures
        jump_code(mnemonic) matches Some(code) ==> code < 8,
{
}

/// Every computation has a selector of one bit and a code of six bits.
pub proof fn lemma_comp_code_fits(mnemonic: Seq<char>)
    ensures
        comp_code(mnemonic) matches Some((selector, code)) ==> selector < 2 && code < 64,
{
}

/// How the mnemonics are spelled, character by character.
pub proof fn lemma_mnemonic_spelling()
    ensures
        "null"@.len() == 4 && "null"@[0] == 'n' && "null"@[1] == 'u' && "null"@[2] == 'l'
            && "null"@[3] == 'l',
        "M"@.len() == 1 && "M"@[0] == 'M',
        "D"@.len() == 1 && "D"@[0] == 'D',
        "MD"@.len() == 2 && "MD"@[0] == 'M' && "MD"@[1] == 'D',
        "A"@.len() == 1 && "A"@[0] == 'A',
        "AM"@.len() == 2 && "AM"@[0] == 'A' && "AM"@[1] == 'M',
        "AD"@.len() == 2 && "AD"@[0] == 'A' && "AD"@[1] == 'D',
        "AMD"@.len() == 3 && "AMD"@[0] == 'A' && "AMD"@[1] == 'M' && "AMD"@[2] == 'D',
        "JGT"@.len() == 3 && "JGT"@[0] == 'J' && "JGT"@[1] == 'G' && "JGT"@[2] == 'T',
        "JEQ"@.len() == 3 && "JEQ"@[0] == 'J' && "JEQ"@[1] == 'E' && "JEQ"@[2] == 'Q',
        "JGE"@.len() == 3 && "JGE"@[0] == 'J' && "JGE"@[1] == 'G' && "JGE"@[2] == 'E',
        "JLT"@.len() == 3 && "JLT"@[0] == 'J' && "JLT"@[1] == 'L' && "JLT"@[2] == 'T',
        "JNE"@.len() == 3 && "JNE"@[0] == 'J' && "JNE"@[1] == 'N' && "JNE"@[2] == 'E',
        "JLE"@.len() == 3 && "JLE"@[0] == 'J' && "JLE"@[1] == 'L' && "JLE"@[2] == 'E',
        "JMP"@.len() == 3 && "JMP"@[0] == 'J' && "JMP"@[1] == 'M' && "JMP"@[2] == 'P',
        "0"@.len() == 1 && "0"@[0] == '0',
        "1"@.len() == 1 && "1"@[0] == '1',
        "-1"@.len() == 2 && "-1"@[0] == '-' && "-1"@[1] == '1',
        "!D"@.len() == 2 && "!D"@[0] == '!' && "!D"@[1] == 'D',
        "!A"@.len() == 2 && "!A"@[0] == '!' && "!A"@[1] == 'A',
        "-D"@.len() == 2 && "-D"@[0] == '-' && "-D"@[1] == 'D',
        "-A"@.len() == 2 && "-A"@[0] == '-' && "-A"@[1] == 'A',
        "D+1"@.len() == 3 && "D+1"@[0] == 'D' && "D+1"@[1] == '+' && "D+1"@[2] == '1',
        "A+1"@.len() == 3 && "A+1"@[0] == 'A' && "A+1"@[1] == '+' && "A+1"@[2] == '1',
        "D-1"@.len() == 3 && "D-1"@[0] == 'D' && "D-1"@[1] == '-' && "D-1"@[2] == '1',
        "A-1"@.len() == 3 && "A-1"@[0] == 'A' && "A-1"@[1] == '-' && "A-1"@[2] == '1',
        "D+A"@.len() == 3 && "D+A"@[0] == 'D' && "D+A"@[1] == '+' && "D+A"@[2] == 'A',
        "D-A"@.len() == 3 && "D-A"@[0] == 'D' && "D-A"@[1] == '-' && "D-A"@[2] == 'A',
        "A-D"@.len() == 3 && "A-D"@[0] == 'A' && "A-D"@[1] == '-' && "A-D"@[2] == 'D',
        "D&A"@.len() == 3 && "D&A"@[0] == 'D' && "D&A"@[1] == '&' && "D&A"@[2] == 'A',
        "D|A"@.len() == 3 && "D|A"@[0] == 'D' && "D|A"@[1] == '|' && "D|A"@[2] == 'A',
        "!M"@.len() == 2 && "!M"@[0] == '!' && "!M"@[1] == 'M',
        "-M"@.len() == 2 && "-M"@[0] == '-' && "-M"@[1] == 'M',
        "M+1"@.len() == 3 && "M+1"@[0] == 'M' && "M+1"@[1] == '+' && "M+1"@[2] == '1',
        "M-1"@.len() == 3 && "M-1"@[0] == 'M' && "M-1"@[1] == '-' && "M-1"@[2] == '1',
        "D+M"@.len() == 3 && "D+M"@[0] == 'D' && "D+M"@[1] == '+' && "D+M"@[2] == 'M',
        "D-M"@.len() == 3 && "D-M"@[0] == 'D' && "D-M"@[1] == '-' && "D-M"@[2] == 'M',
        "M-D"@.len() == 3 && "M-D"@[0] == 'M' && "M-D"@[1] == '-' && "M-D"@[2] == 'D',
        "D&M"@.len() == 3 && "D&M"@[0] == 'D' && "D&M"@[1] == '&' && "D&M"@[2] == 'M',
        "D|M"@.len() == 3 && "D|M"@[0] == 'D' && "D|M"@[1] == '|' && "D|M"@[2] == 'M',
{
    reveal_strlit("null");
    reveal_strlit("M");
    reveal_strlit("D");
    reveal_strlit("MD");
    reveal_strlit("A");
    reveal_strlit("AM");
    reveal_strlit("AD");
    reveal_strlit("AMD");
    reveal_strlit("JGT");
    reveal_strlit("JEQ");
    reveal_strlit("JGE");
    reveal_strlit("JLT");
    reveal_strlit("JNE");
    reveal_strlit("JLE");
    reveal_strlit("JMP");
    reveal_strlit("0");
    reveal_strlit("1");
    reveal_strlit("-1");
    reveal_strlit("!D");
    reveal_strlit("!A");
    reveal_strlit("-D");
    reveal_strlit("-A");
    reveal_strlit("D+1");
    reveal_strlit("A+1");
    reveal_strlit("D-1");
    reveal_strlit("A-1");
    reveal_strlit("D+A");
    reveal_strlit("D-A");
    reveal_strlit("A-D");
    reveal_strlit("D&A");
    reveal_strlit("D|A");
    reveal_strlit("!M");
    reveal_strlit("-M");
    reveal_strlit("M+1");
    reveal_strlit("M-1");
    reveal_strlit("D+M");
    reveal_strlit("D-M");
    reveal_strlit("M-D");
    reveal_strlit("D&M");
    reveal_strlit("D|M");
}

/// The destination table, entry by entry.
pub proof fn lemma_dest_table()
    ensures
        dest_code("null"@) == Some(0b000nat),
        dest_code("M"@) == Some(0b001nat),
        dest_code("D"@) == Some(0b010nat),
        dest_code("MD"@) == Some(0b011nat),
        dest_code("A"@) == Some(0b100nat),
        dest_code("AM"@) == Some(0b101nat),
        dest_code("AD"@) == Some(0b110nat),
        dest_code("AMD"@) == Some(0b111nat),
{
    lemma_mnemonic_spelling();
}

/// The jump table, entry by entry.
pub proof fn lemma_jump_table()
    ensures
        jump_code("null"@) == Some(0b000nat),
        jump_code("JGT"@) == Some(0b001nat),
        jump_code("JEQ"@) == Some(0b010nat),
        jump_code("JGE"@) == Some(0b011nat),
        jump_code("JLT"@) == Some(0b100nat),
        jump_code("JNE"@) == Some(0b101nat),
        jump_code("JLE"@) == Some(0b110nat),
        jump_code("JMP"@) == Some(0b111nat),
{
    lemma_mnemonic_spelling();
}

/// The computation table, entry by entry: the computations on the registers with the
/// selector 0, and those on memory with the selector 1 and the code of their form on `A`.
pub proof fn lemma_comp_table()
    ensures
        comp_code("0"@) == Some((0nat, 0b101010nat)),
        comp_code("1"@) == Some((0nat, 0b111111nat)),
        comp_code("-1"@) == Some((0nat, 0b111010nat)),
        comp_code("D"@) == Some((0nat, 0b001100nat)),
        comp_code("A"@) == Some((0nat, 0b110000nat)),
        comp_code("!D"@) == Some((0nat, 0b001101nat)),
        comp_code("!A"@) == Some((0nat, 0b110001nat)),
        comp_code("-D"@) == Some((0nat, 0b001111nat)),
        comp_code("-A"@) == Some((0nat, 0b110011nat)),
        comp_code("D+1"@) == Some((0nat, 0b011111nat)),
        comp_code("A+1"@) == Some((0nat, 0b110111nat)),
        comp_code("D-1"@) == Some((0nat, 0b001110nat)),
        comp_code("A-1"@) == Some((0nat, 0b110010nat)),
        comp_code("D+A"@) == Some((0nat, 0b000010nat)),
        comp_code("D-A"@) == Some((0nat, 0b010011nat)),
        comp_code("A-D"@) == Some((0nat, 0b000111nat)),
        comp_code("D&A"@) == Some((0nat, 0b000000nat)),
        comp_code("D|A"@) == Some((0nat, 0b010101nat)),
        comp_code("M"@) == Some((1nat, 0b110000nat)),
        comp_code("!M"@) == Some((1nat, 0b110001nat)),
        comp_code("-M"@) == Some((1nat, 0b110011nat)),
        comp_code("M+1"@) == Some((1nat, 0b110111nat)),
        comp_code("M-1"@) == Some((1nat, 0b110010nat)),
        comp_code("D+M"@) == Some((1nat, 0b000010nat)),
        comp_code("D-M"@) == Some((1nat, 0b010011nat)),
        comp_code("M-D"@) == Some((1nat, 0b000111nat)),
        comp_code("D&M"@) == Some((1nat, 0b000000nat)),
        comp_code("D|M"@) == Some((1nat, 0b010101nat)),
{
    lemma_mnemonic_spelling();
}

/// No mnemonic of the three tables is empty, starts with `@`, or holds `=` or `;`.
pub proof fn lemma_mnemonics_are_plain(mnemonic: Seq<char>)
    requires
        dest_code(mnemonic) is Some || comp_code(mnemonic) is Some || jump_code(mnemonic) is Some,
    ensures
        mnemonic.len() > 0,
        mnemonic[0] != '@',
        !mnemonic.contains('='),
        !mnemonic.contains(';'),
{
    lemma_mnemonic_spelling();
}

/// Looks a destination mnemonic up.
pub fn dest(mnemonic: &[char]) -> (code: Option<u32>)
    ensures
        code is Some == dest_code(mnemonic@) is Some,
        code matches Some(c) ==> dest_code(mnemonic@) == Some(c as nat),
{
    if spells(mnemonic, "null") {
        Some(0b000)
    } else if spells(mnemonic, "M") {
        Some(0b001)
    } else if spells(mnemonic, "D") {
        Some(0b010)
    } else if spells(mnemonic, "MD") {
        Some(0b011)
    } else if spells(mnemonic, "A") {
        Some(0b100)
    } else if spells(mnemonic, "AM") {
        Some(0b101)
    } else if spells(mnemonic, "AD") {
        Some(0b110)
    } else if spells(mnemonic, "AMD") {
        Some(0b111)
    } else {
        None
    }
}

/// Looks a jump mnemonic up.
pub fn jump(mnemonic: &[char]) -> (code: Option<u32>)
    ensures
        code is Some == jump_code(mnemonic@) is Some,
        code matches Some(c) ==> jump_code(mnemonic@) == Some(c as nat),
{
    if spells(mnemonic, "null") {
        Some(0b000)
    } else if spells(mnemonic, "JGT") {
        Some(0b001)
    } else if spells(mnemonic, "JEQ") {
        Some(0b010)
    } else if spells(mnemonic, "JGE") {
        Some(0b011)
    } else if spells(mnemonic, "JLT") {
        Some(0b100)
    } else if spells(mnemonic, "JNE") {
        Some(0b101)
    } else if spells(mnemonic, "JLE") {
        Some(0b110)
    } else if spells(mnemonic, "JMP") {
        Some(0b111)
    } else {
        None
    }
}

/// Looks a computation on the registers `D` and `A` up.
pub fn register_comp(mnemonic: &[char]) -> (code: Option<u32>)
    ensures
        code is Some == register_comp_code(mnemonic@) is Some,
        code matches Some(c) ==> register_comp_code(mnemonic@) == Some(c as nat),
{
    if spells(mnemonic, "0") {
        Some(0b101010)
    } else if spells(mnemonic, "1") {
        Some(0b111111)
    } else if spells(mnemonic, "-1") {
        Some(0b111010)
    } else if spells(mnemonic, "D") {
        Some(0b001100)
    } else if spells(mnemonic, "A") {
        Some(0b110000)
    } else if spells(mnemonic, "!D") {
        Some(0b001101)
    } else if spells(mnemonic, "!A") {
        Some(0b110001)
    } else if spells(mnemonic, "-D") {
        Some(0b001111)
    } else if spells(mnemonic, "-A") {
        Some(0b110011)
    } else if spells(mnemonic, "D+1") {
        Some(0b011111)
    } else if spells(mnemonic, "A+1") {
        Some(0b110111)
    } else if spells(mnemonic, "D-1") {
        Some(0b001110)
    } else if spells(mnemonic, "A-1") {
        Some(0b110010)
    } else if spells(mnemonic, "D+A") {
        Some(0b000010)
    } else if spells(mnemonic, "D-A") {
        Some(0b010011)
    } else if spells(mnemonic, "A-D") {
        Some(0b000111)
    } else if spells(mnemonic, "D&A") {
        Some(0b000000)
    } else if spells(mnemonic, "D|A") {
        Some(0b010101)
    } else {
        None
    }
}

/// Looks a computation mnemonic up: its selector bit and its six-bit code.
pub fn comp(mnemonic: &[char]) -> (entry: Option<(u32, u32)>)
    ensures
        entry is Some == comp_code(mnemonic@) is Some,
        entry matches Some((selector, code)) ==> comp_code(mnemonic@) == Some(
            (selector as nat, code as nat),
        ),
{
    let form = if spells(mnemonic, "M") {
        Some("A")
    } else if spells(mnemonic, "!M") {
        Some("!A")
    } else if spells(mnemonic, "-M") {
        Some("-A")
    } else if spells(mnemonic, "M+1") {
        Some("A+1")
    } else if spells(mnemonic, "M-1") {
        Some("A-1")
    } else if spells(mnemonic, "D+M") {
        Some("D+A")
    } else if spells(mnemonic, "D-M") {
        Some("D-A")
    } else if spells(mnemonic, "M-D") {
        Some("A-D")
    } else if spells(mnemonic, "D&M") {
        Some("D&A")
    } else if spells(mnemonic, "D|M") {
        Some("D|A")
    } else {
        None
    };
    match form {
        Some(form) => {
            let letters = crate::text::chars_of(form);
            match register_comp(letters.as_slice()) {
                Some(code) => Some((1, code)),
                None => None,
            }
        },
        None => match register_comp(mnemonic) {
            Some(code) => Some((0, code)),
            None => None,
        },
    }
}

} // verus!
