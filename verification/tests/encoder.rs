use hack_assembler::encoder::{
    a_instruction, binary_converter, c_instruction, comparing_for_comp, encode,
    handle_instruction,
};
use hack_assembler::error::AsmError;

fn a(line: &str) -> Result<String, AsmError> {
    a_instruction(&line.to_string())
}

fn c(line: &str) -> Result<String, AsmError> {
    c_instruction(&line.to_string())
}

fn word(text: &str) -> Result<String, AsmError> {
    Ok(text.to_string())
}

#[test]
fn binary_digits_of_a_number() {
    assert_eq!(binary_converter(0), "");
    assert_eq!(binary_converter(1), "1");
    assert_eq!(binary_converter(2), "10");
    assert_eq!(binary_converter(5), "101");
    assert_eq!(binary_converter(16), "10000");
    assert_eq!(binary_converter(32767), "111111111111111");
    assert_eq!(binary_converter(32768), "1000000000000000");
    assert_eq!(binary_converter(u32::MAX), "11111111111111111111111111111111");
}

#[test]
fn address_instruction_is_zero_then_fifteen_bits() {
    assert_eq!(a("@0"), word("0000000000000000"));
    assert_eq!(a("@1"), word("0000000000000001"));
    assert_eq!(a("@2"), word("0000000000000010"));
    assert_eq!(a("@16"), word("0000000000010000"));
    assert_eq!(a("@16384"), word("0100000000000000"));
    assert_eq!(a("@24576"), word("0110000000000000"));
    assert_eq!(a("@32767"), word("0111111111111111"));
    assert_eq!(a("@21845"), word("0101010101010101"));
}

#[test]
fn leading_zeros_do_not_change_an_address() {
    assert_eq!(a("@007"), word("0000000000000111"));
    assert_eq!(a("@0000000000000000000000000032767"), word("0111111111111111"));
}

#[test]
fn address_above_fifteen_bits_is_out_of_range() {
    assert_eq!(a("@32768"), Err(AsmError::Range));
    assert_eq!(a("@65535"), Err(AsmError::Range));
    assert_eq!(a("@4294967296"), Err(AsmError::Range));
    assert_eq!(a("@340282366920938463463374607431768211456"), Err(AsmError::Range));
}

#[test]
fn address_that_is_no_number_is_rejected() {
    assert_eq!(a("@"), Err(AsmError::Operand));
    assert_eq!(a("@foo"), Err(AsmError::Operand));
    assert_eq!(a("@12a"), Err(AsmError::Operand));
    assert_eq!(a("@-1"), Err(AsmError::Operand));
    assert_eq!(a("@+5"), Err(AsmError::Operand));
    assert_eq!(a("@1 2"), Err(AsmError::Operand));
    assert_eq!(a("12"), Err(AsmError::Operand));
    assert_eq!(a(""), Err(AsmError::Operand));
    assert_eq!(a("D=A"), Err(AsmError::Operand));
}

#[test]
fn computation_table() {
    let table = [
        ("0", "0101010"),
        ("1", "0111111"),
        ("-1", "0111010"),
        ("D", "0001100"),
        ("A", "0110000"),
        ("!D", "0001101"),
        ("!A", "0110001"),
        ("-D", "0001111"),
        ("-A", "0110011"),
        ("D+1", "0011111"),
        ("A+1", "0110111"),
        ("D-1", "0001110"),
        ("A-1", "0110010"),
        ("D+A", "0000010"),
        ("D-A", "0010011"),
        ("A-D", "0000111"),
        ("D&A", "0000000"),
        ("D|A", "0010101"),
        ("M", "1110000"),
        ("!M", "1110001"),
        ("-M", "1110011"),
        ("M+1", "1110111"),
        ("M-1", "1110010"),
        ("D+M", "1000010"),
        ("D-M", "1010011"),
        ("M-D", "1000111"),
        ("D&M", "1000000"),
        ("D|M", "1010101"),
    ];
    for (mnemonic, digits) in table {
        assert_eq!(comparing_for_comp(mnemonic), word(digits));
        assert_eq!(c(mnemonic), word(&format!("111{digits}000000")));
    }
}

#[test]
fn unknown_computation_is_rejected() {
    for mnemonic in ["", "2", "B", "A+D", "M+D", "1+D", "D+D", "d", "D +1", "null", "A+M", "AM"] {
        assert_eq!(comparing_for_comp(mnemonic), Err(AsmError::Comp));
    }
    assert_eq!(c("D=A+D"), Err(AsmError::Comp));
    assert_eq!(c("null"), Err(AsmError::Comp));
    assert_eq!(c("D=A=M"), Err(AsmError::Comp));
    assert_eq!(c("(LOOP)"), Err(AsmError::Comp));
}

#[test]
fn destination_table() {
    let table = [
        ("null", "000"),
        ("M", "001"),
        ("D", "010"),
        ("MD", "011"),
        ("A", "100"),
        ("AM", "101"),
        ("AD", "110"),
        ("AMD", "111"),
    ];
    for (mnemonic, digits) in table {
        assert_eq!(c(&format!("{mnemonic}=0")), word(&format!("1110101010{digits}000")));
    }
}

#[test]
fn unknown_destination_is_rejected() {
    for mnemonic in ["", "X", "DM", "MA", "DA", "ADM", "m", "0"] {
        assert_eq!(c(&format!("{mnemonic}=0")), Err(AsmError::Dest));
    }
    assert_eq!(c("A;JMP=D"), Err(AsmError::Dest));
}

#[test]
fn jump_table() {
    let table = [
        ("null", "000"),
        ("JGT", "001"),
        ("JEQ", "010"),
        ("JGE", "011"),
        ("JLT", "100"),
        ("JNE", "101"),
        ("JLE", "110"),
        ("JMP", "111"),
    ];
    for (mnemonic, digits) in table {
        assert_eq!(c(&format!("D;{mnemonic}")), word(&format!("1110001100000{digits}")));
    }
}

#[test]
fn unknown_jump_is_rejected() {
    for mnemonic in ["", "JXX", "jmp", "JMP;JMP", "J"] {
        assert_eq!(c(&format!("D;{mnemonic}")), Err(AsmError::Jump));
    }
    assert_eq!(c("D=A;JMP;JGT"), Err(AsmError::Jump));
}

#[test]
fn missing_computation_is_a_syntax_error() {
    assert_eq!(c(""), Err(AsmError::Syntax));
    assert_eq!(c("D="), Err(AsmError::Syntax));
    assert_eq!(c(";JMP"), Err(AsmError::Syntax));
    assert_eq!(c("D=;JMP"), Err(AsmError::Syntax));
    assert_eq!(c("="), Err(AsmError::Syntax));
    assert_eq!(c("X=;JXX"), Err(AsmError::Syntax));
}

#[test]
fn errors_come_in_the_order_destination_computation_jump() {
    assert_eq!(c("X=Y;Z"), Err(AsmError::Dest));
    assert_eq!(c("D=Y;Z"), Err(AsmError::Comp));
    assert_eq!(c("D=A;Z"), Err(AsmError::Jump));
}

#[test]
fn compute_instruction_with_all_three_fields() {
    assert_eq!(c("D=A;JMP"), word("1110110000010111"));
    assert_eq!(c("AMD=D|M;JLE"), word("1111010101111110"));
    assert_eq!(c("MD=M-1;JNE"), word("1111110010011101"));
}

#[test]
fn compute_instruction_with_destination_only() {
    assert_eq!(c("D=A"), word("1110110000010000"));
    assert_eq!(c("D=D+A"), word("1110000010010000"));
    assert_eq!(c("M=D"), word("1110001100001000"));
    assert_eq!(c("M=1"), word("1110111111001000"));
}

#[test]
fn compute_instruction_with_jump_only() {
    assert_eq!(c("0;JMP"), word("1110101010000111"));
    assert_eq!(c("D;JGT"), word("1110001100000001"));
    assert_eq!(c("M;JEQ"), word("1111110000000010"));
}

#[test]
fn compute_instruction_with_computation_only() {
    assert_eq!(c("D+1"), word("1110011111000000"));
    assert_eq!(c("0"), word("1110101010000000"));
    assert_eq!(c("M"), word("1111110000000000"));
}

#[test]
fn null_may_be_written_out() {
    assert_eq!(c("null=D;null"), word("1110001100000000"));
}

#[test]
fn encode_tells_address_from_compute_by_the_first_character() {
    assert_eq!(encode(&"@5".to_string()), word("0000000000000101"));
    assert_eq!(encode(&"D=M".to_string()), word("1111110000010000"));
    assert_eq!(encode(&"D@5".to_string()), Err(AsmError::Comp));
    assert_eq!(encode(&"@D=M".to_string()), Err(AsmError::Operand));
    assert_eq!(encode(&"".to_string()), Err(AsmError::Syntax));
}

#[test]
fn handled_instruction_ends_with_a_line_end() {
    assert_eq!(handle_instruction(&"@2".to_string()), word("0000000000000010\n"));
    assert_eq!(handle_instruction(&"D=A".to_string()), word("1110110000010000\n"));
    assert_eq!(handle_instruction(&"@x".to_string()), Err(AsmError::Operand));
    assert_eq!(handle_instruction(&"D=Q".to_string()), Err(AsmError::Comp));
}

#[test]
fn encoding_the_same_instruction_twice_gives_the_same_word() {
    for line in ["@12345", "AM=D-1;JLT", "@99999", "Q"] {
        let text = line.to_string();
        assert_eq!(encode(&text), encode(&text));
        assert_eq!(handle_instruction(&text), handle_instruction(&text));
    }
}

#[test]
fn every_address_word_reads_back_as_its_address() {
    for address in [0u32, 1, 2, 3, 15, 16, 255, 256, 1000, 16384, 24576, 32766, 32767] {
        let text = a(&format!("@{address}")).unwrap();
        assert_eq!(text.chars().count(), 16);
        assert_eq!(u32::from_str_radix(&text, 2), Ok(address));
    }
}

#[test]
fn characters_outside_ascii_are_just_unknown_mnemonics() {
    assert_eq!(c("D=é"), Err(AsmError::Comp));
    assert_eq!(a("@١٢"), Err(AsmError::Operand));
}
