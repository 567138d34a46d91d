use hack_assembler::error::AsmError;
use hack_assembler::output::{output_name, remove_all};
use hack_assembler::syntax::{find, is_address_line, is_label_line, is_valid_name};
use hack_assembler::tables::{comp, dest, jump, register_comp};
use hack_assembler::text::{
    chars_of, is_decimal_digit, is_decimal_number, number_up_to, push_decimal, same_text, spells,
    string_of,
};

fn letters(text: &str) -> Vec<char> {
    text.chars().collect()
}

#[test]
fn strings_and_characters_convert_both_ways() {
    for text in ["", "a", "@R0", "D=M;JGT", "é≠x", "line\nend"] {
        assert_eq!(chars_of(text), letters(text));
        assert_eq!(string_of(&letters(text)), text);
    }
}

#[test]
fn same_text_compares_character_by_character() {
    assert!(same_text(&letters("abc"), &letters("abc")));
    assert!(same_text(&[], &[]));
    assert!(!same_text(&letters("abc"), &letters("abd")));
    assert!(!same_text(&letters("abc"), &letters("ab")));
    assert!(!same_text(&letters(""), &letters("a")));
    assert!(spells(&letters("JMP"), "JMP"));
    assert!(!spells(&letters("JMP"), "JM"));
    assert!(!spells(&letters("jmp"), "JMP"));
}

#[test]
fn decimal_digits_and_numbers() {
    for c in "0123456789".chars() {
        assert!(is_decimal_digit(c));
    }
    for c in "/:aA+-. ٣".chars() {
        assert!(!is_decimal_digit(c));
    }
    assert!(is_decimal_number(&letters("0")));
    assert!(is_decimal_number(&letters("0123456789")));
    assert!(!is_decimal_number(&letters("")));
    assert!(!is_decimal_number(&letters("12a")));
    assert!(!is_decimal_number(&letters("-1")));
    assert!(!is_decimal_number(&letters("1.5")));
}

#[test]
fn numbers_are_read_up_to_a_limit() {
    assert_eq!(number_up_to(&letters("0"), 10), Some(0));
    assert_eq!(number_up_to(&letters("10"), 10), Some(10));
    assert_eq!(number_up_to(&letters("11"), 10), None);
    assert_eq!(number_up_to(&letters("0011"), 11), Some(11));
    assert_eq!(number_up_to(&letters("4294967295"), u32::MAX), Some(u32::MAX));
    assert_eq!(number_up_to(&letters("4294967296"), u32::MAX), None);
    assert_eq!(number_up_to(&letters("99999999999999999999999999"), u32::MAX), None);
    assert_eq!(number_up_to(&letters("32767"), 32767), Some(32767));
}

#[test]
fn numbers_are_written_in_decimal() {
    let cases = [
        (0usize, "0"),
        (7, "7"),
        (10, "10"),
        (16, "16"),
        (16384, "16384"),
        (1234567890, "1234567890"),
    ];
    for (n, text) in cases {
        let mut out = vec!['@'];
        push_decimal(&mut out, n);
        assert_eq!(out, letters(&format!("@{text}")));
    }
    let mut out = Vec::new();
    push_decimal(&mut out, usize::MAX);
    assert_eq!(string_of(&out), usize::MAX.to_string());
}

#[test]
fn shapes_of_lines() {
    assert!(is_label_line(&letters("(LOOP)")));
    assert!(is_label_line(&letters("()")));
    assert!(!is_label_line(&letters("(")));
    assert!(!is_label_line(&letters(")")));
    assert!(!is_label_line(&letters("(LOOP")));
    assert!(!is_label_line(&letters("LOOP)")));
    assert!(!is_label_line(&letters("")));
    assert!(is_address_line(&letters("@")));
    assert!(is_address_line(&letters("@12")));
    assert!(!is_address_line(&letters("D@")));
    assert!(!is_address_line(&letters("")));
    assert!(is_valid_name(&letters("x")));
    assert!(is_valid_name(&letters("_1")));
    assert!(!is_valid_name(&letters("1x")));
    assert!(!is_valid_name(&letters("")));
}

#[test]
fn first_occurrence_is_found() {
    assert_eq!(find(&letters("D=A;JMP"), '='), Some(1));
    assert_eq!(find(&letters("D=A;JMP"), ';'), Some(3));
    assert_eq!(find(&letters("a==b"), '='), Some(1));
    assert_eq!(find(&letters("abc"), '='), None);
    assert_eq!(find(&letters(""), '='), None);
    assert_eq!(find(&letters("="), '='), Some(0));
}

#[test]
fn tables_give_numbers() {
    assert_eq!(dest(&letters("AMD")), Some(7));
    assert_eq!(dest(&letters("D")), Some(2));
    assert_eq!(dest(&letters("DA")), None);
    assert_eq!(jump(&letters("JMP")), Some(7));
    assert_eq!(jump(&letters("JLT")), Some(4));
    assert_eq!(jump(&letters("")), None);
    assert_eq!(register_comp(&letters("D|A")), Some(0b010101));
    assert_eq!(register_comp(&letters("M")), None);
    assert_eq!(comp(&letters("M")), Some((1, 0b110000)));
    assert_eq!(comp(&letters("A")), Some((0, 0b110000)));
    assert_eq!(comp(&letters("D&M")), Some((1, 0)));
    assert_eq!(comp(&letters("M&D")), None);
}

#[test]
fn output_file_is_named_after_the_source_file() {
    assert_eq!(output_name("Add.asm"), "Add.hack");
    assert_eq!(output_name("dir/Max.asm"), "dir/Max.hack");
    assert_eq!(output_name("prog"), "proghack");
    assert_eq!(output_name(""), "hack");
    assert_eq!(output_name("asm"), "hack");
    assert_eq!(output_name("asmasm.asm"), ".hack");
    assert_eq!(output_name("aasmsm.asm"), "asm.hack");
    assert_eq!(output_name("as.as"), "as.ashack");
}

#[test]
fn occurrences_are_removed_from_left_to_right() {
    assert_eq!(remove_all(&letters("aaa"), &letters("aa")), letters("a"));
    assert_eq!(remove_all(&letters("abcabc"), &letters("bc")), letters("aa"));
    assert_eq!(remove_all(&letters("abc"), &letters("")), letters("abc"));
    assert_eq!(remove_all(&letters("ab"), &letters("abc")), letters("ab"));
    assert_eq!(remove_all(&letters(""), &letters("x")), letters(""));
}

#[test]
fn every_failure_has_its_message() {
    assert_eq!(AsmError::Pattern.message(), "preprocessor: the cleaning pattern was refused");
    assert_eq!(AsmError::Operand.message(), "address: the operand is neither a number nor a name");
    assert_eq!(AsmError::Range.message(), "address: the operand does not fit in fifteen bits");
    assert_eq!(AsmError::Syntax.message(), "compute: the computation is missing");
    assert_eq!(AsmError::Dest.message(), "compute: unknown destination");
    assert_eq!(AsmError::Comp.message(), "compute: unknown computation");
    assert_eq!(AsmError::Jump.message(), "compute: unknown jump");
}
