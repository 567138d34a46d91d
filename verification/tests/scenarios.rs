use hack_assembler::{assemble, assemble_source, clean_source, encode_program, symbols, AsmError};

fn assembled_words(source: &str) -> Vec<String> {
    assemble_source(source).expect("the program assembles")
}

fn resolved_lines(source: &str) -> Vec<String> {
    let lines = clean_source(source).expect("the source is cleaned");
    symbols(&lines).expect("the symbols resolve")
}

#[test]
fn adds_two_and_three() {
    let out = assembled_words("@2\nD=A\n@3\nD=D+A\n@0\nM=D");
    assert_eq!(
        out,
        vec![
            "0000000000000010",
            "1110110000010000",
            "0000000000000011",
            "1110000010010000",
            "0000000000000000",
            "1110001100001000",
        ]
    );
}

#[test]
fn forward_referenced_variable_gets_sixteen() {
    let source = "@foo\nM=1\n@foo\nD=M";
    assert_eq!(resolved_lines(source), vec!["@16", "M=1", "@16", "D=M"]);
    let out = assembled_words(source);
    assert_eq!(out.len(), 4);
    assert_eq!(out[0], "0000000000010000");
    assert_eq!(out[1], "1110111111001000");
    assert_eq!(out[2], "0000000000010000");
    assert_eq!(out[3], "1111110000010000");
}

#[test]
fn label_at_the_top_resolves_to_zero() {
    let source = "(START)\n@5\n0;JMP\n@START\n0;JMP";
    assert_eq!(resolved_lines(source), vec!["@5", "0;JMP", "@0", "0;JMP"]);
    let out = assembled_words(source);
    assert_eq!(
        out,
        vec![
            "0000000000000101",
            "1110101010000111",
            "0000000000000000",
            "1110101010000111",
        ]
    );
}

#[test]
fn maximum_of_two_numbers() {
    let source = "// Computes R2 = max(R0, R1)\n\
   @R0\n\
   D=M              // D = first number\n\
   @R1\n\
   D=D-M            // D = first number - second number\n\
   @OUTPUT_FIRST\n\
   D;JGT            // if D>0 (first is greater) goto output_first\n\
   @R1\n\
   D=M              // D = second number\n\
   @OUTPUT_D\n\
   0;JMP            // goto output_d\n\
(OUTPUT_FIRST)\n\
   @R0\n\
   D=M              // D = first number\n\
(OUTPUT_D)\n\
   @R2\n\
   M=D              // M[2] = D (greatest number)\n\
(INFINITE_LOOP)\n\
   @INFINITE_LOOP\n\
   0;JMP            // infinite loop\n";
    assert_eq!(
        assembled_words(source),
        vec![
            "0000000000000000",
            "1111110000010000",
            "0000000000000001",
            "1111010011010000",
            "0000000000001010",
            "1110001100000001",
            "0000000000000001",
            "1111110000010000",
            "0000000000001100",
            "1110101010000111",
            "0000000000000000",
            "1111110000010000",
            "0000000000000010",
            "1110001100001000",
            "0000000000001110",
            "1110101010000111",
        ]
    );
}

#[test]
fn rectangle_with_variables_and_labels() {
    let source = "@0\nD=M\n@INFINITE_LOOP\nD;JLE\n@counter\nM=D\n@SCREEN\nD=A\n@address\nM=D\n\
(LOOP)\n@address\nA=M\nM=-1\n@address\nD=M\n@32\nD=D+A\n@address\nM=D\n@counter\nMD=M-1\n\
@LOOP\nD;JGT\n(INFINITE_LOOP)\n@INFINITE_LOOP\n0;JMP\n";
    assert_eq!(
        assembled_words(source),
        vec![
            "0000000000000000",
            "1111110000010000",
            "0000000000010111",
            "1110001100000110",
            "0000000000010000",
            "1110001100001000",
            "0100000000000000",
            "1110110000010000",
            "0000000000010001",
            "1110001100001000",
            "0000000000010001",
            "1111110000100000",
            "1110111010001000",
            "0000000000010001",
            "1111110000010000",
            "0000000000100000",
            "1110000010010000",
            "0000000000010001",
            "1110001100001000",
            "0000000000010000",
            "1111110010011000",
            "0000000000001010",
            "1110001100000001",
            "0000000000010111",
            "1110101010000111",
        ]
    );
}

#[test]
fn empty_source_assembles_to_nothing() {
    assert_eq!(assembled_words(""), Vec::<String>::new());
    assert_eq!(assembled_words("// nothing but a comment\n\n   \n"), Vec::<String>::new());
}

#[test]
fn label_definitions_give_no_words() {
    let out = assembled_words("(A)\n(B)\n@A\n(C)\n@B\n@C\n(D)");
    assert_eq!(out, vec!["0000000000000000", "0000000000000000", "0000000000000001"]);
}

#[test]
fn every_word_is_sixteen_binary_digits() {
    let source = "@R0\nD=M\n@i\nM=D\n(LOOP)\n@i\nMD=M-1\n@END\nD;JEQ\n@SCREEN\nAM=D+A\n\
M=!M\n@KBD\nD=M\n@32767\nAMD=D|M\n@LOOP\n0;JMP\n(END)\n@END\nD&A;JNE\n";
    let out = assembled_words(source);
    assert_eq!(out.len(), 19);
    for word in &out {
        assert_eq!(word.chars().count(), 16);
        assert!(word.chars().all(|c| c == '0' || c == '1'));
    }
}

#[test]
fn first_failure_ends_the_run() {
    assert_eq!(assemble_source("@1\nD=Q\n@99999\nX=1"), Err(AsmError::Comp));
    assert_eq!(assemble_source("@99999\nD=Q"), Err(AsmError::Range));
    assert_eq!(assemble_source("X=1;JMP\n@99999"), Err(AsmError::Dest));
    assert_eq!(assemble_source("D=1;JXX\n@99999"), Err(AsmError::Jump));
    assert_eq!(assemble_source("D=;JMP"), Err(AsmError::Syntax));
}

#[test]
fn malformed_operand_stops_before_any_encoding() {
    assert_eq!(assemble_source("D=Q\n@1abc"), Err(AsmError::Operand));
    assert_eq!(assemble_source("@\nD=A"), Err(AsmError::Operand));
}

#[test]
fn assembling_lines_needs_no_preprocessor() {
    let lines = vec!["(TOP)".to_string(), "@x".to_string(), "M=1".to_string(), "@TOP".to_string()];
    assert_eq!(
        assemble(&lines),
        Ok(vec![
            "0000000000010000".to_string(),
            "1110111111001000".to_string(),
            "0000000000000000".to_string(),
        ])
    );
}

#[test]
fn assembling_twice_gives_the_same_words() {
    let source = "@a\nD=M\n(L)\n@b\nD=D+M;JGT\n@L\n0;JMP";
    assert_eq!(assemble_source(source), assemble_source(source));
}

#[test]
fn long_program_with_many_symbols() {
    let mut source = String::new();
    for i in 0..500 {
        source.push_str(&format!("(L{i})\n@v{i}\nM=D\n@L{i}\nD;JGT\n@R{}\nD=M\n", i % 16));
    }
    let out = assembled_words(&source);
    assert_eq!(out.len(), 3000);
    for i in 0..500 {
        assert_eq!(out[6 * i], format!("{:016b}", 16 + i));
        assert_eq!(out[6 * i + 1], "1110001100001000");
        assert_eq!(out[6 * i + 2], format!("{:016b}", 6 * i));
        assert_eq!(out[6 * i + 3], "1110001100000001");
        assert_eq!(out[6 * i + 4], format!("{:016b}", i % 16));
        assert_eq!(out[6 * i + 5], "1111110000010000");
    }
}

#[test]
fn resolved_program_is_encoded_word_by_word() {
    let code = vec!["@16".to_string(), "M=1".to_string(), "@0".to_string(), "0;JMP".to_string()];
    assert_eq!(
        encode_program(&code),
        Ok(vec![
            "0000000000010000".to_string(),
            "1110111111001000".to_string(),
            "0000000000000000".to_string(),
            "1110101010000111".to_string(),
        ])
    );
    assert_eq!(encode_program(&Vec::new()), Ok(Vec::new()));
    let unresolved = vec!["@16".to_string(), "@name".to_string(), "Q".to_string()];
    assert_eq!(encode_program(&unresolved), Err(AsmError::Operand));
}
