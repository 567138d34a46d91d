use hack_assembler::error::AsmError;
use hack_assembler::preprocess::{clean_source, erase_matches, source_lines, strip};

fn texts(lines: &[&str]) -> Vec<String> {
    lines.iter().map(|line| line.to_string()).collect()
}

#[test]
fn comments_and_spaces_are_stripped() {
    assert_eq!(strip("D = A // load"), Ok("D=A".to_string()));
    assert_eq!(strip("a b  c"), Ok("abc".to_string()));
    assert_eq!(strip("// whole line\n@1"), Ok("\n@1".to_string()));
    assert_eq!(strip("@1//x\n@2//y"), Ok("@1\n@2".to_string()));
    assert_eq!(strip(""), Ok(String::new()));
    assert_eq!(strip("D=A"), Ok("D=A".to_string()));
}

#[test]
fn single_slash_and_tabs_stay() {
    assert_eq!(strip("a/b"), Ok("a/b".to_string()));
    assert_eq!(strip("\tD=A"), Ok("\tD=A".to_string()));
}

#[test]
fn matches_of_a_pattern_are_erased() {
    assert_eq!(erase_matches("[0-9]+", "a12b345c"), Ok("abc".to_string()));
    assert_eq!(erase_matches("x", "abc"), Ok("abc".to_string()));
}

#[test]
fn pattern_that_does_not_compile_is_an_error() {
    assert_eq!(erase_matches("(", "abc"), Err(AsmError::Pattern));
    assert_eq!(erase_matches("[a-", "abc"), Err(AsmError::Pattern));
}

#[test]
fn text_is_cut_at_line_ends_and_empty_lines_are_dropped() {
    assert_eq!(source_lines("a\nb\nc"), texts(&["a", "b", "c"]));
    assert_eq!(source_lines("a\n\nb\n"), texts(&["a", "b"]));
    assert_eq!(source_lines("\n\na\n\n\nb"), texts(&["a", "b"]));
    assert_eq!(source_lines("one line"), texts(&["one line"]));
}

#[test]
fn text_without_content_has_no_lines() {
    assert_eq!(source_lines(""), Vec::<String>::new());
    assert_eq!(source_lines("\n"), Vec::<String>::new());
    assert_eq!(source_lines("\n\n\n"), Vec::<String>::new());
}

#[test]
fn carriage_returns_are_no_line_ends() {
    assert_eq!(source_lines("a\r\nb"), texts(&["a\r", "b"]));
}

#[test]
fn source_is_cleaned_into_instruction_lines() {
    let source = "// Adds two numbers\n\n  @2   // first\n  D = A\n\n  @3\n  D = D + A // sum\n";
    assert_eq!(clean_source(source), Ok(texts(&["@2", "D=A", "@3", "D=D+A"])));
}

#[test]
fn source_of_comments_only_has_no_lines() {
    assert_eq!(clean_source("// a\n   // b\n//c"), Ok(Vec::<String>::new()));
}
