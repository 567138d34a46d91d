//! The preprocessor: from source text to instruction lines. Comments and spaces are
//! taken out by the regex engine; the text that is left is cut into its lines, and the
//! empty ones are dropped.

use vstd::prelude::*;
use crate::error::AsmError;
use crate::resolver::outcome;
use crate::text::{chars_of, string_of};

verus! {

/// `regex::Error`, the error type of the regex engine. Nothing is read from it.
#[verifier::external_type_specification]
#[verifier::external_body]
pub struct ExRegexError(regex::Error);

/// What becomes of `haystack` when `Regex::new` compiles `pattern` and `Regex::replace_all`
/// puts `replacement` in place of every match: `None` where `Regex::new` refuses the
/// pattern, else the text that `Regex::replace_all` returns.
pub uninterp spec fn regex_replaced(
    pattern: Seq<char>,
    haystack: Seq<char>,
    replacement: Seq<char>,
) -> Option<Seq<char>>;

/// Compiles `pattern` with `regex::Regex::new` and calls `Regex::replace_all` on
/// `haystack`. Whether the pattern compiles, and the text that then comes back, depend
/// on the three arguments and on nothing else: the outcome is `regex_replaced` of them.
/// Which patterns compile, and what the text is, is not stated here.
#[verifier::external_body]
fn replace_all(pattern: &str, haystack: &str, replacement: &str) -> (out: Result<
    String,
    regex::Error,
>)
    ensures
        match out {
            Ok(text) => regex_replaced(pattern@, haystack@, replacement@) == Some(text@),
            Err(_) => regex_replaced(pattern@, haystack@, replacement@) is None,
        },
{
    match regex::Regex::new(pattern) {
        Ok(re) => Ok(re.replace_all(haystack, replacement).into_owned()),
        Err(e) => Err(e),
    }
}

/// What the regex engine leaves of `source` when every match of the cleaning pattern is
/// taken out, or `None` if the engine refuses the pattern. The pattern matches a
/// comment, from `//` to the end of its line, or a space.
pub open spec fn stripped(source: Seq<char>) -> Option<Seq<char>> {
    regex_replaced("(//.*)|( )"@, source, ""@)
}

/// The instruction lines of `source`: what is left of it without comments and spaces,
/// cut into lines, the empty lines dropped. Where the regex engine refuses the cleaning
/// pattern, the outcome is `Pattern`.
pub open spec fn cleaned(source: Seq<char>) -> Result<Seq<Seq<char>>, AsmError> {
    match stripped(source) {
        Some(text) => Ok(lines_of(text)),
        None => Err(AsmError::Pattern),
    }
}

/// The pieces of `text` that `separator` parts, in order: one more than there are
/// separators.
pub open spec fn split(text: Seq<char>, separator: char) -> Seq<Seq<char>>
    decreases text.len(),
{
    if text.len() == 0 {
        seq![Seq::empty()]
    } else {
        let before = split(text.drop_last(), separator);
        if text.last() == separator {
            before.push(Seq::empty())
        } else {
            before.drop_last().push(before.last().push(text.last()))
        }
    }
}

/// `pieces` without the empty ones.
pub open spec fn filled(pieces: Seq<Seq<char>>) -> Seq<Seq<char>>
    decreases pieces.len(),
{
    if pieces.len() == 0 {
        Seq::empty()
    } else if pieces.last().len() == 0 {
        filled(pieces.drop_last())
    } else {
        filled(pieces.drop_last()).push(pieces.last())
    }
}

/// The lines of `text` that hold anything.
pub open spec fn lines_of(text: Seq<char>) -> Seq<Seq<char>> {
    filled(split(text, '\n'))
}

/// Cuts `text` into its lines and drops the empty ones.
pub fn source_lines(text: &str) -> (lines: Vec<String>)
    ensures
        lines.deep_view() == lines_of(text@),
{
    let chars = chars_of(text);
    let mut lines: Vec<String> = Vec::new();
    let mut current: Vec<char> = Vec::new();
    let mut i: usize = 0;
    while i < chars.len()
        invariant
            i <= chars.len(),
            split(chars@.take(i as int), '\n').len() >= 1,
            current@ == split(chars@.take(i as int), '\n').last(),
            lines.deep_view() == filled(split(chars@.take(i as int), '\n').drop_last()),
        decreases chars.len() - i,
    {
        let ghost before = split(chars@.take(i as int), '\n');
        proof {
            assert(chars@.take(i + 1).drop_last() == chars@.take(i as int));
            assert(before == before.drop_last().push(before.last()));
        }
        if chars[i] == '\n' {
            if current.len() > 0 {
                let ghost kept = lines.deep_view();
                lines.push(string_of(current.as_slice()));
                assert(lines.deep_view() == kept.push(current@));
            }
            current = Vec::new();
            assert(split(chars@.take(i + 1), '\n').drop_last() == before);
        } else {
            current.push(chars[i]);
            assert(split(chars@.take(i + 1), '\n').drop_last() == before.drop_last());
        }
        i += 1;
    }
    let ghost pieces = split(chars@, '\n');
    proof {
        assert(chars@.take(chars.len() as int) == chars@);
        assert(pieces == pieces.drop_last().push(pieces.last()));
    }
    if current.len() > 0 {
        let ghost kept = lines.deep_view();
        lines.push(string_of(current.as_slice()));
        assert(lines.deep_view() == kept.push(current@));
    }
    lines
}

/// Takes every match of `pattern` out of `text`. The error is `Pattern` when, and only
/// when, the regex engine refuses the pattern.
pub fn erase_matches(pattern: &str, text: &str) -> (out: Result<String, AsmError>)
    ensures
        match out {
            Ok(rest) => regex_replaced(pattern@, text@, ""@) == Some(rest@),
            Err(e) => e == AsmError::Pattern && regex_replaced(pattern@, text@, ""@) is None,
        },
{
    match replace_all(pattern, text, "") {
        Ok(rest) => Ok(rest),
        Err(_) => Err(AsmError::Pattern),
    }
}

/// Takes the comments and the spaces out of `source`. The error is `Pattern` when, and
/// only when, the regex engine refuses the cleaning pattern.
pub fn strip(source: &str) -> (out: Result<String, AsmError>)
    ensures
        match out {
            Ok(text) => stripped(source@) == Some(text@),
            Err(e) => e == AsmError::Pattern && stripped(source@) is None,
        },
{
    erase_matches("(//.*)|( )", source)
}

/// The instruction lines of `source`: its text without comments and spaces, cut into
/// lines, the empty lines dropped.
pub fn clean_source(source: &str) -> (out: Result<Vec<String>, AsmError>)
    ensures
        outcome(out) == cleaned(source@),
{
    match strip(source) {
        Ok(text) => Ok(source_lines(text.as_str())),
        Err(e) => Err(e),
    }
}

} // verus!
