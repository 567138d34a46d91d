//! The shapes a cleaned source line can have: a label definition `(name)`, an address
//! instruction `@operand`, or a compute instruction `dest=comp;jump`.

use vstd::prelude::*;
use crate::text::{
    decimal, is_decimal_digit, is_digit, is_number, lemma_decimal_is_number, number_value,
};

verus! {

/// A label definition: text between a pair of round brackets.
pub open spec fn is_label(line: Seq<char>) -> bool {
    line.len() >= 2 && line.first() == '(' && line.last() == ')'
}

/// The name that a label definition binds.
pub open spec fn label_name(line: Seq<char>) -> Seq<char>
    recommends
        is_label(line),
{
    line.subrange(1, line.len() - 1)
}

/// An address instruction: a line that starts with `@`.
pub open spec fn is_address(line: Seq<char>) -> bool {
    line.len() >= 1 && line.first() == '@'
}

/// What follows the `@` of an address instruction.
pub open spec fn operand(line: Seq<char>) -> Seq<char>
    recommends
        is_address(line),
{
    line.subrange(1, line.len() as int)
}

/// A name that a symbol can have: not empty, and no digit in front.
pub open spec fn is_name(s: Seq<char>) -> bool {
    s.len() > 0 && !is_digit(s.first())
}

/// An address instruction that refers to a symbol by name.
pub open spec fn is_reference(line: Seq<char>) -> bool {
    is_address(line) && is_name(operand(line))
}

/// An address instruction whose operand is neither a number nor a name.
pub open spec fn is_malformed(line: Seq<char>) -> bool {
    is_address(line) && !is_number(operand(line)) && !is_name(operand(line))
}

/// The address instruction that loads `address`.
pub open spec fn address_line(address: nat) -> Seq<char> {
    seq!['@'] + decimal(address)
}

/// The line that loads an address is a well-formed address instruction holding that number.
pub proof fn lemma_address_line(address: nat)
    ensures
        is_address(address_line(address)),
        is_number(operand(address_line(address))),
        number_value(operand(address_line(address))) == address,
        !is_label(address_line(address)),
{
    lemma_decimal_is_number(address);
    let line = address_line(address);
    assert(operand(line) =~= decimal(address));
    assert(line.last() == decimal(address).last());
}

/// Whether `line` is a label definition.
pub fn is_label_line(line: &[char]) -> (b: bool)
    ensures
        b == is_label(line@),
{
    line.len() >= 2 && line[0] == '(' && line[line.len() - 1] == ')'
}

/// Whether `line` is an address instruction.
pub fn is_address_line(line: &[char]) -> (b: bool)
    ensures
        b == is_address(line@),
{
    line.len() >= 1 && line[0] == '@'
}

/// Whether `s` can be the name of a symbol.
pub fn is_valid_name(s: &[char]) -> (b: bool)
    ensures
        b == is_name(s@),
{
    s.len() > 0 && !is_decimal_digit(s[0])
}

/// The index of the first `c` in `s`, if there is one.
pub fn find(s: &[char], c: char) -> (at: Option<usize>)
    ensures
        match at {
            Some(i) => i < s.len() && s@.index_of_first(c) == Some(i as int),
            None => s@.index_of_first(c) is None,
        },
{
    let mut i: usize = 0;
    while i < s.len()
        invariant
            i <= s.len(),
            forall|k: int| 0 <= k < i ==> s@[k] != c,
        decreases s.len() - i,
    {
        if s[i] == c {
            proof {
                s@.index_of_first_ensures(c);
            }
            return Some(i);
        }
        i += 1;
    }
    proof {
        s@.index_of_first_ensures(c);
    }
    None
}

} // verus!
