//! The encoder: from a resolved instruction to its word of sixteen binary digits.

use vstd::prelude::*;
use vstd::arithmetic::power2::{lemma2_to64, lemma_pow2_unfold, pow2};
use crate::error::AsmError;
use crate::syntax::{
    address_line, find, is_address, is_address_line, lemma_address_line, operand,
};
use crate::tables::{
    comp, comp_code, dest, dest_code, jump, jump_code, lemma_comp_code_fits,
    lemma_dest_code_fits, lemma_jump_code_fits, lemma_mnemonics_are_plain,
};
use crate::text::{
    chars_of, is_decimal_number, is_number, number_up_to, number_value, string_of,
};

verus! {

/// The largest address that an address instruction can hold: fifteen bits, all set.
pub const MAX_ADDRESS: u32 = 32767;

/// The binary digit for the lowest bit of `n`.
pub open spec fn bit_char(n: nat) -> char {
    if n % 2 == 1 {
        '1'
    } else {
        '0'
    }
}

/// The binary digits of `n`, most significant first and without leading zeros; none for 0.
pub open spec fn binary(n: nat) -> Seq<char>
    decreases n,
{
    if n == 0 {
        Seq::empty()
    } else {
        binary(n / 2).push(bit_char(n))
    }
}

/// The lowest `width` bits of `n` as binary digits, most significant first.
pub open spec fn bits(n: nat, width: nat) -> Seq<char>
    decreases width,
{
    if width == 0 {
        Seq::empty()
    } else {
        bits(n / 2, (width - 1) as nat).push(bit_char(n))
    }
}

/// A run of `count` zero digits.
pub open spec fn zeros(count: nat) -> Seq<char> {
    Seq::new(count, |i: int| '0')
}

/// A word of the machine as text: sixteen characters, each `0` or `1`.
pub open spec fn is_word(s: Seq<char>) -> bool {
    s.len() == 16 && forall|i: int| 0 <= i < s.len() ==> #[trigger] s[i] == '0' || s[i] == '1'
}

/// The number that a run of binary digits stands for, most significant digit first.
pub open spec fn binary_value(s: Seq<char>) -> nat
    decreases s.len(),
{
    if s.len() == 0 {
        0
    } else {
        2 * binary_value(s.drop_last()) + if s.last() == '1' {
            1nat
        } else {
            0nat
        }
    }
}

/// The word of an address instruction: a zero, then the address in fifteen bits.
pub open spec fn address_word(address: nat) -> Seq<char> {
    seq!['0'] + bits(address, 15)
}

/// The seven digits that a computation gives to a word: its selector bit, then its code
/// in six bits.
pub open spec fn comp_digits(selector: nat, code: nat) -> Seq<char> {
    bits(selector, 1) + bits(code, 6)
}

/// The word of a compute instruction: three ones, the seven digits of the computation,
/// the destination in three bits and the jump in three.
pub open spec fn compute_word(selector: nat, comp: nat, dest: nat, jump: nat) -> Seq<char> {
    seq!['1', '1', '1'] + comp_digits(selector, comp) + bits(dest, 3) + bits(jump, 3)
}

/// The destination, computation and jump of a compute instruction `dest=comp;jump`.
/// The destination ends at the first `=`; without one it is `null`. The jump starts
/// after the first `;` that follows; without one it is `null`.
pub open spec fn fields(line: Seq<char>) -> (Seq<char>, Seq<char>, Seq<char>) {
    let (dest, rest) = match line.index_of_first('=') {
        Some(i) => (line.take(i), line.skip(i + 1)),
        None => ("null"@, line),
    };
    let (comp, jump) = match rest.index_of_first(';') {
        Some(k) => (rest.take(k), rest.skip(k + 1)),
        None => (rest, "null"@),
    };
    (dest, comp, jump)
}

/// What encoding an address instruction comes to: its word, or why there is none.
pub open spec fn encoded_address(line: Seq<char>) -> Result<Seq<char>, AsmError> {
    if !is_address(line) || !is_number(operand(line)) {
        Err(AsmError::Operand)
    } else if number_value(operand(line)) > MAX_ADDRESS {
        Err(AsmError::Range)
    } else {
        Ok(address_word(number_value(operand(line))))
    }
}

/// What encoding a compute instruction comes to: its word, or why there is none.
pub open spec fn encoded_compute(line: Seq<char>) -> Result<Seq<char>, AsmError> {
    let (dest, comp, jump) = fields(line);
    if comp.len() == 0 {
        Err(AsmError::Syntax)
    } else {
        match (dest_code(dest), comp_code(comp), jump_code(jump)) {
            (None, _, _) => Err(AsmError::Dest),
            (Some(_), None, _) => Err(AsmError::Comp),
            (Some(_), Some(_), None) => Err(AsmError::Jump),
            (Some(d), Some((selector, c)), Some(j)) => Ok(compute_word(selector, c, d, j)),
        }
    }
}

/// What encoding an instruction comes to: a line that starts with `@` is an address
/// instruction, any other line a compute instruction.
pub open spec fn encoded(line: Seq<char>) -> Result<Seq<char>, AsmError> {
    if is_address(line) {
        encoded_address(line)
    } else {
        encoded_compute(line)
    }
}

/// What a result holding text stands for.
pub open spec fn text_outcome(result: Result<String, AsmError>) -> Result<Seq<char>, AsmError> {
    match result {
        Ok(text) => Ok(text@),
        Err(e) => Err(e),
    }
}

/// What an encoded instruction becomes when a line end is put after its word.
pub open spec fn terminated(word: Result<Seq<char>, AsmError>) -> Result<Seq<char>, AsmError> {
    match word {
        Ok(w) => Ok(w.push('\n')),
        Err(e) => Err(e),
    }
}

/// `bits` yields exactly `width` digits, each `0` or `1`.
pub proof fn lemma_bits_shape(n: nat, width: nat)
    ensures
        bits(n, width).len() == width,
        forall|i: int|
            0 <= i < width ==> #[trigger] bits(n, width)[i] == '0' || bits(n, width)[i] == '1',
    decreases width,
{
    if width > 0 {
        lemma_bits_shape(n / 2, (width - 1) as nat);
    }
}

/// A number below two to the `width` has at most `width` binary digits.
pub proof fn lemma_binary_len(n: nat, width: nat)
    requires
        n < pow2(width),
    ensures
        binary(n).len() <= width,
    decreases width,
{
    if n > 0 {
        if width == 0 {
            lemma2_to64();
        } else {
            lemma_pow2_unfold(width);
            lemma_binary_len(n / 2, (width - 1) as nat);
        }
    }
}

/// Padding on the left: when the binary digits of `n` fit in `width`, the `width` bits
/// of `n` are those digits behind as many zeros as it takes.
pub proof fn lemma_bits_pad(n: nat, width: nat)
    requires
        binary(n).len() <= width,
    ensures
        bits(n, width) == zeros((width - binary(n).len()) as nat) + binary(n),
    decreases width,
{
    if width == 0 {
        assert(bits(n, width) =~= zeros(0) + binary(n));
    } else if n == 0 {
        lemma_bits_pad(0, (width - 1) as nat);
        assert(bits(0, width) =~= zeros(width) + binary(0));
    } else {
        lemma_bits_pad(n / 2, (width - 1) as nat);
        assert(bits(n, width) =~= zeros((width - binary(n).len()) as nat) + binary(n));
    }
}

/// Reading the bits of a number back gives the number, as far as it fits in the width.
pub proof fn lemma_bits_value(n: nat, width: nat)
    requires
        n < pow2(width),
    ensures
        binary_value(bits(n, width)) == n,
    decreases width,
{
    if width == 0 {
        lemma2_to64();
    } else {
        lemma_pow2_unfold(width);
        lemma_bits_value(n / 2, (width - 1) as nat);
        assert(bits(n, width).drop_last() =~= bits(n / 2, (width - 1) as nat));
    }
}

/// The word of an address is a word: sixteen binary digits.
pub proof fn lemma_address_word_is_word(address: nat)
    ensures
        is_word(address_word(address)),
{
    lemma_bits_shape(address, 15);
}

/// The word of a compute instruction is a word: sixteen binary digits.
pub proof fn lemma_compute_word_is_word(selector: nat, comp: nat, dest: nat, jump: nat)
    ensures
        is_word(compute_word(selector, comp, dest, jump)),
{
    lemma_bits_shape(selector, 1);
    lemma_bits_shape(comp, 6);
    lemma_bits_shape(dest, 3);
    lemma_bits_shape(jump, 3);
}

/// Whatever the instruction, if it can be encoded then its encoding is a word of
/// sixteen characters, each `0` or `1`.
pub proof fn lemma_encoded_is_word(line: Seq<char>)
    ensures
        encoded(line) matches Ok(word) ==> is_word(word),
        encoded_address(line) matches Ok(word) ==> is_word(word),
        encoded_compute(line) matches Ok(word) ==> is_word(word),
{
    if encoded_address(line) is Ok {
        lemma_address_word_is_word(number_value(operand(line)));
    }
    if encoded_compute(line) is Ok {
        let (dest, comp, jump) = fields(line);
        let (selector, code) = comp_code(comp)->0;
        lemma_compute_word_is_word(selector, code, dest_code(dest)->0, jump_code(jump)->0);
    }
}

/// The word of an address instruction, read as a binary number, is the address.
pub proof fn lemma_address_word_value(address: nat)
    requires
        address <= MAX_ADDRESS,
    ensures
        binary_value(address_word(address)) == address,
{
    lemma2_to64();
    lemma_bits_value(address, 15);
    lemma_binary_value_skips_zero(bits(address, 15));
}

/// A zero in front does not change the number that binary digits stand for.
pub proof fn lemma_binary_value_skips_zero(digits: Seq<char>)
    ensures
        binary_value(seq!['0'] + digits) == binary_value(digits),
    decreases digits.len(),
{
    let all = seq!['0'] + digits;
    if digits.len() == 0 {
        assert(all.drop_last() =~= digits);
    } else {
        lemma_binary_value_skips_zero(digits.drop_last());
        assert(all.drop_last() =~= seq!['0'] + digits.drop_last());
        assert(all.last() == digits.last());
    }
}

/// Text that holds neither of the two marks that part the fields of a compute
/// instruction.
pub open spec fn is_plain(s: Seq<char>) -> bool {
    !s.contains('=') && !s.contains(';')
}

/// The compute instruction written `dest=comp;jump`, where a destination or a jump
/// that is `None` is left out together with its mark.
pub open spec fn compute_line(
    dest: Option<Seq<char>>,
    comp: Seq<char>,
    jump: Option<Seq<char>>,
) -> Seq<char> {
    let front = match dest {
        Some(d) => d + seq!['='],
        None => Seq::empty(),
    };
    let back = match jump {
        Some(j) => seq![';'] + j,
        None => Seq::empty(),
    };
    front + comp + back
}

/// Where a character first occurs in text put together from two parts.
proof fn lemma_first_in_parts(head: Seq<char>, mark: char, tail: Seq<char>)
    requires
        !head.contains(mark),
    ensures
        (head + seq![mark] + tail).index_of_first(mark) == Some(head.len() as int),
        (head + seq![mark] + tail).take(head.len() as int) == head,
        (head + seq![mark] + tail).skip(head.len() as int + 1) == tail,
        !tail.contains(mark) ==> (head + tail).index_of_first(mark) is None,
{
    let whole = head + seq![mark] + tail;
    whole.index_of_first_ensures(mark);
    assert(whole[head.len() as int] == mark);
    assert forall|k: int| 0 <= k < head.len() implies whole[k] != mark by {
        assert(whole[k] == head[k]);
    }
    assert(whole.take(head.len() as int) =~= head);
    assert(whole.skip(head.len() as int + 1) =~= tail);
    if !tail.contains(mark) {
        let both = head + tail;
        both.index_of_first_ensures(mark);
        if both.contains(mark) {
            let k = choose|k: int| 0 <= k < both.len() && both[k] == mark;
            if k < head.len() {
                assert(head[k] == mark);
            } else {
                assert(tail[k - head.len()] == mark);
            }
        }
    }
}

/// Splitting undoes writing: the fields of `dest=comp;jump` are `dest`, `comp` and
/// `jump`, and a field that was left out is `null`.
pub proof fn lemma_fields_of_compute_line(
    dest: Option<Seq<char>>,
    comp: Seq<char>,
    jump: Option<Seq<char>>,
)
    requires
        dest matches Some(d) ==> is_plain(d),
        is_plain(comp),
        jump matches Some(j) ==> is_plain(j),
    ensures
        fields(compute_line(dest, comp, jump)) == (
            match dest {
                Some(d) => d,
                None => "null"@,
            },
            comp,
            match jump {
                Some(j) => j,
                None => "null"@,
            },
        ),
{
    let back = match jump {
        Some(j) => seq![';'] + j,
        None => Seq::empty(),
    };
    let rest = comp + back;
    let line = compute_line(dest, comp, jump);
    match jump {
        Some(j) => {
            lemma_first_in_parts(comp, ';', j);
            assert(rest =~= comp + seq![';'] + j);
        },
        None => {
            lemma_first_in_parts(comp, ';', Seq::empty());
            assert(rest =~= comp + Seq::<char>::empty());
        },
    }
    assert(!rest.contains('=')) by {
        if rest.contains('=') {
            let k = choose|k: int| 0 <= k < rest.len() && rest[k] == '=';
            if k < comp.len() {
                assert(comp[k] == '=');
            } else {
                assert(back[k - comp.len()] == '=');
                assert(jump is Some);
                assert(k - comp.len() >= 1);
                assert(jump->0[k - comp.len() - 1] == '=');
            }
        }
    }
    match dest {
        Some(d) => {
            lemma_first_in_parts(d, '=', rest);
            assert(line =~= d + seq!['='] + rest);
        },
        None => {
            lemma_first_in_parts(Seq::empty(), '=', rest);
            assert(line =~= Seq::<char>::empty() + rest);
            assert(line =~= rest);
        },
    }
}

/// Every instruction written `dest=comp;jump` from mnemonics of the three tables can be
/// encoded, whether or not the destination and the jump are there, and its word is made
/// of the codes of its mnemonics.
pub proof fn lemma_compute_line_encodes(
    dest: Option<Seq<char>>,
    comp: Seq<char>,
    jump: Option<Seq<char>>,
)
    requires
        dest matches Some(d) ==> dest_code(d) is Some,
        comp_code(comp) is Some,
        jump matches Some(j) ==> jump_code(j) is Some,
    ensures
        comp_code(comp) matches Some((selector, code)) && encoded(compute_line(dest, comp, jump))
            == Ok::<Seq<char>, AsmError>(
            compute_word(
                selector,
                code,
                match dest {
                    Some(d) => dest_code(d)->0,
                    None => 0,
                },
                match jump {
                    Some(j) => jump_code(j)->0,
                    None => 0,
                },
            ),
        ),
{
    lemma_mnemonics_are_plain(comp);
    if dest is Some {
        lemma_mnemonics_are_plain(dest->0);
    }
    if jump is Some {
        lemma_mnemonics_are_plain(jump->0);
    }
    lemma_fields_of_compute_line(dest, comp, jump);
    let line = compute_line(dest, comp, jump);
    assert(line[0] != '@');
}

/// What the resolver writes for an address, the encoder reads back: the line that loads
/// an address is encoded as the word of that address, if the address fits.
pub proof fn lemma_address_line_encodes(address: nat)
    ensures
        encoded(address_line(address)) == if address <= MAX_ADDRESS {
            Ok::<Seq<char>, AsmError>(address_word(address))
        } else {
            Err::<Seq<char>, AsmError>(AsmError::Range)
        },
{
    lemma_address_line(address);
}

/// Encoding is a function of the instruction: two results that both answer for the
/// same instruction are the same, word for word or error for error.
pub proof fn lemma_encoding_is_deterministic(
    line: Seq<char>,
    first: Result<String, AsmError>,
    second: Result<String, AsmError>,
)
    requires
        text_outcome(first) == encoded(line),
        text_outcome(second) == encoded(line),
    ensures
        text_outcome(first) == text_outcome(second),
{
}

/// Appends the binary digits of `n` to `out`.
fn push_binary(out: &mut Vec<char>, n: u32)
    ensures
        final(out)@ == old(out)@ + binary(n as nat),
    decreases n,
{
    if n != 0 {
        push_binary(out, n / 2);
        out.push(if n % 2 == 1 { '1' } else { '0' });
    }
}

/// Appends the lowest `width` bits of `n` to `out`, zeros in front.
fn push_bits(out: &mut Vec<char>, n: u32, width: usize)
    requires
        n < pow2(width as nat),
    ensures
        final(out)@ == old(out)@ + bits(n as nat, width as nat),
{
    let mut digits: Vec<char> = Vec::new();
    push_binary(&mut digits, n);
    proof {
        lemma_binary_len(n as nat, width as nat);
        lemma_bits_pad(n as nat, width as nat);
    }
    let ghost start = out@;
    let pad = width - digits.len();
    let mut i: usize = 0;
    while i < pad
        invariant
            i <= pad,
            out@ == start + zeros(i as nat),
        decreases pad - i,
    {
        out.push('0');
        i += 1;
    }
    let mut k: usize = 0;
    while k < digits.len()
        invariant
            k <= digits.len(),
            out@ == start + zeros(pad as nat) + digits@.take(k as int),
        decreases digits.len() - k,
    {
        out.push(digits[k]);
        k += 1;
    }
    assert(digits@.take(digits.len() as int) == digits@);
}

/// The binary digits of `number`, most significant first and without leading zeros.
/// Zero has no digits.
pub fn binary_converter(number: u32) -> (binary: String)
    ensures
        binary@ == self::binary(number as nat),
{
    let mut digits: Vec<char> = Vec::new();
    push_binary(&mut digits, number);
    string_of(digits.as_slice())
}

/// Encodes the address instruction `@number`.
pub fn a_instruction(instruction: &String) -> (word: Result<String, AsmError>)
    ensures
        text_outcome(word) == encoded_address(instruction@),
        word matches Ok(text) ==> is_word(text@),
{
    proof {
        lemma_encoded_is_word(instruction@);
    }
    let chars = chars_of(instruction.as_str());
    if !is_address_line(chars.as_slice()) {
        return Err(AsmError::Operand);
    }
    let digits = &chars.as_slice()[1..chars.len()];
    if !is_decimal_number(digits) {
        return Err(AsmError::Operand);
    }
    match number_up_to(digits, MAX_ADDRESS) {
        None => Err(AsmError::Range),
        Some(value) => {
            let mut word: Vec<char> = Vec::new();
            word.push('0');
            proof {
                lemma2_to64();
            }
            push_bits(&mut word, value, 15);
            Ok(string_of(word.as_slice()))
        },
    }
}

/// Appends the seven digits of a computation mnemonic to `out`, if the table holds it.
fn push_comp(out: &mut Vec<char>, mnemonic: &[char]) -> (known: bool)
    ensures
        known == comp_code(mnemonic@) is Some,
        final(out)@ == match comp_code(mnemonic@) {
            Some((selector, code)) => old(out)@ + comp_digits(selector, code),
            None => old(out)@,
        },
{
    match comp(mnemonic) {
        None => false,
        Some((selector, code)) => {
            proof {
                lemma2_to64();
                lemma_comp_code_fits(mnemonic@);
            }
            push_bits(out, selector, 1);
            push_bits(out, code, 6);
            true
        },
    }
}

/// The selector bit and the six bits of a computation mnemonic, as seven binary digits.
pub fn comparing_for_comp(comp: &str) -> (digits: Result<String, AsmError>)
    ensures
        text_outcome(digits) == match comp_code(comp@) {
            Some((selector, code)) => Ok(comp_digits(selector, code)),
            None => Err(AsmError::Comp),
        },
{
    let mnemonic = chars_of(comp);
    let mut digits: Vec<char> = Vec::new();
    if push_comp(&mut digits, mnemonic.as_slice()) {
        Ok(string_of(digits.as_slice()))
    } else {
        Err(AsmError::Comp)
    }
}

/// Encodes the compute instruction `dest=comp;jump`, in which `dest=` and `;jump` may
/// each be left out.
pub fn c_instruction(instruction: &String) -> (word: Result<String, AsmError>)
    ensures
        text_outcome(word) == encoded_compute(instruction@),
        word matches Ok(text) ==> is_word(text@),
{
    proof {
        lemma_encoded_is_word(instruction@);
    }
    let chars = chars_of(instruction.as_str());
    let line = chars.as_slice();
    let null = chars_of("null");
    let (dest_text, rest) = match find(line, '=') {
        Some(i) => (&line[0..i], &line[i + 1..line.len()]),
        None => (null.as_slice(), line),
    };
    let (comp_text, jump_text) = match find(rest, ';') {
        Some(k) => (&rest[0..k], &rest[k + 1..rest.len()]),
        None => (rest, null.as_slice()),
    };
    assert(fields(instruction@) == (dest_text@, comp_text@, jump_text@));
    if comp_text.len() == 0 {
        return Err(AsmError::Syntax);
    }
    let dest_bits = match dest(dest_text) {
        Some(code) => code,
        None => {
            return Err(AsmError::Dest);
        },
    };
    let mut word: Vec<char> = Vec::new();
    word.push('1');
    word.push('1');
    word.push('1');
    if !push_comp(&mut word, comp_text) {
        return Err(AsmError::Comp);
    }
    let jump_bits = match jump(jump_text) {
        Some(code) => code,
        None => {
            return Err(AsmError::Jump);
        },
    };
    proof {
        lemma2_to64();
        lemma_dest_code_fits(dest_text@);
        lemma_jump_code_fits(jump_text@);
    }
    push_bits(&mut word, dest_bits, 3);
    push_bits(&mut word, jump_bits, 3);
    assert(word@ =~= encoded_compute(instruction@)->Ok_0);
    Ok(string_of(word.as_slice()))
}

/// Encodes one resolved instruction: an address instruction if it starts with `@`, a
/// compute instruction if not.
pub fn encode(instruction: &String) -> (word: Result<String, AsmError>)
    ensures
        text_outcome(word) == encoded(instruction@),
        word matches Ok(text) ==> is_word(text@),
{
    proof {
        lemma_encoded_is_word(instruction@);
    }
    let chars = chars_of(instruction.as_str());
    if is_address_line(chars.as_slice()) {
        a_instruction(instruction)
    } else {
        c_instruction(instruction)
    }
}

/// Encodes one resolved instruction and ends its word with a line end.
pub fn handle_instruction(instruction: &String) -> (line: Result<String, AsmError>)
    ensures
        text_outcome(line) == terminated(encoded(instruction@)),
{
    match encode(instruction) {
        Ok(mut text) => {
            text.push('\n');
            Ok(text)
        },
        Err(e) => Err(e),
    }
}

} // verus!
