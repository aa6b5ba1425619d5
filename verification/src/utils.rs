//! Constants, range validation of offsets and immediates, and the splitting
//! of a source line into tokens.

use vstd::prelude::*;
use vstd::arithmetic::power2::{pow2, lemma2_to64};
use vstd::slice::slice_subrange;
use vstd::string::*;
use crate::error::{Error, ErrorKind, Failure};
use crate::number::{parse_int, parse_radix, IntFault};
use crate::enums::{token_views, Parseable, Token, TokenView};
use crate::text::{
    chars_of, find, find_space, lemma_find, lemma_find_space, lemma_trim, pieces, piece_views,
    position, space_position, split, trim, trimmed,
};

verus! {

/// Whether `offset` passes the range check for a field of `bit_count` bits:
/// the bits above the field are all zero or all one.
pub open spec fn offset_fits(offset: u16, bit_count: u16) -> bool {
    offset >> bit_count == 0 || offset >> bit_count == 0xffffu16 >> bit_count
}

/// The low `bit_count` bits of `offset`.
pub open spec fn offset_field(offset: u16, bit_count: u16) -> u16 {
    offset & (0xffffu16 >> ((16 - bit_count) as u16))
}

/// What `verify_offset` returns.
pub open spec fn verified_offset(offset: u16, bit_count: u16) -> Result<u16, Failure> {
    if offset_fits(offset, bit_count) {
        Ok(offset_field(offset, bit_count))
    } else {
        Err(Failure::of(ErrorKind::ValueError))
    }
}

/// Validate offset based on bit count: the low `bit_count` bits of an offset
/// that passes the range check, and a `ValueError` for any other.
pub fn verify_offset(offset: u16, bit_count: u16) -> (r: Result<u16, Error>)
    requires
        0 < bit_count < 16,
    ensures
        match r {
            Ok(field) => verified_offset(offset, bit_count) == Ok::<u16, Failure>(field),
            Err(e) => verified_offset(offset, bit_count) == Err::<u16, Failure>(e@),
        },
{
    let high = offset >> bit_count;
    let ones = 0xffffu16 >> bit_count;
    if high != ones && high != 0 {
        return Err(Error::new(ErrorKind::ValueError));
    }
    Ok(offset & (0xffffu16 >> (16 - bit_count)))
}

/// The number that a 16-bit pattern stands for in two's complement.
pub open spec fn signed(value: u16) -> int {
    if value < 0x8000 {
        value as int
    } else {
        value - 0x1_0000
    }
}

/// The number that the low `bit_count` bits of a word stand for in two's
/// complement: what a reader of the field gets after sign extension.
pub open spec fn field_value(field: u16, bit_count: u16) -> int {
    if field < pow2((bit_count - 1) as nat) {
        field as int
    } else {
        field - pow2(bit_count as nat)
    }
}

/// Whether `offset`, read as a signed number, can be written in `bit_count`
/// bits of two's complement.
pub open spec fn representable(offset: u16, bit_count: u16) -> bool {
    -pow2((bit_count - 1) as nat) <= signed(offset) < pow2((bit_count - 1) as nat)
}

/// One shifted left by `n` places is two to the power `n`.
proof fn lemma_shift_is_pow2(n: u16)
    requires
        n < 16,
    ensures
        (1u32 << (n as u32)) == pow2(n as nat),
{
    lemma2_to64();
    assert((n == 0 ==> 1u32 << (n as u32) == 1) && (n == 1 ==> 1u32 << (n as u32) == 2) && (n
        == 2 ==> 1u32 << (n as u32) == 4) && (n == 3 ==> 1u32 << (n as u32) == 8) && (n == 4
        ==> 1u32 << (n as u32) == 16) && (n == 5 ==> 1u32 << (n as u32) == 32) && (n == 6 ==> 1u32
        << (n as u32) == 64) && (n == 7 ==> 1u32 << (n as u32) == 128) && (n == 8 ==> 1u32 << (
    n as u32) == 256) && (n == 9 ==> 1u32 << (n as u32) == 512) && (n == 10 ==> 1u32 << (
    n as u32) == 1024) && (n == 11 ==> 1u32 << (n as u32) == 2048) && (n == 12 ==> 1u32 << (
    n as u32) == 4096) && (n == 13 ==> 1u32 << (n as u32) == 8192) && (n == 14 ==> 1u32 << (
    n as u32) == 16384) && (n == 15 ==> 1u32 << (n as u32) == 32768)) by (bit_vector);
}

/// The range check accepts exactly the offsets from -2^n up to, but not
/// including, 2^n, where n is the width of the field.
pub proof fn lemma_offset_fits_range(offset: u16, bit_count: u16)
    requires
        0 < bit_count < 16,
    ensures
        offset_fits(offset, bit_count) <==> -pow2(bit_count as nat) <= signed(offset) < pow2(
            bit_count as nat,
        ),
{
    let unit: u32 = 1u32 << (bit_count as u32);
    lemma_shift_is_pow2(bit_count);
    assert((offset >> bit_count == 0 || offset >> bit_count == 0xffffu16 >> bit_count) <==> (
    (offset as u32) < (1u32 << (bit_count as u32)) || (offset as u32) + (1u32 << (
    bit_count as u32)) >= 0x1_0000u32)) by (bit_vector)
        requires
            0 < bit_count < 16,
    ;
    assert(unit <= 0x8000) by (bit_vector)
        requires
            unit == 1u32 << (bit_count as u32),
            0 < bit_count < 16,
    ;
}

/// Every offset that can be written in the field's width passes the range
/// check, and the field that comes back reads as the offset again.
pub proof fn lemma_verify_offset_round_trip(offset: u16, bit_count: u16)
    requires
        0 < bit_count < 16,
        representable(offset, bit_count),
    ensures
        offset_fits(offset, bit_count),
        field_value(offset_field(offset, bit_count), bit_count) == signed(offset),
{
    let half: u32 = 1u32 << ((bit_count - 1) as u32);
    let unit: u32 = 1u32 << (bit_count as u32);
    lemma_shift_is_pow2((bit_count - 1) as u16);
    lemma_shift_is_pow2(bit_count);
    let field = offset_field(offset, bit_count);
    assert(unit == 2 * half && half <= 0x4000) by (bit_vector)
        requires
            unit == 1u32 << (bit_count as u32),
            half == 1u32 << ((bit_count - 1) as u32),
            0 < bit_count < 16,
    ;
    if offset < 0x8000 {
        assert(offset < half);
        assert(offset >> bit_count == 0 && offset & (0xffffu16 >> ((16 - bit_count) as u16))
            == offset) by (bit_vector)
            requires
                (offset as u32) < (1u32 << ((bit_count - 1) as u32)),
                0 < bit_count < 16,
        ;
    } else {
        assert(offset as u32 + half >= 0x1_0000u32);
        assert(offset >> bit_count == 0xffffu16 >> bit_count && (offset & (0xffffu16 >> ((16
            - bit_count) as u16))) as u32 + 0x1_0000u32 == (offset as u32) + (1u32 << (
        bit_count as u32)) && (offset & (0xffffu16 >> ((16 - bit_count) as u16))) as u32 >= (1u32
            << ((bit_count - 1) as u32))) by (bit_vector)
            requires
                (offset as u32) + (1u32 << ((bit_count - 1) as u32)) >= 0x1_0000u32,
                offset >= 0x8000,
                0 < bit_count < 16,
        ;
    }
}

/// Outside the band of offsets that need exactly one bit more than the field
/// has, the range check accepts an offset if and only if it can be written
/// in the field's width.
pub proof fn lemma_verify_offset_exact(offset: u16, bit_count: u16)
    requires
        0 < bit_count < 16,
        representable(offset, bit_count) || !(-pow2(bit_count as nat) <= signed(offset) < pow2(
            bit_count as nat,
        )),
    ensures
        verified_offset(offset, bit_count) is Ok <==> representable(offset, bit_count),
{
    lemma_offset_fits_range(offset, bit_count);
    if representable(offset, bit_count) {
        lemma_verify_offset_round_trip(offset, bit_count);
    }
}

/// The low 16 bits of a 32-bit integer.
pub open spec fn low_word(number: int) -> u16 {
    (number as i32) as u16
}

/// The low 16 bits of a 32-bit integer are the integer modulo 2^16.
pub proof fn lemma_low_word(number: int)
    requires
        i32::MIN <= number <= i32::MAX,
    ensures
        low_word(number) == number % 0x1_0000,
{
    let n = number as i32;
    let w = n as u16;
    let shifted: u32 = (n + 0x8000_0000) as u32;
    assert(shifted == ((n as u32) ^ 0x8000_0000u32)) by (bit_vector)
        requires
            shifted == (n + 0x8000_0000) as u32,
    ;
    assert(w == shifted % 0x1_0000) by (bit_vector)
        requires
            w == n as u16,
            shifted == ((n as u32) ^ 0x8000_0000u32),
    ;
}

/// The number that the digits of a constant spell: `x` announces
/// hexadecimal digits, `b` binary digits and `#` decimal digits; without any
/// of these the whole lexeme is read as decimal.
pub open spec fn constant_number(s: Seq<char>) -> Result<int, IntFault> {
    if s.len() > 0 && s[0] == 'x' {
        parse_int(s.drop_first(), 16)
    } else if s.len() > 0 && s[0] == 'b' {
        parse_int(s.drop_first(), 2)
    } else if s.len() > 0 && s[0] == '#' {
        parse_int(s.drop_first(), 10)
    } else {
        parse_int(s, 10)
    }
}

/// The value of a constant: the low 16 bits of the 32-bit integer that its
/// digits spell.
pub open spec fn constant_value(s: Seq<char>) -> Result<u16, Failure> {
    match constant_number(s) {
        Ok(number) => Ok(low_word(number)),
        Err(fault) => Err(Failure::of_fault(fault)),
    }
}

/// The value of the constant that the characters `s` spell.
pub fn constant_of(s: &[char]) -> (r: Result<u16, Error>)
    ensures
        match r {
            Ok(value) => constant_value(s@) == Ok::<u16, Failure>(value),
            Err(e) => constant_value(s@) == Err::<u16, Failure>(e@),
        },
{
    let res = if s.len() > 0 && s[0] == 'x' {
        // Hex Constant
        let digits = slice_subrange(s, 1, s.len());
        assert(digits@ =~= s@.drop_first());
        parse_radix(digits, 16)
    } else if s.len() > 0 && s[0] == 'b' {
        // Binary Constant
        let digits = slice_subrange(s, 1, s.len());
        assert(digits@ =~= s@.drop_first());
        parse_radix(digits, 2)
    } else if s.len() > 0 && s[0] == '#' {
        // Decimal Constant
        let digits = slice_subrange(s, 1, s.len());
        assert(digits@ =~= s@.drop_first());
        parse_radix(digits, 10)
    } else {
        parse_radix(s, 10)
    };
    match res {
        Ok(number) => Ok(#[verifier::truncate] (number as u16)),
        Err(fault) => Err(Error::from_fault(fault)),
    }
}

/// Parse constants based on prefix.
pub fn parse_constant(s: &str) -> (r: Result<u16, Error>)
    ensures
        match r {
            Ok(value) => constant_value(s@) == Ok::<u16, Failure>(value),
            Err(e) => constant_value(s@) == Err::<u16, Failure>(e@),
        },
{
    let chars = chars_of(s);
    constant_of(chars.as_slice())
}

/// The tokens of the operand fields `fields`, in order; the first field
/// that is no token decides the failure.
pub open spec fn field_tokens(fields: Seq<Seq<char>>) -> Result<Seq<TokenView>, Failure>
    decreases fields.len(),
{
    if fields.len() == 0 {
        Ok(Seq::empty())
    } else {
        match field_tokens(fields.drop_last()) {
            Err(f) => Err(f),
            Ok(tokens) => match Token::parsed(fields.last()) {
                Err(f) => Err(f),
                Ok(token) => Ok(tokens.push(token)),
            },
        }
    }
}

/// The statement of a line that is neither blank nor a comment: the text
/// before the first `;`, without the white space around it.
pub open spec fn statement_of(line: Seq<char>) -> Seq<char> {
    trim(trim(line).take(find(trim(line), ';') as int))
}

/// `head` in front of the tokens `rest`; a failure stays as it is.
pub open spec fn headed(head: TokenView, rest: Result<Seq<TokenView>, Failure>) -> Result<
    Option<Seq<TokenView>>,
    Failure,
> {
    match rest {
        Ok(tokens) => Ok(Some(seq![head] + tokens)),
        Err(f) => Err(f),
    }
}

/// The tokens of one source line. A line that is blank or starts with `;`
/// has none. Of any other line the statement is split at its first white
/// space into a head word and a remainder. What the remainder is depends on
/// the head: after a mnemonic it holds operands between commas, after a
/// directive it is one operand, after a label it is a line of its own, and
/// after anything else it is ignored.
pub open spec fn tokens_of(line: Seq<char>) -> Result<Option<Seq<TokenView>>, Failure>
    decreases line.len(),
{
    let s = trim(line);
    if s.len() == 0 || s[0] == ';' {
        Ok(None)
    } else {
        let body = statement_of(line);
        let cut = find_space(body) as int;
        match Token::parsed(body.take(cut)) {
            Err(f) => Err(f),
            Ok(head) => if cut >= body.len() {
                Ok(Some(seq![head]))
            } else {
                let rest = body.skip(cut + 1);
                match head {
                    TokenView::Op(_) => headed(head, field_tokens(split(rest, ','))),
                    TokenView::Dir(_) => match Token::parsed(rest) {
                        Err(f) => Err(f),
                        Ok(operand) => Ok(Some(seq![head, operand])),
                    },
                    TokenView::Label(_) => {
                        proof {
                            lemma_statement_len(line);
                        }
                        match tokens_of(rest) {
                            Err(f) => Err(f),
                            Ok(None) => Ok(Some(seq![head])),
                            Ok(Some(more)) => Ok(Some(seq![head] + more)),
                        }
                    },
                    _ => Ok(Some(seq![head])),
                }
            },
        }
    }
}

/// The statement of a line is no longer than the line.
pub proof fn lemma_statement_len(line: Seq<char>)
    ensures
        statement_of(line).len() <= line.len(),
        find_space(statement_of(line)) <= statement_of(line).len(),
{
    let s = trim(line);
    lemma_trim(line);
    lemma_find(s, ';');
    lemma_trim(s.take(find(s, ';') as int));
    lemma_find_space(statement_of(line));
}

/// Whether the tokens or the failure of `r` are those of `model`.
pub open spec fn line_matches(
    r: Result<Option<Vec<Token>>, Error>,
    model: Result<Option<Seq<TokenView>>, Failure>,
) -> bool {
    match (r, model) {
        (Ok(None), Ok(None)) => true,
        (Ok(Some(tokens)), Ok(Some(expected))) => token_views(tokens@) == expected,
        (Err(e), Err(f)) => e@ == f,
        _ => false,
    }
}

/// The tokens of the operand fields `fields`, added to `tokens`.
fn push_fields(tokens: &mut Vec<Token>, fields: &Vec<&[char]>) -> (r: Result<(), Error>)
    ensures
        match r {
            Ok(()) => field_tokens(piece_views(fields@)) == Ok::<Seq<TokenView>, Failure>(
                token_views(final(tokens)@).skip(old(tokens)@.len() as int),
            ) && token_views(final(tokens)@).take(old(tokens)@.len() as int) == token_views(
                old(tokens)@,
            ) && final(tokens)@.len() >= old(tokens)@.len(),
            Err(e) => field_tokens(piece_views(fields@)) == Err::<Seq<TokenView>, Failure>(e@),
        },
{
    let ghost start = tokens@.len() as int;
    let ghost before = token_views(tokens@);
    let mut i: usize = 0;
    assert(token_views(tokens@).skip(start) =~= Seq::<TokenView>::empty());
    assert(token_views(tokens@).take(start) =~= before);
    while i < fields.len()
        invariant
            i <= fields.len(),
            0 <= start,
            tokens@.len() == start + i,
            token_views(tokens@).take(start) == before,
            field_tokens(piece_views(fields@).take(i as int)) == Ok::<Seq<TokenView>, Failure>(
                token_views(tokens@).skip(start),
            ),
        decreases fields.len() - i,
    {
        let ghost so_far = token_views(tokens@);
        let ghost front = piece_views(fields@).take(i + 1);
        assert(front.drop_last() =~= piece_views(fields@).take(i as int));
        assert(front.last() == fields@[i as int]@);
        match Token::lex(fields[i]) {
            Ok(token) => {
                assert(so_far.len() == start + i);
                tokens.push(token);
                assert(token_views(tokens@) =~= so_far.push(token@));
                assert(so_far.push(token@).skip(start) =~= so_far.skip(start).push(token@));
                assert(so_far.push(token@).take(start) =~= so_far.take(start));
                assert(token_views(tokens@).skip(start) =~= so_far.skip(start).push(token@));
                assert(token_views(tokens@).take(start) =~= so_far.take(start));
            },
            Err(e) => {
                proof {
                    lemma_field_failure(piece_views(fields@), i + 1);
                }
                return Err(e);
            },
        }
        i += 1;
    }
    assert(piece_views(fields@).take(i as int) =~= piece_views(fields@));
    Ok(())
}

/// A failure among the first `n` fields is the failure of the whole.
proof fn lemma_field_failure(fields: Seq<Seq<char>>, n: int)
    requires
        0 <= n <= fields.len(),
        field_tokens(fields.take(n)) is Err,
    ensures
        field_tokens(fields) == field_tokens(fields.take(n)),
    decreases fields.len() - n,
{
    if n < fields.len() {
        assert(fields.take(n + 1).drop_last() =~= fields.take(n));
        lemma_field_failure(fields, n + 1);
    } else {
        assert(fields.take(n) =~= fields);
    }
}

/// The tokens of the line that the characters `line` make.
pub fn tokenize_chars(line: &[char]) -> (r: Result<Option<Vec<Token>>, Error>)
    ensures
        line_matches(r, tokens_of(line@)),
    decreases line@.len(),
{
    let s = trimmed(line);

    // Empty lines and comments are treated as blanks
    if s.len() == 0 || s[0] == ';' {
        return Ok(None);
    }
    // Ignore comments at the end (if present)

    let end = position(s, ';');
    proof {
        lemma_find(s@, ';');
        lemma_statement_len(line@);
    }
    let body = trimmed(slice_subrange(s, 0, end));
    assert(body@ == statement_of(line@));
    let cut = space_position(body);
    let token = Token::lex(slice_subrange(body, 0, cut))?;
    let ghost head = token@;
    let mut tokens: Vec<Token> = Vec::new();
    if cut >= body.len() {
        tokens.push(token);
        assert(token_views(tokens@) =~= seq![head]);
        return Ok(Some(tokens));
    }
    let rest = slice_subrange(body, cut + 1, body.len());
    assert(rest@ =~= body@.skip(cut + 1));
    match token {
        Token::Op(_) => {
            tokens.push(token);
            assert(token_views(tokens@) =~= seq![head]);
            let fields = pieces(rest, ',');
            push_fields(&mut tokens, &fields)?;
            assert(token_views(tokens@) =~= token_views(tokens@).take(1) + token_views(
                tokens@,
            ).skip(1));
        },
        Token::Dir(_) => {
            tokens.push(token);
            let operand = Token::lex(rest)?;
            let ghost operand_view = operand@;
            tokens.push(operand);
            assert(token_views(tokens@) =~= seq![head, operand_view]);
        },
        Token::Label(_) => {
            tokens.push(token);
            assert(token_views(tokens@) =~= seq![head]);
            if let Some(mut rest_tokens) = tokenize_chars(rest)? {
                let ghost more = token_views(rest_tokens@);
                tokens.append(&mut rest_tokens);
                assert(token_views(tokens@) =~= seq![head] + more);
            }
        },
        _ => {
            tokens.push(token);
            assert(token_views(tokens@) =~= seq![head]);
        },
    }
    Ok(Some(tokens))
}

/// Parse a string into a vector of tokens.
pub fn tokenize(s: &str) -> (r: Result<Option<Vec<Token>>, Error>)
    ensures
        line_matches(r, tokens_of(s@)),
{
    let chars = chars_of(s);
    tokenize_chars(chars.as_slice())
}

} // verus!
