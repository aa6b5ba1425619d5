//! Packing of instructions and directives into 16-bit words.
//!
//! Bit 15 is the most significant bit. An instruction word carries its
//! operation in bits 15 to 12; the fields below it depend on the form.
//! Nothing here checks that an immediate or an offset fits its field: the
//! caller validates it first, and the contracts say what is packed for every
//! input.

use vstd::prelude::*;
use vstd::string::*;
use vstd::utf8::encode_utf8;
use crate::enums::{Register, Token, TokenView};

verus! {

/// The word with `op` in place, `a` in bits 11 to 9, `b` in bits 8 to 6 and
/// `low` in bits 5 to 0.
pub open spec fn pack(op: u16, a: u16, b: u16, low: u16) -> u16 {
    op | (a << 9) | (b << 6) | low
}

/// The word with `op` in place, `a` in bits 11 to 9 and `offset` in the bits
/// below.
pub open spec fn pack_offset(op: u16, a: u16, offset: u16) -> u16 {
    op | (a << 9) | offset
}

/// The word with `op` in place and `b` in bits 8 to 6.
pub open spec fn pack_base(op: u16, b: u16) -> u16 {
    op | (b << 6)
}

/// The words of a string: one for each byte of its UTF-8 encoding, then a
/// zero.
pub open spec fn stringz_words(text: Seq<char>) -> Seq<u16> {
    encode_utf8(text).map_values(|b: u8| b as u16).push(0u16)
}

/// `count` zero words.
pub open spec fn zero_words(count: nat) -> Seq<u16> {
    Seq::new(count, |i: int| 0u16)
}

/// The word of a branch: the mnemonic's number in bits 11 to 9, over the
/// offset. A token that is no mnemonic contributes nothing.
pub open spec fn br_word(t: TokenView, offset: u16) -> u16 {
    match t {
        TokenView::Op(op) => pack_offset(0, op.number(), offset),
        _ => offset,
    }
}

/// Where the fields of `pack` do not overlap, each can be read back, and the
/// word is the sum of the fields at their place values.
pub proof fn lemma_pack_layout(op: u16, a: u16, b: u16, low: u16)
    requires
        op & 0x0fff == 0,
        a < 8,
        b < 8,
        low < 64,
    ensures
        pack(op, a, b, low) >> 12 == op >> 12,
        (pack(op, a, b, low) >> 9) & 7 == a,
        (pack(op, a, b, low) >> 6) & 7 == b,
        pack(op, a, b, low) & 0x3f == low,
        pack(op, a, b, low) == op + a * 512 + b * 64 + low,
{
    assert((op | (a << 9) | (b << 6) | low) >> 12 == op >> 12
        && ((op | (a << 9) | (b << 6) | low) >> 9) & 7 == a
        && ((op | (a << 9) | (b << 6) | low) >> 6) & 7 == b
        && (op | (a << 9) | (b << 6) | low) & 0x3f == low
        && (op | (a << 9) | (b << 6) | low) == op + a * 512 + b * 64 + low) by (bit_vector)
        requires
            op & 0x0fff == 0,
            a < 8,
            b < 8,
            low < 64,
    ;
}

/// Where the fields of `pack_offset` do not overlap, each can be read back,
/// and the word is the sum of the fields at their place values.
pub proof fn lemma_pack_offset_layout(op: u16, a: u16, offset: u16)
    requires
        op & 0x0fff == 0,
        a < 8,
        offset < 512,
    ensures
        pack_offset(op, a, offset) >> 12 == op >> 12,
        (pack_offset(op, a, offset) >> 9) & 7 == a,
        pack_offset(op, a, offset) & 0x1ff == offset,
        pack_offset(op, a, offset) == op + a * 512 + offset,
{
    assert((op | (a << 9) | offset) >> 12 == op >> 12
        && ((op | (a << 9) | offset) >> 9) & 7 == a
        && (op | (a << 9) | offset) & 0x1ff == offset
        && (op | (a << 9) | offset) == op + a * 512 + offset) by (bit_vector)
        requires
            op & 0x0fff == 0,
            a < 8,
            offset < 512,
    ;
}

/// The base register of `pack_base` can be read back, and all other bits
/// below the operation are zero.
pub proof fn lemma_pack_base_layout(op: u16, b: u16)
    requires
        op & 0x0fff == 0,
        b < 8,
    ensures
        pack_base(op, b) >> 12 == op >> 12,
        (pack_base(op, b) >> 6) & 7 == b,
        pack_base(op, b) & 0x0e3f == 0,
        pack_base(op, b) == op + b * 64,
{
    assert((op | (b << 6)) >> 12 == op >> 12
        && ((op | (b << 6)) >> 6) & 7 == b
        && (op | (b << 6)) & 0x0e3f == 0
        && (op | (b << 6)) == op + b * 64) by (bit_vector)
        requires
            op & 0x0fff == 0,
            b < 8,
    ;
}

/// The word of `JSR`: an 11-bit offset can be read back from under the
/// operation and the flag in bit 11.
pub proof fn lemma_jsr_layout(offset: u16)
    requires
        offset < 2048,
    ensures
        (0x4800u16 | offset) >> 11 == 0b01001,
        (0x4800u16 | offset) & 0x7ff == offset,
        (0x4800u16 | offset) == 0x4800 + offset,
{
    assert((0x4800u16 | offset) >> 11 == 0b01001 && (0x4800u16 | offset) & 0x7ff == offset
        && (0x4800u16 | offset) == 0x4800 + offset) by (bit_vector)
        requires
            offset < 2048,
    ;
}

/// The word of `.FILL`: the value itself.
pub fn encode_fill(v: u16) -> (r: Vec<u16>)
    ensures
        r@ == seq![v],
{
    vec![v]
}

/// The words of `.BLKW`: `c` zeros.
pub fn encode_blkw(c: u16) -> (r: Vec<u16>)
    ensures
        r@ == zero_words(c as nat),
{
    let mut bin: Vec<u16> = Vec::new();
    let mut i: u16 = 0;
    while i < c
        invariant
            i <= c,
            bin@ == zero_words(i as nat),
        decreases c - i,
    {
        bin.push(0);
        i += 1;
        assert(bin@ =~= zero_words(i as nat));
    }
    bin
}

/// The words of `.STRINGZ`: one for each byte of the text, then a zero.
pub fn encode_stringz(s: String) -> (r: Vec<u16>)
    ensures
        r@ == stringz_words(s@),
{
    let bytes = s.as_str().as_bytes_vec();
    let mut bin: Vec<u16> = Vec::new();
    let mut i: usize = 0;
    while i < bytes.len()
        invariant
            i <= bytes.len(),
            bin@ == bytes@.take(i as int).map_values(|b: u8| b as u16),
        decreases bytes.len() - i,
    {
        bin.push(bytes[i] as u16);
        i += 1;
        assert(bin@ =~= bytes@.take(i as int).map_values(|b: u8| b as u16));
    }
    assert(bytes@.take(i as int) =~= bytes@);
    bin.push(0);  // strings end with a zero word
    bin
}

/// The first word of the output: the origin.
pub fn encode_orig(origin: u16) -> (r: Vec<u16>)
    ensures
        r@ == seq![origin],
{
    vec![origin]
}

/// The word of a branch: the condition mask of the mnemonic over a 9-bit offset.
pub fn encode_br(t: &Token, offset: u16) -> (r: Vec<u16>)
    ensures
        r@ == seq![br_word(t@, offset)],
{
    let mut com: u16 = 0;
    if let Token::Op(op) = t {
        let fin_op = op.to_u16().unwrap();
        com = com | (fin_op << 9);
    }
    com = com | offset;
    assert(0u16 | offset == offset) by (bit_vector);
    vec![com]
}

/// `ADD` with a register as its second source.
pub fn encode_add_reg(dr: Register, sr1: Register, sr2: Register) -> (r: Vec<u16>)
    ensures
        r@ == seq![pack(0x1000, dr.index(), sr1.index(), sr2.index())],
{
    let com = 0x1000 | (dr.to_u16().unwrap() << 9) | (sr1.to_u16().unwrap() << 6)
        | sr2.to_u16().unwrap();
    vec![com]
}

/// `ADD` with an immediate: bit 5 is set, and the immediate stands below it.
pub fn encode_add_imm(dr: Register, sr1: Register, imm: u16) -> (r: Vec<u16>)
    ensures
        r@ == seq![pack(0x1000, dr.index(), sr1.index(), 0x20 | imm)],
{
    let com = 0x1000 | (dr.to_u16().unwrap() << 9) | (sr1.to_u16().unwrap() << 6) | (0x20 | imm);
    vec![com]
}

/// `AND` with a register as its second source.
pub fn encode_and_reg(dr: Register, sr1: Register, sr2: Register) -> (r: Vec<u16>)
    ensures
        r@ == seq![pack(0x5000, dr.index(), sr1.index(), sr2.index())],
{
    let com = 0x5000 | (dr.to_u16().unwrap() << 9) | (sr1.to_u16().unwrap() << 6)
        | sr2.to_u16().unwrap();
    vec![com]
}

/// `AND` with an immediate: bit 5 is set, and the immediate stands below it.
pub fn encode_and_imm(dr: Register, sr1: Register, imm: u16) -> (r: Vec<u16>)
    ensures
        r@ == seq![pack(0x5000, dr.index(), sr1.index(), 0x20 | imm)],
{
    let com = 0x5000 | (dr.to_u16().unwrap() << 9) | (sr1.to_u16().unwrap() << 6) | (0x20 | imm);
    vec![com]
}

/// `JMP` through a base register.
pub fn encode_jmp(sr1: Register) -> (r: Vec<u16>)
    ensures
        r@ == seq![pack_base(0xc000, sr1.index())],
{
    let com = 0xc000 | (sr1.to_u16().unwrap() << 6);
    vec![com]
}

/// `JSR` to an 11-bit offset: bit 11 is set.
pub fn encode_jsr(offset: u16) -> (r: Vec<u16>)
    ensures
        r@ == seq![0x4800u16 | offset],
{
    let com = 0x4800 | offset;
    vec![com]
}

/// `JSRR` through a base register.
pub fn encode_jsrr(sr1: Register) -> (r: Vec<u16>)
    ensures
        r@ == seq![pack_base(0x4000, sr1.index())],
{
    let com = 0x4000 | (sr1.to_u16().unwrap() << 6);
    vec![com]
}

/// `LD` from a 9-bit offset.
pub fn encode_ld(dr: Register, offset: u16) -> (r: Vec<u16>)
    ensures
        r@ == seq![pack_offset(0x2000, dr.index(), offset)],
{
    let com = 0x2000 | (dr.to_u16().unwrap() << 9) | offset;
    vec![com]
}

/// `LDI` through a 9-bit offset.
pub fn encode_ldi(dr: Register, offset: u16) -> (r: Vec<u16>)
    ensures
        r@ == seq![pack_offset(0xa000, dr.index(), offset)],
{
    let com = 0xa000 | (dr.to_u16().unwrap() << 9) | offset;
    vec![com]
}

/// `LDR` from a base register and a 6-bit offset.
pub fn encode_ldr(dr: Register, sr: Register, offset: u16) -> (r: Vec<u16>)
    ensures
        r@ == seq![pack(0x6000, dr.index(), sr.index(), offset)],
{
    let com = 0x6000 | (dr.to_u16().unwrap() << 9) | (sr.to_u16().unwrap() << 6) | offset;
    vec![com]
}

/// `LEA` of a 9-bit offset.
pub fn encode_lea(dr: Register, offset: u16) -> (r: Vec<u16>)
    ensures
        r@ == seq![pack_offset(0xe000, dr.index(), offset)],
{
    let com = 0xe000 | (dr.to_u16().unwrap() << 9) | offset;
    vec![com]
}

/// `NOT`: the low six bits are all one.
pub fn encode_not(dr: Register, sr: Register) -> (r: Vec<u16>)
    ensures
        r@ == seq![pack(0x9000, dr.index(), sr.index(), 0x3f)],
{
    let com = 0x9000 | (dr.to_u16().unwrap() << 9) | (sr.to_u16().unwrap() << 6) | 0x3f;
    vec![com]
}

/// `RET`: a `JMP` through register 7.
pub fn encode_ret() -> (r: Vec<u16>)
    ensures
        r@ == seq![0xc1c0u16],
{
    vec![0b1100000111000000]
}

/// `RES`, the reserved operation 1101: it has no operands, and all bits
/// below the operation are zero.
pub fn encode_res() -> (r: Vec<u16>)
    ensures
        r@ == seq![0xd000u16],
{
    vec![0b1101000000000000]
}

/// `RTI`.
pub fn encode_rti() -> (r: Vec<u16>)
    ensures
        r@ == seq![0x8000u16],
{
    vec![0b1000000000000000]
}

/// `ST` to a 9-bit offset.
pub fn encode_st(sr: Register, offset: u16) -> (r: Vec<u16>)
    ensures
        r@ == seq![pack_offset(0x3000, sr.index(), offset)],
{
    let com = 0x3000 | (sr.to_u16().unwrap() << 9) | offset;
    vec![com]
}

/// `STI` through a 9-bit offset.
pub fn encode_sti(sr: Register, offset: u16) -> (r: Vec<u16>)
    ensures
        r@ == seq![pack_offset(0xb000, sr.index(), offset)],
{
    let com = 0xb000 | (sr.to_u16().unwrap() << 9) | offset;
    vec![com]
}

/// `STR` to a base register and a 6-bit offset.
pub fn encode_str(sr: Register, baser: Register, offset: u16) -> (r: Vec<u16>)
    ensures
        r@ == seq![pack(0x7000, sr.index(), baser.index(), offset)],
{
    let com = 0x7000 | (sr.to_u16().unwrap() << 9) | (baser.to_u16().unwrap() << 6) | offset;
    vec![com]
}

/// The trap `HALT`, vector 0x25.
pub fn encode_halt() -> (r: Vec<u16>)
    ensures
        r@ == seq![0xf025u16],
{
    vec![0xf025]
}

/// The trap `IN`, vector 0x23.
pub fn encode_in() -> (r: Vec<u16>)
    ensures
        r@ == seq![0xf023u16],
{
    vec![0xf023]
}

/// The trap `OUT`, vector 0x21.
pub fn encode_out() -> (r: Vec<u16>)
    ensures
        r@ == seq![0xf021u16],
{
    vec![0xf021]
}

/// The trap `GETC`, vector 0x20.
pub fn encode_getc() -> (r: Vec<u16>)
    ensures
        r@ == seq![0xf020u16],
{
    vec![0xf020]
}

/// The trap `PUTS`, vector 0x22.
pub fn encode_puts() -> (r: Vec<u16>)
    ensures
        r@ == seq![0xf022u16],
{
    vec![0xf022]
}

/// The trap `PUTSP`, vector 0x24.
pub fn encode_putsp() -> (r: Vec<u16>)
    ensures
        r@ == seq![0xf024u16],
{
    vec![0xf024]
}

} // verus!
