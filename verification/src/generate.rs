//! What the second pass produces, stated over the token stream.
//!
//! The second pass walks the stream with a location counter. At each position
//! it takes one step: it encodes the statement that starts there, skips a
//! token that carries no code, stops at `.END`, or fails. `generate` is the
//! whole walk: the origin word followed by the words of every statement.

use vstd::prelude::*;
use crate::encoder::{br_word, pack, pack_base, pack_offset, stringz_words, zero_words};
use crate::enums::{Directive, OpCode, Register, TokenView};
use crate::error::{ErrorKind, Failure};
use crate::utils::verified_offset;

verus! {

/// The register at position `at`. Past the end of the stream the failure is
/// `UnexpectedEof`; at any other token it is `SyntaxError`.
pub open spec fn reg_at(tokens: Seq<TokenView>, at: int) -> Result<Register, Failure> {
    if at >= tokens.len() {
        Err(Failure::of(ErrorKind::UnexpectedEof))
    } else {
        match tokens[at] {
            TokenView::Reg(reg) => Ok(reg),
            _ => Err(Failure::of(ErrorKind::SyntaxError)),
        }
    }
}

/// The constant at position `at`, with the failures of `reg_at`.
pub open spec fn const_at(tokens: Seq<TokenView>, at: int) -> Result<u16, Failure> {
    if at >= tokens.len() {
        Err(Failure::of(ErrorKind::UnexpectedEof))
    } else {
        match tokens[at] {
            TokenView::Const(value) => Ok(value),
            _ => Err(Failure::of(ErrorKind::SyntaxError)),
        }
    }
}

/// The label name at position `at`, with the failures of `reg_at`.
pub open spec fn label_at(tokens: Seq<TokenView>, at: int) -> Result<Seq<char>, Failure> {
    if at >= tokens.len() {
        Err(Failure::of(ErrorKind::UnexpectedEof))
    } else {
        match tokens[at] {
            TokenView::Label(name) => Ok(name),
            _ => Err(Failure::of(ErrorKind::SyntaxError)),
        }
    }
}

/// The string at position `at`, with the failures of `reg_at`.
pub open spec fn str_at(tokens: Seq<TokenView>, at: int) -> Result<Seq<char>, Failure> {
    if at >= tokens.len() {
        Err(Failure::of(ErrorKind::UnexpectedEof))
    } else {
        match tokens[at] {
            TokenView::Str(text) => Ok(text),
            _ => Err(Failure::of(ErrorKind::SyntaxError)),
        }
    }
}

/// The registers at positions `at` and `at + 1`.
pub open spec fn regs_at(tokens: Seq<TokenView>, at: int) -> Result<(Register, Register), Failure> {
    match reg_at(tokens, at) {
        Err(f) => Err(f),
        Ok(first) => match reg_at(tokens, at + 1) {
            Err(f) => Err(f),
            Ok(second) => Ok((first, second)),
        },
    }
}

/// The address of `name`; a name without an address is a `MissingLabelError`.
pub open spec fn address_of(symbols: Map<Seq<char>, u16>, name: Seq<char>) -> Result<u16, Failure> {
    if symbols.contains_key(name) {
        Ok(symbols[name])
    } else {
        Err(Failure::of(ErrorKind::MissingLabelError))
    }
}

/// The field for a reference to `name` from an instruction after which the
/// location counter is `next`: the distance from `next` to the label's
/// address, modulo 2^16, validated for a field of `width` bits.
pub open spec fn relative(
    symbols: Map<Seq<char>, u16>,
    name: Seq<char>,
    next: u16,
    width: u16,
) -> Result<u16, Failure> {
    match address_of(symbols, name) {
        Err(f) => Err(f),
        Ok(address) => verified_offset(address.wrapping_sub(next), width),
    }
}

/// The operation bits of the instructions that share a layout with others.
pub open spec fn operation(op: OpCode) -> u16 {
    match op {
        OpCode::Add => 0x1000,
        OpCode::Ld => 0x2000,
        OpCode::St => 0x3000,
        OpCode::Jsrr => 0x4000,
        OpCode::And => 0x5000,
        OpCode::Ldr => 0x6000,
        OpCode::Str => 0x7000,
        OpCode::Ldi => 0xa000,
        OpCode::Sti => 0xb000,
        OpCode::Jmp => 0xc000,
        OpCode::Lea => 0xe000,
        _ => 0,
    }
}

/// How many operand tokens the statement that starts with `head` takes.
pub open spec fn operand_count(head: TokenView) -> nat {
    match head {
        TokenView::Dir(Directive::End) => 0,
        TokenView::Dir(_) => 1,
        TokenView::Op(op) => match op {
            OpCode::Add | OpCode::And | OpCode::Ldr | OpCode::Str => 3,
            OpCode::Ld | OpCode::Ldi | OpCode::Lea | OpCode::St | OpCode::Sti | OpCode::Not => 2,
            OpCode::Ret | OpCode::Rti | OpCode::Res | OpCode::GetC | OpCode::Out | OpCode::Puts
            | OpCode::In | OpCode::PutsP | OpCode::Halt => 0,
            _ => 1,
        },
        _ => 0,
    }
}

/// The number of words of a string, modulo 2^16: the bytes of its UTF-8
/// encoding and the closing zero.
pub open spec fn string_advance(text: Seq<char>) -> u16 {
    ((stringz_words(text).len()) % 0x1_0000) as u16
}

/// The location counter after the statement that starts with `head` and has
/// `operand` as its first operand, where the counter was `lc` before it.
/// `.ORIG` sets the counter; `.BLKW` and `.STRINGZ` advance it by the number
/// of words they reserve; `.END` leaves it; everything else advances it by
/// one. All sums are modulo 2^16. A directive whose operand is of the wrong
/// kind leaves the counter as it is.
pub open spec fn next_counter(head: TokenView, operand: Option<TokenView>, lc: u16) -> u16 {
    match head {
        TokenView::Dir(Directive::Orig) => match operand {
            Some(TokenView::Const(origin)) => origin,
            _ => lc,
        },
        TokenView::Dir(Directive::Blkw) => match operand {
            Some(TokenView::Const(count)) => lc.wrapping_add(count),
            _ => lc,
        },
        TokenView::Dir(Directive::Stringz) => match operand {
            Some(TokenView::Str(text)) => lc.wrapping_add(string_advance(text)),
            _ => lc,
        },
        TokenView::Dir(Directive::End) => lc,
        _ => lc.wrapping_add(1),
    }
}

/// The token at position `at`, if the stream reaches that far.
pub open spec fn token_at(tokens: Seq<TokenView>, at: int) -> Option<TokenView> {
    if 0 <= at < tokens.len() {
        Some(tokens[at])
    } else {
        None
    }
}

/// The word of a branch whose target is the token after position `at`: a
/// constant is the offset itself, a label stands for the distance to it.
pub open spec fn branch_words(
    op: OpCode,
    tokens: Seq<TokenView>,
    symbols: Map<Seq<char>, u16>,
    at: int,
    next: u16,
) -> Result<Seq<u16>, Failure> {
    if at + 1 >= tokens.len() {
        Err(Failure::of(ErrorKind::UnexpectedEof))
    } else {
        let field = match tokens[at + 1] {
            TokenView::Const(offset) => verified_offset(offset, 9),
            TokenView::Label(name) => relative(symbols, name, next, 9),
            _ => Err(Failure::of(ErrorKind::SyntaxError)),
        };
        match field {
            Err(f) => Err(f),
            Ok(offset) => Ok(seq![br_word(TokenView::Op(op), offset)]),
        }
    }
}

/// The word of `ADD` or `AND`: two registers, then a register or a 5-bit
/// immediate.
pub open spec fn arithmetic_words(op: OpCode, tokens: Seq<TokenView>, at: int) -> Result<
    Seq<u16>,
    Failure,
> {
    match regs_at(tokens, at + 1) {
        Err(f) => Err(f),
        Ok((dr, sr1)) => if at + 3 >= tokens.len() {
            Err(Failure::of(ErrorKind::UnexpectedEof))
        } else {
            match tokens[at + 3] {
                TokenView::Reg(sr2) => Ok(
                    seq![pack(operation(op), dr.index(), sr1.index(), sr2.index())],
                ),
                TokenView::Const(value) => match verified_offset(value, 5) {
                    Err(f) => Err(f),
                    Ok(imm) => Ok(seq![pack(operation(op), dr.index(), sr1.index(), 0x20 | imm)]),
                },
                _ => Err(Failure::of(ErrorKind::SyntaxError)),
            }
        },
    }
}

/// The word of `JMP` or `JSRR`: a base register.
pub open spec fn jump_words(op: OpCode, tokens: Seq<TokenView>, at: int) -> Result<
    Seq<u16>,
    Failure,
> {
    match reg_at(tokens, at + 1) {
        Err(f) => Err(f),
        Ok(base) => Ok(seq![pack_base(operation(op), base.index())]),
    }
}

/// The word of `JSR`: a label, as an 11-bit offset.
pub open spec fn call_words(
    tokens: Seq<TokenView>,
    symbols: Map<Seq<char>, u16>,
    at: int,
    next: u16,
) -> Result<Seq<u16>, Failure> {
    match label_at(tokens, at + 1) {
        Err(f) => Err(f),
        Ok(name) => match relative(symbols, name, next, 11) {
            Err(f) => Err(f),
            Ok(offset) => Ok(seq![0x4800u16 | offset]),
        },
    }
}

/// The word of `LD`, `LDI`, `LEA`, `ST` or `STI`: a register and a label, as
/// a 9-bit offset.
pub open spec fn memory_words(
    op: OpCode,
    tokens: Seq<TokenView>,
    symbols: Map<Seq<char>, u16>,
    at: int,
    next: u16,
) -> Result<Seq<u16>, Failure> {
    match reg_at(tokens, at + 1) {
        Err(f) => Err(f),
        Ok(reg) => match label_at(tokens, at + 2) {
            Err(f) => Err(f),
            Ok(name) => match relative(symbols, name, next, 9) {
                Err(f) => Err(f),
                Ok(offset) => Ok(seq![pack_offset(operation(op), reg.index(), offset)]),
            },
        },
    }
}

/// The word of `LDR` or `STR`: a register, a base register and a 6-bit
/// offset.
pub open spec fn indexed_words(op: OpCode, tokens: Seq<TokenView>, at: int) -> Result<
    Seq<u16>,
    Failure,
> {
    match regs_at(tokens, at + 1) {
        Err(f) => Err(f),
        Ok((reg, base)) => match const_at(tokens, at + 3) {
            Err(f) => Err(f),
            Ok(value) => match verified_offset(value, 6) {
                Err(f) => Err(f),
                Ok(offset) => Ok(seq![pack(operation(op), reg.index(), base.index(), offset)]),
            },
        },
    }
}

/// The word of `NOT`: two registers over six one bits.
pub open spec fn not_words(tokens: Seq<TokenView>, at: int) -> Result<Seq<u16>, Failure> {
    match regs_at(tokens, at + 1) {
        Err(f) => Err(f),
        Ok((dr, sr)) => Ok(seq![pack(0x9000, dr.index(), sr.index(), 0x3f)]),
    }
}

/// The word of `TRAP`: the vector has to be one of the six known ones.
pub open spec fn trap_words(tokens: Seq<TokenView>, at: int) -> Result<Seq<u16>, Failure> {
    match const_at(tokens, at + 1) {
        Err(f) => Err(f),
        Ok(vector) => if 0x20 <= vector <= 0x25 {
            Ok(seq![(0xf000 + vector) as u16])
        } else {
            Err(Failure::of(ErrorKind::SyntaxError))
        },
    }
}

/// The words of the instruction `op` at position `at`, where the location
/// counter is `lc` before it. The operands are checked from left to right,
/// and the first failure is the result. Every instruction is one word.
pub open spec fn instruction_words(
    op: OpCode,
    tokens: Seq<TokenView>,
    symbols: Map<Seq<char>, u16>,
    at: int,
    lc: u16,
) -> Result<Seq<u16>, Failure> {
    let next = lc.wrapping_add(1);
    match op {
        OpCode::Br | OpCode::Brn | OpCode::Brz | OpCode::Brp | OpCode::Brnz | OpCode::Brnp
        | OpCode::Brzp | OpCode::Brnzp => branch_words(op, tokens, symbols, at, next),
        OpCode::Add | OpCode::And => arithmetic_words(op, tokens, at),
        OpCode::Jmp | OpCode::Jsrr => jump_words(op, tokens, at),
        OpCode::Jsr => call_words(tokens, symbols, at, next),
        OpCode::Ld | OpCode::Ldi | OpCode::Lea | OpCode::St | OpCode::Sti => memory_words(
            op,
            tokens,
            symbols,
            at,
            next,
        ),
        OpCode::Ldr | OpCode::Str => indexed_words(op, tokens, at),
        OpCode::Not => not_words(tokens, at),
        OpCode::Ret => Ok(seq![0xc1c0u16]),
        OpCode::Rti => Ok(seq![0x8000u16]),
        OpCode::Trap => trap_words(tokens, at),
        OpCode::GetC | OpCode::Out | OpCode::Puts | OpCode::In | OpCode::PutsP | OpCode::Halt => Ok(
            seq![(0xf000 + op.number()) as u16],
        ),
        OpCode::Res => Ok(seq![0xd000u16]),
    }
}

/// The words of the directive `dir` at position `at`. `.ORIG` is a failure:
/// a program has one origin, at its start. `.END` has no words.
pub open spec fn directive_words(
    dir: Directive,
    tokens: Seq<TokenView>,
    symbols: Map<Seq<char>, u16>,
    at: int,
) -> Result<Seq<u16>, Failure> {
    match dir {
        Directive::Fill => if at + 1 >= tokens.len() {
            Err(Failure::of(ErrorKind::UnexpectedEof))
        } else {
            match tokens[at + 1] {
                TokenView::Const(value) => Ok(seq![value]),
                TokenView::Label(name) => match address_of(symbols, name) {
                    Err(f) => Err(f),
                    Ok(address) => Ok(seq![address]),
                },
                _ => Err(Failure::of(ErrorKind::SyntaxError)),
            }
        },
        Directive::Blkw => match const_at(tokens, at + 1) {
            Err(f) => Err(f),
            Ok(count) => Ok(zero_words(count as nat)),
        },
        Directive::Stringz => match str_at(tokens, at + 1) {
            Err(f) => Err(f),
            Ok(text) => Ok(stringz_words(text)),
        },
        Directive::Orig => Err(Failure::of(ErrorKind::SyntaxError)),
        Directive::End => Ok(Seq::empty()),
    }
}

/// What the second pass does at one position of the stream.
pub enum Step {
    /// A statement was encoded: its words, the number of operand tokens it
    /// took, and the location counter after it.
    Emit { words: Seq<u16>, taken: nat, counter: u16 },
    /// The token carries no code.
    Skip,
    /// The program ends here.
    Stop,
    /// The run fails.
    Fail(Failure),
}

/// The step at position `at`, where the location counter is `lc`. A label
/// carries no code, `.END` stops the walk, and a constant, a register or a
/// string where a statement should start is a syntax error.
pub open spec fn step(
    tokens: Seq<TokenView>,
    symbols: Map<Seq<char>, u16>,
    at: int,
    lc: u16,
) -> Step {
    let head = tokens[at];
    match head {
        TokenView::Label(_) => Step::Skip,
        TokenView::Dir(Directive::End) => Step::Stop,
        TokenView::Str(_) | TokenView::Reg(_) | TokenView::Const(_) => Step::Fail(
            Failure::of(ErrorKind::SyntaxError),
        ),
        TokenView::Invalid => Step::Fail(Failure::of(ErrorKind::InvalidTokenError)),
        TokenView::Dir(dir) => match directive_words(dir, tokens, symbols, at) {
            Err(f) => Step::Fail(f),
            Ok(words) => Step::Emit {
                words,
                taken: operand_count(head),
                counter: next_counter(head, token_at(tokens, at + 1), lc),
            },
        },
        TokenView::Op(op) => match instruction_words(op, tokens, symbols, at, lc) {
            Err(f) => Step::Fail(f),
            Ok(words) => Step::Emit {
                words,
                taken: operand_count(head),
                counter: next_counter(head, token_at(tokens, at + 1), lc),
            },
        },
    }
}

/// `words` in front of the words of `rest`; a failure stays as it is.
pub open spec fn prefixed(words: Seq<u16>, rest: Result<Seq<u16>, Failure>) -> Result<
    Seq<u16>,
    Failure,
> {
    match rest {
        Ok(more) => Ok(words + more),
        Err(f) => Err(f),
    }
}

/// The words of the stream from position `at` on, where the location counter
/// is `lc`: the walk ends at `.END` or at the end of the stream, and the
/// first failing step is the result of the whole.
pub open spec fn generate_from(
    tokens: Seq<TokenView>,
    symbols: Map<Seq<char>, u16>,
    at: int,
    lc: u16,
) -> Result<Seq<u16>, Failure>
    decreases tokens.len() - at,
{
    if at < 0 || at >= tokens.len() {
        Ok(Seq::empty())
    } else {
        match step(tokens, symbols, at, lc) {
            Step::Stop => Ok(Seq::empty()),
            Step::Fail(f) => Err(f),
            Step::Skip => generate_from(tokens, symbols, at + 1, lc),
            Step::Emit { words, taken, counter } => prefixed(
                words,
                generate_from(tokens, symbols, at + 1 + taken, counter),
            ),
        }
    }
}

/// The origin of the program: the stream has to start with `.ORIG` and a
/// constant.
pub open spec fn origin(tokens: Seq<TokenView>) -> Result<u16, Failure> {
    if tokens.len() == 0 || tokens[0] != TokenView::Dir(Directive::Orig) {
        Err(Failure::of(ErrorKind::SyntaxError))
    } else {
        const_at(tokens, 1)
    }
}

/// The output of the second pass: the origin, then the program image.
pub open spec fn generate(tokens: Seq<TokenView>, symbols: Map<Seq<char>, u16>) -> Result<
    Seq<u16>,
    Failure,
> {
    match origin(tokens) {
        Err(f) => Err(f),
        Ok(start) => prefixed(seq![start], generate_from(tokens, symbols, 2, start)),
    }
}

/// The location counter of the walk that starts at position `at` with the
/// counter `lc`, at the moment it stands at position `goal`. There is none
/// where the walk stops or fails before it gets there, or steps over it.
pub open spec fn counter_from(
    tokens: Seq<TokenView>,
    symbols: Map<Seq<char>, u16>,
    at: int,
    lc: u16,
    goal: int,
) -> Option<u16>
    decreases goal - at,
{
    if at == goal {
        Some(lc)
    } else if at > goal || at < 0 || at >= tokens.len() {
        None
    } else {
        match step(tokens, symbols, at, lc) {
            Step::Skip => counter_from(tokens, symbols, at + 1, lc, goal),
            Step::Emit { words, taken, counter } => if at + 1 + taken > goal {
                None
            } else {
                counter_from(tokens, symbols, at + 1 + taken, counter, goal)
            },
            Step::Stop => None,
            Step::Fail(_) => None,
        }
    }
}

/// The location counter of the second pass at the moment it stands at
/// position `goal` of the stream, if it ever does.
pub open spec fn counter_at(tokens: Seq<TokenView>, symbols: Map<Seq<char>, u16>, goal: int) -> Option<
    u16,
> {
    match origin(tokens) {
        Ok(start) => counter_from(tokens, symbols, 2, start, goal),
        Err(_) => None,
    }
}

/// The words that the walk from position `at` writes before it stands at
/// position `goal`, if it ever does.
pub open spec fn words_from(
    tokens: Seq<TokenView>,
    symbols: Map<Seq<char>, u16>,
    at: int,
    lc: u16,
    goal: int,
) -> Option<Seq<u16>>
    decreases goal - at,
{
    if at == goal {
        Some(Seq::empty())
    } else if at > goal || at < 0 || at >= tokens.len() {
        None
    } else {
        match step(tokens, symbols, at, lc) {
            Step::Skip => words_from(tokens, symbols, at + 1, lc, goal),
            Step::Emit { words, taken, counter } => if at + 1 + taken > goal {
                None
            } else {
                match words_from(tokens, symbols, at + 1 + taken, counter, goal) {
                    Some(rest) => Some(words + rest),
                    None => None,
                }
            },
            Step::Stop => None,
            Step::Fail(_) => None,
        }
    }
}

/// The words of the program image that the second pass has written at the
/// moment it stands at position `goal` of the stream, if it ever does.
pub open spec fn words_before(
    tokens: Seq<TokenView>,
    symbols: Map<Seq<char>, u16>,
    goal: int,
) -> Option<Seq<u16>> {
    match origin(tokens) {
        Ok(start) => words_from(tokens, symbols, 2, start, goal),
        Err(_) => None,
    }
}

} // verus!
