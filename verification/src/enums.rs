//! The vocabulary of the assembly language: registers, mnemonics,
//! directives, and the tokens a source line is made of.

use vstd::prelude::*;
use vstd::string::*;
use crate::error::{Error, ErrorKind, Failure};
use crate::text::{
    chars_of, decode, fold, folded, literal_text, remove, same, text_of, trim, trimmed,
};
use crate::utils::{constant_of, constant_value};

verus! {

/// One of the eight general registers.
#[derive(Clone, Copy, Debug, PartialEq, Eq, Structural)]
pub enum Register {
    R0,
    R1,
    R2,
    R3,
    R4,
    R5,
    R6,
    R7,
}

/// An instruction mnemonic. The six names after `Trap` are traps with a fixed
/// vector.
#[derive(Clone, Copy, Debug, PartialEq, Eq, Structural)]
pub enum OpCode {
    Br,
    Brp,
    Brz,
    Brzp,
    Brn,
    Brnp,
    Brnz,
    Brnzp,
    Add,
    Ld,
    St,
    Jsr,
    Jsrr,
    And,
    Ldr,
    Str,
    Rti,
    Not,
    Ldi,
    Sti,
    Ret,
    Jmp,
    Res,
    Lea,
    Trap,
    GetC,
    Out,
    Puts,
    In,
    PutsP,
    Halt,
}

/// An assembler directive.
#[derive(Clone, Copy, Debug, PartialEq, Eq, Structural)]
pub enum Directive {
    Orig,
    End,
    Fill,
    Blkw,
    Stringz,
}

/// One lexical unit of a source line.
#[derive(Clone, Debug, PartialEq)]
pub enum Token {
    Label(String),
    Op(OpCode),
    Dir(Directive),
    Const(u16),
    Reg(Register),
    Str(String),
    Invalid,
}

/// A token as contracts speak of it: text is a sequence of characters.
pub enum TokenView {
    Label(Seq<char>),
    Op(OpCode),
    Dir(Directive),
    Const(u16),
    Reg(Register),
    Str(Seq<char>),
    Invalid,
}

impl View for Token {
    type V = TokenView;

    open spec fn view(&self) -> TokenView {
        match self {
            Token::Label(name) => TokenView::Label(name@),
            Token::Op(op) => TokenView::Op(*op),
            Token::Dir(dir) => TokenView::Dir(*dir),
            Token::Const(value) => TokenView::Const(*value),
            Token::Reg(reg) => TokenView::Reg(*reg),
            Token::Str(text) => TokenView::Str(text@),
            Token::Invalid => TokenView::Invalid,
        }
    }
}

/// The views of a sequence of tokens, in order.
pub open spec fn token_views(tokens: Seq<Token>) -> Seq<TokenView> {
    tokens.map_values(|t: Token| t@)
}

/// `num_traits::ToPrimitive::to_u16` on a `u64`: the same number where it is
/// at most 65535, and nothing where it is larger.
#[verifier::external_body]
fn narrow(value: u64) -> (r: Option<u16>)
    ensures
        r == (if value <= 0xffff { Some(value as u16) } else { None::<u16> }),
{
    num_traits::ToPrimitive::to_u16(&value)
}

impl Register {
    /// The register's number, 0 to 7.
    pub open spec fn index(self) -> u16 {
        match self {
            Register::R0 => 0,
            Register::R1 => 1,
            Register::R2 => 2,
            Register::R3 => 3,
            Register::R4 => 4,
            Register::R5 => 5,
            Register::R6 => 6,
            Register::R7 => 7,
        }
    }

    fn ordinal(&self) -> (n: u64)
        ensures
            n == self.index(),
    {
        match self {
            Register::R0 => 0,
            Register::R1 => 1,
            Register::R2 => 2,
            Register::R3 => 3,
            Register::R4 => 4,
            Register::R5 => 5,
            Register::R6 => 6,
            Register::R7 => 7,
        }
    }

    /// The register's number as a 16-bit value.
    pub fn to_u16(&self) -> (r: Option<u16>)
        ensures
            r == Some(self.index()),
    {
        narrow(self.ordinal())
    }
}

impl OpCode {
    /// The mnemonic's number. For the eight branches it is the condition
    /// mask (n = 4, z = 2, p = 1); for the six named traps it is the trap
    /// vector.
    pub open spec fn number(self) -> u16 {
        match self {
            OpCode::Br => 0,
            OpCode::Brp => 1,
            OpCode::Brz => 2,
            OpCode::Brzp => 3,
            OpCode::Brn => 4,
            OpCode::Brnp => 5,
            OpCode::Brnz => 6,
            OpCode::Brnzp => 7,
            OpCode::Add => 8,
            OpCode::Ld => 9,
            OpCode::St => 10,
            OpCode::Jsr => 11,
            OpCode::Jsrr => 12,
            OpCode::And => 13,
            OpCode::Ldr => 14,
            OpCode::Str => 15,
            OpCode::Rti => 16,
            OpCode::Not => 17,
            OpCode::Ldi => 18,
            OpCode::Sti => 19,
            OpCode::Ret => 20,
            OpCode::Jmp => 21,
            OpCode::Res => 22,
            OpCode::Lea => 23,
            OpCode::Trap => 24,
            OpCode::GetC => 0x20,
            OpCode::Out => 0x21,
            OpCode::Puts => 0x22,
            OpCode::In => 0x23,
            OpCode::PutsP => 0x24,
            OpCode::Halt => 0x25,
        }
    }

    /// Whether the mnemonic is one of the eight branches.
    pub open spec fn is_branch(self) -> bool {
        self.number() < 8
    }

    fn ordinal(&self) -> (n: u64)
        ensures
            n == self.number(),
    {
        match self {
            OpCode::Br => 0,
            OpCode::Brp => 1,
            OpCode::Brz => 2,
            OpCode::Brzp => 3,
            OpCode::Brn => 4,
            OpCode::Brnp => 5,
            OpCode::Brnz => 6,
            OpCode::Brnzp => 7,
            OpCode::Add => 8,
            OpCode::Ld => 9,
            OpCode::St => 10,
            OpCode::Jsr => 11,
            OpCode::Jsrr => 12,
            OpCode::And => 13,
            OpCode::Ldr => 14,
            OpCode::Str => 15,
            OpCode::Rti => 16,
            OpCode::Not => 17,
            OpCode::Ldi => 18,
            OpCode::Sti => 19,
            OpCode::Ret => 20,
            OpCode::Jmp => 21,
            OpCode::Res => 22,
            OpCode::Lea => 23,
            OpCode::Trap => 24,
            OpCode::GetC => 0x20,
            OpCode::Out => 0x21,
            OpCode::Puts => 0x22,
            OpCode::In => 0x23,
            OpCode::PutsP => 0x24,
            OpCode::Halt => 0x25,
        }
    }

    /// The mnemonic's number as a 16-bit value.
    pub fn to_u16(&self) -> (r: Option<u16>)
        ensures
            r == Some(self.number()),
    {
        narrow(self.ordinal())
    }
}

impl Token {
    /// The value of a constant; any other token is a syntax error.
    pub fn take_const(&self) -> (r: Result<u16, Error>)
        ensures
            match r {
                Ok(value) => self@ == TokenView::Const(value),
                Err(e) => !(self@ is Const) && e@ == Failure::of(ErrorKind::SyntaxError),
            },
    {
        if let Token::Const(c) = self {
            Ok(*c)
        } else {
            Err(Error::new(ErrorKind::SyntaxError))
        }
    }

    /// The text of a string literal; any other token is a syntax error.
    pub fn take_str(&self) -> (r: Result<String, Error>)
        ensures
            match r {
                Ok(text) => self@ == TokenView::Str(text@),
                Err(e) => !(self@ is Str) && e@ == Failure::of(ErrorKind::SyntaxError),
            },
    {
        if let Token::Str(s) = self {
            Ok(s.clone())
        } else {
            Err(Error::new(ErrorKind::SyntaxError))
        }
    }

    /// The register of a register token; any other token is a syntax error.
    pub fn take_reg(&self) -> (r: Result<Register, Error>)
        ensures
            match r {
                Ok(reg) => self@ == TokenView::Reg(reg),
                Err(e) => !(self@ is Reg) && e@ == Failure::of(ErrorKind::SyntaxError),
            },
    {
        if let Token::Reg(r) = self {
            Ok(*r)
        } else {
            Err(Error::new(ErrorKind::SyntaxError))
        }
    }

    /// The name of a label; any other token is a syntax error.
    pub fn take_label(&self) -> (r: Result<String, Error>)
        ensures
            match r {
                Ok(name) => self@ == TokenView::Label(name@),
                Err(e) => !(self@ is Label) && e@ == Failure::of(ErrorKind::SyntaxError),
            },
    {
        if let Token::Label(l) = self {
            Ok(l.clone())
        } else {
            Err(Error::new(ErrorKind::SyntaxError))
        }
    }
}

/// A type whose values are written as text.
pub trait Parseable: Sized + View {
    /// The value that `s` spells, or why it spells none.
    spec fn parsed(s: Seq<char>) -> Result<Self::V, Failure>;

    /// The value that `s` spells.
    fn parse(s: &str) -> (r: Result<Self, Error>)
        ensures
            match r {
                Ok(value) => Self::parsed(s@) == Ok::<Self::V, Failure>(value@),
                Err(e) => Self::parsed(s@) == Err::<Self::V, Failure>(e@),
            },
    ;
}

impl OpCode {
    /// The mnemonic that is written `s`, in upper case.
    pub open spec fn named(s: Seq<char>) -> Option<OpCode> {
        if s == "BR"@ {
            Some(OpCode::Br)
        } else if s == "BRN"@ {
            Some(OpCode::Brn)
        } else if s == "BRZ"@ {
            Some(OpCode::Brz)
        } else if s == "BRP"@ {
            Some(OpCode::Brp)
        } else if s == "BRZP"@ {
            Some(OpCode::Brzp)
        } else if s == "BRNP"@ {
            Some(OpCode::Brnp)
        } else if s == "BRNZ"@ {
            Some(OpCode::Brnz)
        } else if s == "BRNZP"@ {
            Some(OpCode::Brnzp)
        } else if s == "ADD"@ {
            Some(OpCode::Add)
        } else if s == "LD"@ {
            Some(OpCode::Ld)
        } else if s == "ST"@ {
            Some(OpCode::St)
        } else if s == "JSR"@ {
            Some(OpCode::Jsr)
        } else if s == "JSRR"@ {
            Some(OpCode::Jsrr)
        } else if s == "AND"@ {
            Some(OpCode::And)
        } else if s == "LDR"@ {
            Some(OpCode::Ldr)
        } else if s == "STR"@ {
            Some(OpCode::Str)
        } else if s == "RTI"@ {
            Some(OpCode::Rti)
        } else if s == "NOT"@ {
            Some(OpCode::Not)
        } else if s == "LDI"@ {
            Some(OpCode::Ldi)
        } else if s == "STI"@ {
            Some(OpCode::Sti)
        } else if s == "RET"@ {
            Some(OpCode::Ret)
        } else if s == "JMP"@ {
            Some(OpCode::Jmp)
        } else if s == "RES"@ {
            Some(OpCode::Res)
        } else if s == "LEA"@ {
            Some(OpCode::Lea)
        } else if s == "TRAP"@ {
            Some(OpCode::Trap)
        } else if s == "GETC"@ {
            Some(OpCode::GetC)
        } else if s == "OUT"@ {
            Some(OpCode::Out)
        } else if s == "PUTS"@ {
            Some(OpCode::Puts)
        } else if s == "IN"@ {
            Some(OpCode::In)
        } else if s == "PUTSP"@ {
            Some(OpCode::PutsP)
        } else if s == "HALT"@ {
            Some(OpCode::Halt)
        } else {
            None
        }
    }

    /// The mnemonic that is written `s`, in upper case.
    pub fn lookup(s: &[char]) -> (r: Option<OpCode>)
        ensures
            r == OpCode::named(s@),
    {
        if same(s, "BR") {
            Some(OpCode::Br)
        } else if same(s, "BRN") {
            Some(OpCode::Brn)
        } else if same(s, "BRZ") {
            Some(OpCode::Brz)
        } else if same(s, "BRP") {
            Some(OpCode::Brp)
        } else if same(s, "BRZP") {
            Some(OpCode::Brzp)
        } else if same(s, "BRNP") {
            Some(OpCode::Brnp)
        } else if same(s, "BRNZ") {
            Some(OpCode::Brnz)
        } else if same(s, "BRNZP") {
            Some(OpCode::Brnzp)
        } else if same(s, "ADD") {
            Some(OpCode::Add)
        } else if same(s, "LD") {
            Some(OpCode::Ld)
        } else if same(s, "ST") {
            Some(OpCode::St)
        } else if same(s, "JSR") {
            Some(OpCode::Jsr)
        } else if same(s, "JSRR") {
            Some(OpCode::Jsrr)
        } else if same(s, "AND") {
            Some(OpCode::And)
        } else if same(s, "LDR") {
            Some(OpCode::Ldr)
        } else if same(s, "STR") {
            Some(OpCode::Str)
        } else if same(s, "RTI") {
            Some(OpCode::Rti)
        } else if same(s, "NOT") {
            Some(OpCode::Not)
        } else if same(s, "LDI") {
            Some(OpCode::Ldi)
        } else if same(s, "STI") {
            Some(OpCode::Sti)
        } else if same(s, "RET") {
            Some(OpCode::Ret)
        } else if same(s, "JMP") {
            Some(OpCode::Jmp)
        } else if same(s, "RES") {
            Some(OpCode::Res)
        } else if same(s, "LEA") {
            Some(OpCode::Lea)
        } else if same(s, "TRAP") {
            Some(OpCode::Trap)
        } else if same(s, "GETC") {
            Some(OpCode::GetC)
        } else if same(s, "OUT") {
            Some(OpCode::Out)
        } else if same(s, "PUTS") {
            Some(OpCode::Puts)
        } else if same(s, "IN") {
            Some(OpCode::In)
        } else if same(s, "PUTSP") {
            Some(OpCode::PutsP)
        } else if same(s, "HALT") {
            Some(OpCode::Halt)
        } else {
            None
        }
    }
}

impl View for OpCode {
    type V = OpCode;

    open spec fn view(&self) -> OpCode {
        *self
    }
}

impl Parseable for OpCode {
    open spec fn parsed(s: Seq<char>) -> Result<OpCode, Failure> {
        match OpCode::named(s) {
            Some(value) => Ok(value),
            None => Err(Failure::of(ErrorKind::ParseOpCodeError)),
        }
    }

    fn parse(s: &str) -> (r: Result<Self, Error>) {
        let chars = chars_of(s);
        match OpCode::lookup(chars.as_slice()) {
            Some(value) => Ok(value),
            None => Err(Error::new(ErrorKind::ParseOpCodeError)),
        }
    }
}

impl Register {
    /// The register that is written `s`, in upper case.
    pub open spec fn named(s: Seq<char>) -> Option<Register> {
        if s == "R0"@ {
            Some(Register::R0)
        } else if s == "R1"@ {
            Some(Register::R1)
        } else if s == "R2"@ {
            Some(Register::R2)
        } else if s == "R3"@ {
            Some(Register::R3)
        } else if s == "R4"@ {
            Some(Register::R4)
        } else if s == "R5"@ {
            Some(Register::R5)
        } else if s == "R6"@ {
            Some(Register::R6)
        } else if s == "R7"@ {
            Some(Register::R7)
        } else {
            None
        }
    }

    /// The register that is written `s`, in upper case.
    pub fn lookup(s: &[char]) -> (r: Option<Register>)
        ensures
            r == Register::named(s@),
    {
        if same(s, "R0") {
            Some(Register::R0)
        } else if same(s, "R1") {
            Some(Register::R1)
        } else if same(s, "R2") {
            Some(Register::R2)
        } else if same(s, "R3") {
            Some(Register::R3)
        } else if same(s, "R4") {
            Some(Register::R4)
        } else if same(s, "R5") {
            Some(Register::R5)
        } else if same(s, "R6") {
            Some(Register::R6)
        } else if same(s, "R7") {
            Some(Register::R7)
        } else {
            None
        }
    }
}

impl View for Register {
    type V = Register;

    open spec fn view(&self) -> Register {
        *self
    }
}

impl Parseable for Register {
    open spec fn parsed(s: Seq<char>) -> Result<Register, Failure> {
        match Register::named(s) {
            Some(value) => Ok(value),
            None => Err(Failure::of(ErrorKind::ParseRegisterError)),
        }
    }

    fn parse(s: &str) -> (r: Result<Self, Error>) {
        let chars = chars_of(s);
        match Register::lookup(chars.as_slice()) {
            Some(value) => Ok(value),
            None => Err(Error::new(ErrorKind::ParseRegisterError)),
        }
    }
}

impl Directive {
    /// The directive that is written `s`, in upper case.
    pub open spec fn named(s: Seq<char>) -> Option<Directive> {
        if s == ".ORIG"@ {
            Some(Directive::Orig)
        } else if s == ".END"@ {
            Some(Directive::End)
        } else if s == ".FILL"@ {
            Some(Directive::Fill)
        } else if s == ".BLKW"@ {
            Some(Directive::Blkw)
        } else if s == ".STRINGZ"@ {
            Some(Directive::Stringz)
        } else {
            None
        }
    }

    /// The directive that is written `s`, in upper case.
    pub fn lookup(s: &[char]) -> (r: Option<Directive>)
        ensures
            r == Directive::named(s@),
    {
        if same(s, ".ORIG") {
            Some(Directive::Orig)
        } else if same(s, ".END") {
            Some(Directive::End)
        } else if same(s, ".FILL") {
            Some(Directive::Fill)
        } else if same(s, ".BLKW") {
            Some(Directive::Blkw)
        } else if same(s, ".STRINGZ") {
            Some(Directive::Stringz)
        } else {
            None
        }
    }
}

impl View for Directive {
    type V = Directive;

    open spec fn view(&self) -> Directive {
        *self
    }
}

impl Parseable for Directive {
    open spec fn parsed(s: Seq<char>) -> Result<Directive, Failure> {
        match Directive::named(s) {
            Some(value) => Ok(value),
            None => Err(Failure::of(ErrorKind::ParseDirectiveError)),
        }
    }

    fn parse(s: &str) -> (r: Result<Self, Error>) {
        let chars = chars_of(s);
        match Directive::lookup(chars.as_slice()) {
            Some(value) => Ok(value),
            None => Err(Error::new(ErrorKind::ParseDirectiveError)),
        }
    }
}

/// The token that the lexeme `word` is, where `upper` is the form in which
/// it is matched against the vocabulary. A word of the vocabulary is a
/// mnemonic, a register or a directive. Any other lexeme that starts with
/// `x`, `#` or `b` is a constant, one within double quotes is a string, and
/// what is left is a label.
pub open spec fn classified(word: Seq<char>, upper: Seq<char>) -> Result<TokenView, Failure> {
    if let Some(op) = OpCode::named(upper) {
        Ok(TokenView::Op(op))
    } else if let Some(reg) = Register::named(upper) {
        Ok(TokenView::Reg(reg))
    } else if let Some(dir) = Directive::named(upper) {
        Ok(TokenView::Dir(dir))
    } else if word.len() > 0 && (word[0] == 'x' || word[0] == '#' || word[0] == 'b') {
        match constant_value(word) {
            Ok(value) => Ok(TokenView::Const(value)),
            Err(f) => Err(f),
        }
    } else if word.len() > 0 && word[0] == '"' && word.last() == '"' {
        Ok(TokenView::Str(literal_text(word)))
    } else {
        Ok(TokenView::Label(word))
    }
}

impl Token {
    /// The token that the lexeme `word` is, where `upper` is the form in
    /// which it is matched against the vocabulary.
    pub fn classify(word: &[char], upper: &[char]) -> (r: Result<Token, Error>)
        ensures
            match r {
                Ok(token) => classified(word@, upper@) == Ok::<TokenView, Failure>(token@),
                Err(e) => classified(word@, upper@) == Err::<TokenView, Failure>(e@),
            },
    {
        if let Some(op) = OpCode::lookup(upper) {
            return Ok(Token::Op(op));
        }
        if let Some(reg) = Register::lookup(upper) {
            return Ok(Token::Reg(reg));
        }
        if let Some(dir) = Directive::lookup(upper) {
            return Ok(Token::Dir(dir));
        }
        if word.len() > 0 && (word[0] == 'x' || word[0] == '#' || word[0] == 'b') {
            // Constant
            Ok(Token::Const(constant_of(word)?))
        } else if word.len() > 0 && word[0] == '"' && word[word.len() - 1] == '"' {
            // String
            let bare = remove(word, '"');
            Ok(Token::Str(decode(bare.as_slice())))
        } else {
            // Label
            Ok(Token::Label(text_of(word)))
        }
    }

    /// The token that the characters `s` spell.
    pub fn lex(s: &[char]) -> (r: Result<Token, Error>)
        ensures
            match r {
                Ok(token) => Token::parsed(s@) == Ok::<TokenView, Failure>(token@),
                Err(e) => Token::parsed(s@) == Err::<TokenView, Failure>(e@),
            },
    {
        let word = trimmed(s);
        let upper = fold(word);
        Token::classify(word, upper.as_slice())
    }
}

impl Parseable for Token {
    /// The lexeme is `s` without the white space around it, and it is
    /// matched against the vocabulary without regard to case.
    open spec fn parsed(s: Seq<char>) -> Result<TokenView, Failure> {
        classified(trim(s), folded(trim(s)))
    }

    fn parse(s: &str) -> (r: Result<Self, Error>) {
        let chars = chars_of(s);
        Token::lex(chars.as_slice())
    }
}

/// A source of items that can be asked for the next one, where running out
/// is a failure.
pub trait MustNext<T> {
    /// The items not handed out yet, in order.
    spec fn upcoming(&self) -> Seq<T>;

    /// Hands out the next item and moves past it. Where none is left the
    /// source stays as it is and the failure is `UnexpectedEof`.
    fn must_next(&mut self) -> (r: Result<&T, Error>)
        ensures
            match r {
                Ok(item) => old(self).upcoming().len() > 0 && *item == old(self).upcoming()[0]
                    && final(self).upcoming() == old(self).upcoming().drop_first(),
                Err(e) => old(self).upcoming().len() == 0 && e@ == Failure::of(
                    ErrorKind::UnexpectedEof,
                ) && final(self).upcoming() == old(self).upcoming(),
            },
    ;
}

/// A position in a slice: the items from `pos` on are still to come.
pub struct Cursor<'a, T> {
    pub items: &'a [T],
    pub pos: usize,
}

impl<'a, T> Cursor<'a, T> {
    /// A cursor at the start of `items`.
    pub fn new(items: &'a [T]) -> (c: Self)
        ensures
            c.items@ == items@,
            c.pos == 0,
    {
        Cursor { items, pos: 0 }
    }

    /// Hands out the next item, if there is one, and moves past it.
    pub fn next(&mut self) -> (r: Option<&'a T>)
        ensures
            final(self).items == old(self).items,
            match r {
                Some(item) => old(self).pos < old(self).items@.len() && final(self).pos == old(self).pos + 1 && *item == old(self).items@[old(self).pos as int],
                None => old(self).pos >= old(self).items@.len() && final(self).pos == old(self).pos,
            },
    {
        if self.pos < self.items.len() {
            let item = &self.items[self.pos];
            self.pos = self.pos + 1;
            Some(item)
        } else {
            None
        }
    }
}

impl<'a, T> MustNext<T> for Cursor<'a, T> {
    open spec fn upcoming(&self) -> Seq<T> {
        if self.pos <= self.items@.len() {
            self.items@.skip(self.pos as int)
        } else {
            Seq::empty()
        }
    }

    fn must_next(&mut self) -> (r: Result<&T, Error>)
        ensures
            final(self).items == old(self).items,
            r is Ok ==> old(self).pos < old(self).items@.len() && final(self).pos == old(self).pos + 1
                && *r->Ok_0 == old(self).items@[old(self).pos as int],
            r is Err ==> old(self).pos >= old(self).items@.len() && final(self).pos == old(self).pos,
    {
        if self.pos < self.items.len() {
            let item = &self.items[self.pos];
            self.pos = self.pos + 1;
            Ok(item)
        } else {
            Err(Error::new(ErrorKind::UnexpectedEof))
        }
    }
}

} // verus!
