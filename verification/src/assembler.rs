//! The two passes over a program.

use vstd::prelude::*;
use vstd::string::*;
use crate::encoder::{
    encode_add_imm, encode_add_reg, encode_and_imm, encode_and_reg, encode_blkw, encode_br,
    encode_fill, encode_getc, encode_halt, encode_in, encode_jmp, encode_jsr, encode_jsrr,
    encode_ld, encode_ldi, encode_ldr, encode_lea, encode_not, encode_orig, encode_out, encode_puts,
    encode_putsp, encode_res, encode_ret, encode_rti, encode_st, encode_sti, encode_str, encode_stringz,
};
use crate::enums::{
    token_views, Cursor, Directive, MustNext, OpCode, Register, Token, TokenView,
};
use crate::error::{words_match, Error, ErrorKind, Failure};
use crate::generate::{
    address_of, arithmetic_words, branch_words, const_at, directive_words, generate, generate_from,
    indexed_words, instruction_words, label_at, memory_words, next_counter, operand_count, prefixed,
    reg_at, relative, str_at, string_advance, token_at, trap_words,
};
use crate::output::{big_endian, listing, object_bytes, symbol_listing};
use crate::scan::{lemma_scan_settled, scan, scan_tokens, ScanState};
use crate::symbols::{is_listing, SymbolTable};
use crate::utils::{tokenize, verify_offset};

verus! {

/// One assembly run: the source lines, and what the passes have made of
/// them so far.
pub struct Assembler {
    lines: Vec<String>,
    sym_table: SymbolTable,
    tokens: Vec<Token>,
    bin: Vec<u16>,
}

/// The number of words that a string takes, modulo 2^16: one for each byte
/// and one for the closing zero.
pub fn string_words(text: &str) -> (n: u16)
    ensures
        n == string_advance(text@),
{
    let bytes = text.as_bytes().len();
    ((bytes % 0x1_0000) as u16).wrapping_add(1)
}

/// The register that the next token of `cursor` names.
fn next_reg(cursor: &mut Cursor<Token>) -> (r: Result<Register, Error>)
    requires
        old(cursor).pos <= old(cursor).items@.len(),
    ensures
        final(cursor).items == old(cursor).items,
        final(cursor).pos <= final(cursor).items@.len(),
        match r {
            Ok(reg) => reg_at(token_views(old(cursor).items@), old(cursor).pos as int) == Ok::<
                Register,
                Failure,
            >(reg) && final(cursor).pos == old(cursor).pos + 1,
            Err(e) => reg_at(token_views(old(cursor).items@), old(cursor).pos as int) == Err::<
                Register,
                Failure,
            >(e@),
        },
{
    cursor.must_next()?.take_reg()
}

/// The constant that the next token of `cursor` holds.
fn next_const(cursor: &mut Cursor<Token>) -> (r: Result<u16, Error>)
    requires
        old(cursor).pos <= old(cursor).items@.len(),
    ensures
        final(cursor).items == old(cursor).items,
        final(cursor).pos <= final(cursor).items@.len(),
        match r {
            Ok(value) => const_at(token_views(old(cursor).items@), old(cursor).pos as int) == Ok::<
                u16,
                Failure,
            >(value) && final(cursor).pos == old(cursor).pos + 1,
            Err(e) => const_at(token_views(old(cursor).items@), old(cursor).pos as int) == Err::<
                u16,
                Failure,
            >(e@),
        },
{
    cursor.must_next()?.take_const()
}

/// The label that the next token of `cursor` names.
fn next_label(cursor: &mut Cursor<Token>) -> (r: Result<String, Error>)
    requires
        old(cursor).pos <= old(cursor).items@.len(),
    ensures
        final(cursor).items == old(cursor).items,
        final(cursor).pos <= final(cursor).items@.len(),
        match r {
            Ok(name) => label_at(token_views(old(cursor).items@), old(cursor).pos as int) == Ok::<
                Seq<char>,
                Failure,
            >(name@) && final(cursor).pos == old(cursor).pos + 1,
            Err(e) => label_at(token_views(old(cursor).items@), old(cursor).pos as int) == Err::<
                Seq<char>,
                Failure,
            >(e@),
        },
{
    cursor.must_next()?.take_label()
}

/// The string that the next token of `cursor` holds.
fn next_str(cursor: &mut Cursor<Token>) -> (r: Result<String, Error>)
    requires
        old(cursor).pos <= old(cursor).items@.len(),
    ensures
        final(cursor).items == old(cursor).items,
        final(cursor).pos <= final(cursor).items@.len(),
        match r {
            Ok(text) => str_at(token_views(old(cursor).items@), old(cursor).pos as int) == Ok::<
                Seq<char>,
                Failure,
            >(text@) && final(cursor).pos == old(cursor).pos + 1,
            Err(e) => str_at(token_views(old(cursor).items@), old(cursor).pos as int) == Err::<
                Seq<char>,
                Failure,
            >(e@),
        },
{
    cursor.must_next()?.take_str()
}

/// What the first pass does with the tokens of one line: it records the
/// label, if the line starts with one, and moves the location counter past
/// the statement. The result says whether the statement is `.END`.
fn scan_statement(tokens: &Vec<Token>, table: &mut SymbolTable, lc: &mut u16) -> (r: Result<
    bool,
    Error,
>)
    ensures
        match scan_tokens(
            ScanState {
                counter: *old(lc),
                symbols: old(table)@,
                order: old(table).order(),
                tokens: Seq::empty(),
                ended: false,
            },
            token_views(tokens@),
        ) {
            Ok(state) => r == Ok::<bool, Error>(state.ended) && *final(lc) == state.counter
                && final(table)@ == state.symbols && final(table).order() == state.order,
            Err(f) => r is Err && r->Err_0@ == f,
        },
{
    let ghost views = token_views(tokens@);
    if tokens.len() == 0 {
        return Err(Error::new(ErrorKind::SyntaxError));
    }
    assert(views[0] == tokens@[0]@);
    let idx: usize = match &tokens[0] {
        Token::Label(label) => {
            table.insert(label.clone(), *lc);
            1
        },
        _ => 0,
    };
    if idx >= tokens.len() {
        // a label alone is no statement
        return Err(Error::new(ErrorKind::SyntaxError));
    }
    assert(views[idx as int] == tokens@[idx as int]@);
    let operand: Option<&Token> = if idx + 1 < tokens.len() {
        assert(views[idx + 1] == tokens@[idx + 1]@);
        Some(&tokens[idx + 1])
    } else {
        None
    };
    match &tokens[idx] {
        Token::Dir(Directive::Orig) => {
            match operand {
                Some(Token::Const(c)) => {
                    *lc = *c;
                },
                Some(_) => {},
                None => return Err(Error::new(ErrorKind::SyntaxError)),
            }
            Ok(false)
        },
        Token::Dir(Directive::Blkw) => {
            match operand {
                Some(Token::Const(c)) => {
                    *lc = lc.wrapping_add(*c);
                },
                Some(_) => {},
                None => return Err(Error::new(ErrorKind::SyntaxError)),
            }
            Ok(false)
        },
        Token::Dir(Directive::Stringz) => {
            match operand {
                Some(Token::Str(s)) => {
                    // the closing zero counts
                    *lc = lc.wrapping_add(string_words(s.as_str()));
                },
                Some(_) => {},
                None => return Err(Error::new(ErrorKind::SyntaxError)),
            }
            Ok(false)
        },
        Token::Dir(Directive::End) => Ok(true),
        _ => {
            *lc = lc.wrapping_add(1);
            Ok(false)
        },
    }
}

/// The address of `name`, or a `MissingLabelError`.
fn resolve(table: &SymbolTable, name: &str) -> (r: Result<u16, Error>)
    ensures
        match r {
            Ok(address) => address_of(table@, name@) == Ok::<u16, Failure>(address),
            Err(e) => address_of(table@, name@) == Err::<u16, Failure>(e@),
        },
{
    match table.get(name) {
        Some(address) => Ok(address),
        None => Err(Error::new(ErrorKind::MissingLabelError)),
    }
}

/// The words of the directive `dir`, whose operand is the next token
/// of `cursor`, and the location counter after it.
fn directive(table: &SymbolTable, dir: Directive, cursor: &mut Cursor<Token>, lc: &mut u16) -> (r: Result<
    Vec<u16>,
    Error,
>)
    requires
        0 < old(cursor).pos <= old(cursor).items@.len(),
        old(cursor).items@[old(cursor).pos - 1]@ == TokenView::Dir(dir),
        dir != Directive::End,
    ensures
        final(cursor).items == old(cursor).items,
        words_match(
            r,
            directive_words(
                dir,
                token_views(old(cursor).items@),
                table@,
                old(cursor).pos - 1,
            ),
        ),
        r is Ok ==> final(cursor).pos == old(cursor).pos + 1 && *final(lc) == next_counter(
            TokenView::Dir(dir),
            token_at(token_views(old(cursor).items@), old(cursor).pos as int),
            *old(lc),
        ),
{
    match dir {
        Directive::Fill => {
            let arg = cursor.must_next()?;
            let v = match arg {
                Token::Const(_) => arg.take_const()?,
                Token::Label(l) => resolve(table, l.as_str())?,
                _ => return Err(Error::new(ErrorKind::SyntaxError)),
            };
            *lc = lc.wrapping_add(1);
            Ok(encode_fill(v))
        },
        Directive::Blkw => {
            let c = next_const(cursor)?;
            *lc = lc.wrapping_add(c);
            Ok(encode_blkw(c))
        },
        Directive::Stringz => {
            let s = next_str(cursor)?;
            *lc = lc.wrapping_add(string_words(s.as_str()));
            Ok(encode_stringz(s))
        },
        Directive::Orig => Err(Error::new(ErrorKind::SyntaxError)),
        Directive::End => Ok(Vec::new()),
    }
}

/// The offset field of a reference to the label `name` from an
/// instruction after which the location counter is `next`.
fn reference(table: &SymbolTable, name: &str, next: u16, width: u16) -> (r: Result<u16, Error>)
    requires
        0 < width < 16,
    ensures
        match r {
            Ok(field) => relative(table@, name@, next, width) == Ok::<u16, Failure>(
                field,
            ),
            Err(e) => relative(table@, name@, next, width) == Err::<u16, Failure>(e@),
        },
{
    let addr = resolve(table, name)?;
    let offset = addr.wrapping_sub(next);
    verify_offset(offset, width)
}

/// The word of the branch `token`, whose target is the next token of
/// `cursor`.
fn branch(table: &SymbolTable, op: OpCode, token: &Token, cursor: &mut Cursor<Token>, next: u16) -> (r:
    Result<Vec<u16>, Error>)
    requires
        0 < old(cursor).pos <= old(cursor).items@.len(),
        token@ == TokenView::Op(op),
    ensures
        final(cursor).items == old(cursor).items,
        words_match(
            r,
            branch_words(
                op,
                token_views(old(cursor).items@),
                table@,
                old(cursor).pos - 1,
                next,
            ),
        ),
        r is Ok ==> final(cursor).pos == old(cursor).pos + 1,
{
    let arg = cursor.must_next()?;
    let offset = match arg {
        Token::Const(_) => arg.take_const()?,
        Token::Label(l) => {
            let addr = resolve(table, l.as_str())?;
            addr.wrapping_sub(next)
        },
        _ => return Err(Error::new(ErrorKind::SyntaxError)),
    };
    Ok(encode_br(token, verify_offset(offset, 9)?))
}

/// The word of `ADD` or `AND`, whose operands are the next tokens of
/// `cursor`.
fn arithmetic(op: OpCode, cursor: &mut Cursor<Token>) -> (r: Result<Vec<u16>, Error>)
    requires
        0 < old(cursor).pos <= old(cursor).items@.len(),
        op == OpCode::Add || op == OpCode::And,
    ensures
        final(cursor).items == old(cursor).items,
        words_match(
            r,
            arithmetic_words(op, token_views(old(cursor).items@), old(cursor).pos - 1),
        ),
        r is Ok ==> final(cursor).pos == old(cursor).pos + 3,
{
    let dr = next_reg(cursor)?;
    let sr1 = next_reg(cursor)?;
    let arg = cursor.must_next()?;
    match arg {
        Token::Reg(_) => {
            let sr2 = arg.take_reg()?;
            match op {
                OpCode::Add => Ok(encode_add_reg(dr, sr1, sr2)),
                _ => Ok(encode_and_reg(dr, sr1, sr2)),
            }
        },
        Token::Const(_) => {
            let imm = verify_offset(arg.take_const()?, 5)?;
            match op {
                OpCode::Add => Ok(encode_add_imm(dr, sr1, imm)),
                _ => Ok(encode_and_imm(dr, sr1, imm)),
            }
        },
        _ => Err(Error::new(ErrorKind::SyntaxError)),
    }
}

/// The word of `LD`, `LDI`, `LEA`, `ST` or `STI`, whose operands are the
/// next tokens of `cursor`.
fn memory(table: &SymbolTable, op: OpCode, cursor: &mut Cursor<Token>, next: u16) -> (r: Result<
    Vec<u16>,
    Error,
>)
    requires
        0 < old(cursor).pos <= old(cursor).items@.len(),
        op == OpCode::Ld || op == OpCode::Ldi || op == OpCode::Lea || op == OpCode::St || op
            == OpCode::Sti,
    ensures
        final(cursor).items == old(cursor).items,
        words_match(
            r,
            memory_words(
                op,
                token_views(old(cursor).items@),
                table@,
                old(cursor).pos - 1,
                next,
            ),
        ),
        r is Ok ==> final(cursor).pos == old(cursor).pos + 2,
{
    let reg = next_reg(cursor)?;
    let label = next_label(cursor)?;
    let offset = reference(table, label.as_str(), next, 9)?;
    match op {
        OpCode::Ld => Ok(encode_ld(reg, offset)),
        OpCode::Ldi => Ok(encode_ldi(reg, offset)),
        OpCode::Lea => Ok(encode_lea(reg, offset)),
        OpCode::St => Ok(encode_st(reg, offset)),
        _ => Ok(encode_sti(reg, offset)),
    }
}

/// The word of `LDR` or `STR`, whose operands are the next tokens of
/// `cursor`.
fn indexed(op: OpCode, cursor: &mut Cursor<Token>) -> (r: Result<Vec<u16>, Error>)
    requires
        0 < old(cursor).pos <= old(cursor).items@.len(),
        op == OpCode::Ldr || op == OpCode::Str,
    ensures
        final(cursor).items == old(cursor).items,
        words_match(r, indexed_words(op, token_views(old(cursor).items@), old(cursor).pos - 1)),
        r is Ok ==> final(cursor).pos == old(cursor).pos + 3,
{
    let reg = next_reg(cursor)?;
    let base = next_reg(cursor)?;
    let offset = verify_offset(next_const(cursor)?, 6)?;
    match op {
        OpCode::Ldr => Ok(encode_ldr(reg, base, offset)),
        _ => Ok(encode_str(reg, base, offset)),
    }
}

/// The word of `TRAP`, whose vector is the next token of `cursor`.
fn trap(cursor: &mut Cursor<Token>) -> (r: Result<Vec<u16>, Error>)
    requires
        0 < old(cursor).pos <= old(cursor).items@.len(),
    ensures
        final(cursor).items == old(cursor).items,
        words_match(r, trap_words(token_views(old(cursor).items@), old(cursor).pos - 1)),
        r is Ok ==> final(cursor).pos == old(cursor).pos + 1,
{
    let trap_vec = next_const(cursor)?;
    match trap_vec {
        0x20 => Ok(encode_getc()),
        0x21 => Ok(encode_out()),
        0x22 => Ok(encode_puts()),
        0x23 => Ok(encode_in()),
        0x24 => Ok(encode_putsp()),
        0x25 => Ok(encode_halt()),
        _ => Err(Error::new(ErrorKind::SyntaxError)),
    }
}

/// The words of the instruction `op`, whose operands are the next tokens
/// of `cursor`, where the location counter is `lc` before it.
fn instruction(table: &SymbolTable, op: OpCode, token: &Token, cursor: &mut Cursor<Token>, lc: u16) -> (r:
    Result<Vec<u16>, Error>)
    requires
        0 < old(cursor).pos <= old(cursor).items@.len(),
        token@ == TokenView::Op(op),
    ensures
        final(cursor).items == old(cursor).items,
        words_match(
            r,
            instruction_words(
                op,
                token_views(old(cursor).items@),
                table@,
                old(cursor).pos - 1,
                lc,
            ),
        ),
        r is Ok ==> final(cursor).pos == old(cursor).pos + operand_count(TokenView::Op(op)),
{
    let next = lc.wrapping_add(1);
    match op {
        OpCode::Br | OpCode::Brn | OpCode::Brnp | OpCode::Brp | OpCode::Brz | OpCode::Brnz
        | OpCode::Brzp | OpCode::Brnzp => branch(table, op, token, cursor, next),
        OpCode::Add | OpCode::And => arithmetic(op, cursor),
        OpCode::Jmp => {
            let sr1 = next_reg(cursor)?;
            Ok(encode_jmp(sr1))
        },
        OpCode::Jsr => {
            let label = next_label(cursor)?;
            let offset = reference(table, label.as_str(), next, 11)?;
            Ok(encode_jsr(offset))
        },
        OpCode::Jsrr => {
            let sr1 = next_reg(cursor)?;
            Ok(encode_jsrr(sr1))
        },
        OpCode::Ld | OpCode::Ldi | OpCode::Lea | OpCode::St | OpCode::Sti => memory(table, 
            op,
            cursor,
            next,
        ),
        OpCode::Ldr | OpCode::Str => indexed(op, cursor),
        OpCode::Not => {
            let dr = next_reg(cursor)?;
            let sr = next_reg(cursor)?;
            Ok(encode_not(dr, sr))
        },
        OpCode::Ret => Ok(encode_ret()),
        OpCode::Rti => Ok(encode_rti()),
        OpCode::Trap => trap(cursor),
        OpCode::GetC => Ok(encode_getc()),
        OpCode::Puts => Ok(encode_puts()),
        OpCode::PutsP => Ok(encode_putsp()),
        OpCode::In => Ok(encode_in()),
        OpCode::Out => Ok(encode_out()),
        OpCode::Halt => Ok(encode_halt()),
        OpCode::Res => Ok(encode_res()),
    }
}

/// The output of the second pass over the token stream `stream` with the
/// symbol table `table`: the origin word, then the words of every statement
/// up to `.END` or the end of the stream.
pub fn generate_words(stream: &[Token], table: &SymbolTable) -> (r: Result<Vec<u16>, Error>)
    ensures
        words_match(r, generate(token_views(stream@), table@)),
{
    let ghost tokens = token_views(stream@);
    let ghost symbols = table@;
    let mut cursor = Cursor::new(stream);
    let mut lc: u16 = 0;

    // Tokens should begin with Dir(Orig) and Const(c)
    // Otherwise syntax error
    let mut bin = match cursor.next() {
        Some(Token::Dir(Directive::Orig)) => {
            let origin = next_const(&mut cursor)?;
            lc = origin;
            encode_orig(origin)
        },
        _ => return Err(Error::new(ErrorKind::SyntaxError)),
    };

    loop
        invariant_except_break
            generate(tokens, symbols) == prefixed(
                bin@,
                generate_from(tokens, symbols, cursor.pos as int, lc),
            ),
        invariant
            cursor.items@ == stream@,
            token_views(stream@) == tokens,
            tokens.len() == stream@.len(),
            table@ == symbols,
            2 <= cursor.pos <= cursor.items@.len(),
        ensures
            generate(tokens, symbols) == Ok::<Seq<u16>, Failure>(bin@),
        decreases cursor.items@.len() - cursor.pos,
    {
        let ghost at = cursor.pos as int;
        let ghost before = bin@;
        let token = match cursor.next() {
            Some(token) => token,
            None => {
                assert(bin@ + Seq::<u16>::empty() =~= bin@);
                break ;
            },
        };
        assert(token@ == tokens[at]);
        let mut words = match token {
            Token::Dir(Directive::End) => {
                assert(bin@ + Seq::<u16>::empty() =~= bin@);
                break ;
            },
            Token::Dir(dir) => directive(table, *dir, &mut cursor, &mut lc)?,
            Token::Label(_) => continue ,
            Token::Op(op) => {
                let words = instruction(table, *op, token, &mut cursor, lc)?;
                lc = lc.wrapping_add(1);
                words
            },
            // Orphan constants, registers or strings should be syntax error
            Token::Str(_) | Token::Reg(_) | Token::Const(_) => {
                return Err(Error::new(ErrorKind::SyntaxError))
            },
            Token::Invalid => return Err(Error::new(ErrorKind::InvalidTokenError)),
        };
        assert(before + (words@ + generate_from(tokens, symbols, cursor.pos as int, lc)->Ok_0)
            =~= (before + words@) + generate_from(tokens, symbols, cursor.pos as int, lc)->Ok_0);
        bin.append(&mut words);
    }
    Ok(bin)
}

impl Assembler {
    /// The source, line by line.
    pub closed spec fn source(&self) -> Seq<Seq<char>> {
        self.lines@.map_values(|line: String| line@)
    }

    /// The address of every label.
    pub closed spec fn symbols(&self) -> Map<Seq<char>, u16> {
        self.sym_table@
    }

    /// The labels in the order of their first definition.
    pub closed spec fn symbol_order(&self) -> Seq<Seq<char>> {
        self.sym_table.order()
    }

    /// The token stream.
    pub closed spec fn stream(&self) -> Seq<TokenView> {
        token_views(self.tokens@)
    }

    /// The output words: the origin, then the program image.
    pub closed spec fn image(&self) -> Seq<u16> {
        self.bin@
    }

    /// A run over `lines`, before any pass.
    pub fn new(lines: Vec<String>) -> (run: Self)
        ensures
            run.source() == lines@.map_values(|line: String| line@),
            run.symbols() == Map::<Seq<char>, u16>::empty(),
            run.symbol_order() == Seq::<Seq<char>>::empty(),
            run.stream() == Seq::<TokenView>::empty(),
            run.image() == Seq::<u16>::empty(),
    {
        let run = Self {
            lines,
            tokens: Vec::new(),
            bin: Vec::new(),
            sym_table: SymbolTable::new(),
        };
        assert(token_views(run.tokens@) =~= Seq::<TokenView>::empty());
        run
    }

    /// The address of the label `name`, if the first pass has met it.
    pub fn symbol(&self, name: &str) -> (r: Option<u16>)
        ensures
            r == (if self.symbols().contains_key(name@) {
                Some(self.symbols()[name@])
            } else {
                None::<u16>
            }),
    {
        self.sym_table.get(name)
    }

    /// The symbol table.
    pub fn sym_table(&self) -> (table: &SymbolTable)
        ensures
            table@ == self.symbols(),
            table.order() == self.symbol_order(),
    {
        &self.sym_table
    }

    /// The token stream.
    pub fn tokens(&self) -> (tokens: &Vec<Token>)
        ensures
            token_views(tokens@) == self.stream(),
    {
        &self.tokens
    }

    /// The output words: the origin, then the program image.
    pub fn bin(&self) -> (words: &Vec<u16>)
        ensures
            words@ == self.image(),
    {
        &self.bin
    }

    /// The bytes of the object file: the output words, each with its high
    /// byte first.
    pub fn object_file(&self) -> (bytes: Vec<u8>)
        ensures
            bytes@ == big_endian(self.image()),
    {
        object_bytes(self.bin.as_slice())
    }

    /// The text of the symbol file: every label once with its address, by
    /// ascending address, one to a line.
    pub fn symbol_file(&self) -> (text: String)
        ensures
            exists|entries: Seq<(Seq<char>, u16)>|
                is_listing(entries, self.symbols(), self.symbol_order()) && text@ == listing(
                    entries,
                ),
    {
        symbol_listing(&self.sym_table)
    }

    /// Both passes in turn. The first failure ends the run: a failure of
    /// the first pass leaves the run as it was, one of the second pass leaves
    /// the symbol table and the token stream of the first in place.
    pub fn assemble(&mut self) -> (r: Result<(), Error>)
        ensures
            final(self).source() == old(self).source(),
            match scan(old(self).source()) {
                Err(f) => r is Err && r->Err_0@ == f && final(self).symbols() == old(
                    self).symbols() && final(self).symbol_order() == old(self).symbol_order()
                    && final(self).stream() == old(self).stream() && final(self).image() == old(
                    self).image(),
                Ok(state) => final(self).symbols() == state.symbols && final(self).symbol_order()
                    == state.order && final(self).stream() == state.tokens && match generate(
                    state.tokens,
                    state.symbols,
                ) {
                    Ok(words) => r is Ok && final(self).image() == words,
                    Err(f) => r is Err && r->Err_0@ == f && final(self).image() == old(
                        self).image(),
                },
            },
    {
        self.first_pass()?;
        self.second_pass()?;
        Ok(())
    }

    /// The first pass: reads the source line by line, gives every label the
    /// value of the location counter at its line, and collects the tokens of
    /// all lines up to `.END` in the token stream. On failure the run is
    /// left as it was.
    pub fn first_pass(&mut self) -> (r: Result<(), Error>)
        ensures
            final(self).source() == old(self).source(),
            final(self).image() == old(self).image(),
            match scan(old(self).source()) {
                Ok(state) => r is Ok && final(self).symbols() == state.symbols && final(self).symbol_order() == state.order && final(self).stream() == state.tokens,
                Err(f) => r is Err && r->Err_0@ == f && final(self).symbols() == old(self).symbols() && final(self).symbol_order() == old(self).symbol_order() && final(self).stream() == old(self).stream(),
            },
    {
        let ghost source = self.source();
        let mut lc: u16 = 0;
        let mut table = SymbolTable::new();
        let mut stream: Vec<Token> = Vec::new();
        let mut i: usize = 0;
        assert(token_views(stream@) =~= Seq::<TokenView>::empty());
        assert(source.take(0) =~= Seq::<Seq<char>>::empty());
        loop
            invariant_except_break
                scan(source.take(i as int)) == Ok::<ScanState, Failure>(
                    ScanState {
                        counter: lc,
                        symbols: table@,
                        order: table.order(),
                        tokens: token_views(stream@),
                        ended: false,
                    },
                ),
            invariant
                i <= self.lines@.len(),
                source == self.lines@.map_values(|line: String| line@),
            ensures
                scan(source) is Ok,
                scan(source)->Ok_0.symbols == table@,
                scan(source)->Ok_0.order == table.order(),
                scan(source)->Ok_0.tokens == token_views(stream@),
            decreases self.lines@.len() - i,
        {
            if i >= self.lines.len() {
                assert(source.take(i as int) =~= source);
                break ;
            }
            let ghost front = source.take(i + 1);
            assert(front.drop_last() =~= source.take(i as int));
            assert(front.last() == self.lines@[i as int]@);
            let ghost so_far = token_views(stream@);
            let line = &self.lines[i];
            i += 1;
            let mut tokens = match tokenize(line.as_str()) {
                Ok(Some(tokens)) => tokens,
                Ok(None) => {
                    continue ;
                },
                Err(e) => {
                    proof {
                        lemma_scan_settled(source, i as int);
                    }
                    return Err(e);
                },
            };
            let ghost line_tokens = token_views(tokens@);
            let ended = match scan_statement(&tokens, &mut table, &mut lc) {
                Ok(ended) => ended,
                Err(e) => {
                    proof {
                        lemma_scan_settled(source, i as int);
                    }
                    return Err(e);
                },
            };
            stream.append(&mut tokens);
            assert(token_views(stream@) =~= so_far + line_tokens);
            if ended {
                proof {
                    lemma_scan_settled(source, i as int);
                }
                break ;
            }
        }

        self.sym_table = table;
        self.tokens = stream;
        Ok(())
    }

    /// The second pass: walks the token stream, resolves labels against the
    /// symbol table and encodes every statement. On success the output is
    /// the origin word and the program image; on failure the run is left as
    /// it was.
    pub fn second_pass(&mut self) -> (r: Result<(), Error>)
        ensures
            final(self).source() == old(self).source(),
            final(self).symbols() == old(self).symbols(),
            final(self).symbol_order() == old(self).symbol_order(),
            final(self).stream() == old(self).stream(),
            match generate(old(self).stream(), old(self).symbols()) {
                Ok(words) => r is Ok && final(self).image() == words,
                Err(f) => r is Err && r->Err_0@ == f && final(self).image() == old(self).image(),
            },
    {
        let bin = generate_words(self.tokens.as_slice(), &self.sym_table)?;
        self.bin = bin;
        Ok(())
    }
}

} // verus!
