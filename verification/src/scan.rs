//! What the first pass makes of the source, stated over its lines.
//!
//! The first pass reads the lines in order with a location counter that
//! starts at zero. A label at the start of a line gets the counter's value
//! as its address, the statement after it moves the counter, and the tokens
//! of the line join the token stream. The pass ends with the line that
//! holds `.END`.

use vstd::prelude::*;
use crate::enums::{Directive, TokenView};
use crate::error::{ErrorKind, Failure};
use crate::generate::{next_counter, token_at};
use crate::utils::tokens_of;

verus! {

/// The state of the first pass between two lines.
pub struct ScanState {
    /// The location counter.
    pub counter: u16,
    /// The address of every label met so far.
    pub symbols: Map<Seq<char>, u16>,
    /// The labels met so far, in the order of their first definition.
    pub order: Seq<Seq<char>>,
    /// The tokens of the lines read so far.
    pub tokens: Seq<TokenView>,
    /// Whether `.END` was met.
    pub ended: bool,
}

/// The state before the first line.
pub open spec fn initial() -> ScanState {
    ScanState {
        counter: 0,
        symbols: Map::empty(),
        order: Seq::empty(),
        tokens: Seq::empty(),
        ended: false,
    }
}

/// Where the statement of a line starts: after the label, if the line
/// starts with one.
pub open spec fn statement_index(tokens: Seq<TokenView>) -> int {
    if tokens.len() > 0 && tokens[0] is Label {
        1
    } else {
        0
    }
}

/// Whether `head` is a directive whose operand the first pass reads.
pub open spec fn needs_operand(head: TokenView) -> bool {
    head == TokenView::Dir(Directive::Orig) || head == TokenView::Dir(Directive::Blkw) || head
        == TokenView::Dir(Directive::Stringz)
}

/// The state after a line with the tokens `tokens`. A label alone is no
/// statement, and neither is `.ORIG`, `.BLKW` or `.STRINGZ` without an
/// operand: both are syntax errors.
pub open spec fn scan_tokens(state: ScanState, tokens: Seq<TokenView>) -> Result<
    ScanState,
    Failure,
> {
    let index = statement_index(tokens);
    if index >= tokens.len() {
        Err(Failure::of(ErrorKind::SyntaxError))
    } else if needs_operand(tokens[index]) && index + 1 >= tokens.len() {
        Err(Failure::of(ErrorKind::SyntaxError))
    } else {
        Ok(
            ScanState {
                counter: next_counter(tokens[index], token_at(tokens, index + 1), state.counter),
                symbols: match tokens[0] {
                    TokenView::Label(name) => state.symbols.insert(name, state.counter),
                    _ => state.symbols,
                },
                order: match tokens[0] {
                    TokenView::Label(name) => if state.symbols.contains_key(name) {
                        state.order
                    } else {
                        state.order.push(name)
                    },
                    _ => state.order,
                },
                tokens: state.tokens + tokens,
                ended: tokens[index] == TokenView::Dir(Directive::End),
            },
        )
    }
}

/// The state after the line `line`. After `.END` nothing is read any more,
/// and a line without tokens changes nothing.
pub open spec fn scan_line(state: ScanState, line: Seq<char>) -> Result<ScanState, Failure> {
    if state.ended {
        Ok(state)
    } else {
        match tokens_of(line) {
            Err(f) => Err(f),
            Ok(None) => Ok(state),
            Ok(Some(tokens)) => scan_tokens(state, tokens),
        }
    }
}

/// The state after the lines `lines`; the first line that fails decides the
/// failure.
pub open spec fn scan(lines: Seq<Seq<char>>) -> Result<ScanState, Failure>
    decreases lines.len(),
{
    if lines.len() == 0 {
        Ok(initial())
    } else {
        match scan(lines.drop_last()) {
            Err(f) => Err(f),
            Ok(state) => scan_line(state, lines.last()),
        }
    }
}

/// A failure among the first `n` lines is the failure of the whole, and
/// what stands after `.END` changes nothing.
pub proof fn lemma_scan_settled(lines: Seq<Seq<char>>, n: int)
    requires
        0 <= n <= lines.len(),
        scan(lines.take(n)) is Err || scan(lines.take(n))->Ok_0.ended,
    ensures
        scan(lines) == scan(lines.take(n)),
    decreases lines.len() - n,
{
    if n < lines.len() {
        assert(lines.take(n + 1).drop_last() =~= lines.take(n));
        lemma_scan_settled(lines, n + 1);
    } else {
        assert(lines.take(n) =~= lines);
    }
}

} // verus!
