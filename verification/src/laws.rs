//! Both passes count alike: the address that the first pass gives a label is
//! the value of the second pass's location counter at the statement that
//! the label stands before, and it is the place of that statement in the
//! program image.

use vstd::prelude::*;
use crate::encoder::stringz_words;
use crate::enums::{Directive, TokenView};
use crate::generate::{
    counter_at, counter_from, generate, generate_from, next_counter, operand_count, origin, step,
    token_at, words_before, words_from, Step,
};
use crate::scan::{scan, scan_line, statement_index, ScanState};
use crate::utils::tokens_of;

verus! {

/// Whether the tokens of a line are one whole statement: a label or none,
/// then a mnemonic or a directive, then as many operands as it takes and
/// nothing more.
pub open spec fn one_statement(tokens: Seq<TokenView>) -> bool {
    let index = statement_index(tokens);
    &&& index < tokens.len()
    &&& tokens[index] is Op || tokens[index] is Dir
    &&& tokens.len() == index + 1 + operand_count(tokens[index])
}

/// The state of the first pass before line `i`.
pub open spec fn state_before(lines: Seq<Seq<char>>, i: int) -> ScanState {
    scan(lines.take(i))->Ok_0
}

/// The position in the token stream at which the tokens of line `i` start.
pub open spec fn line_start(lines: Seq<Seq<char>>, i: int) -> int {
    state_before(lines, i).tokens.len() as int
}

/// The tokens of line `i`, if the first pass reads the line and finds any.
pub open spec fn read_tokens(lines: Seq<Seq<char>>, i: int) -> Option<Seq<TokenView>> {
    if 0 <= i < lines.len() && scan(lines.take(i)) is Ok && !state_before(lines, i).ended {
        match tokens_of(lines[i]) {
            Ok(Some(tokens)) => Some(tokens),
            _ => None,
        }
    } else {
        None
    }
}

/// Whether every line that the first pass reads holds one whole statement.
pub open spec fn orderly(lines: Seq<Seq<char>>) -> bool {
    forall|i: int| #[trigger]
        read_tokens(lines, i) matches Some(tokens) ==> one_statement(tokens)
}

/// Whether line `i` is read by the first pass and starts with the label
/// `name`.
pub open spec fn defines(lines: Seq<Seq<char>>, i: int, name: Seq<char>) -> bool {
    read_tokens(lines, i) matches Some(tokens) && tokens.len() > 0 && tokens[0]
        == TokenView::Label(name)
}

/// Whether the statement of line `i` is `.ORIG`.
pub open spec fn sets_origin(lines: Seq<Seq<char>>, i: int) -> bool {
    read_tokens(lines, i) matches Some(tokens) && statement_index(tokens) < tokens.len()
        && tokens[statement_index(tokens)] == TokenView::Dir(Directive::Orig)
}

/// Whether the statement of line `i` is `.ORIG` with the constant `start`.
pub open spec fn starts_at(lines: Seq<Seq<char>>, i: int, start: u16) -> bool {
    sets_origin(lines, i) && token_at(
        read_tokens(lines, i)->Some_0,
        statement_index(read_tokens(lines, i)->Some_0) + 1,
    ) == Some(TokenView::Const(start))
}

/// The number of words that the statement of a line takes in the eyes of
/// the first pass: one for an instruction and for `.FILL`, the count of
/// `.BLKW`, and the bytes of the text and one more for `.STRINGZ`.
pub open spec fn statement_size(tokens: Seq<TokenView>) -> nat {
    let index = statement_index(tokens);
    if index >= tokens.len() {
        0
    } else {
        match tokens[index] {
            TokenView::Dir(Directive::Blkw) => match token_at(tokens, index + 1) {
                Some(TokenView::Const(count)) => count as nat,
                _ => 0,
            },
            TokenView::Dir(Directive::Stringz) => match token_at(tokens, index + 1) {
                Some(TokenView::Str(text)) => stringz_words(text).len(),
                _ => 0,
            },
            TokenView::Dir(Directive::End) => 0,
            TokenView::Dir(Directive::Orig) => 0,
            _ => 1,
        }
    }
}

/// The sizes of the statements of the lines from `from` up to, but not
/// including, `to`, added up.
pub open spec fn size_of_lines(lines: Seq<Seq<char>>, from: int, to: int) -> nat
    decreases to - from,
{
    if to <= from {
        0
    } else {
        size_of_lines(lines, from, to - 1) + match read_tokens(lines, to - 1) {
            Some(tokens) => statement_size(tokens),
            None => 0,
        }
    }
}

/// Where the first pass succeeds on a program, it succeeds on every part of
/// the program from its start, and the token stream of the part is the start
/// of the stream of the whole. What the pass has after `.END` is final.
pub proof fn lemma_scan_prefix(lines: Seq<Seq<char>>, k: int)
    requires
        0 <= k <= lines.len(),
        scan(lines) is Ok,
    ensures
        scan(lines.take(k)) is Ok,
        state_before(lines, k).tokens.len() <= scan(lines)->Ok_0.tokens.len(),
        scan(lines)->Ok_0.tokens.take(state_before(lines, k).tokens.len() as int) == state_before(
            lines,
            k,
        ).tokens,
        state_before(lines, k).ended ==> scan(lines)->Ok_0 == state_before(lines, k),
    decreases lines.len(),
{
    let whole = scan(lines)->Ok_0;
    if k == lines.len() {
        assert(lines.take(k) =~= lines);
        assert(whole.tokens.take(whole.tokens.len() as int) =~= whole.tokens);
    } else {
        let front = lines.drop_last();
        assert(front.take(k) =~= lines.take(k));
        lemma_scan_prefix(front, k);
        let before = scan(front)->Ok_0;
        let part = state_before(lines, k);
        assert(scan(lines) == scan_line(before, lines.last()));
        assert(before.tokens.take(part.tokens.len() as int) == part.tokens);
        assert(whole.tokens.take(part.tokens.len() as int) =~= before.tokens.take(
            part.tokens.len() as int,
        ));
    }
}

/// What the first pass makes of a line that it reads: the tokens of the
/// line join the stream, where they stand from `line_start` on, and the
/// counter moves past the statement.
pub proof fn lemma_read_line(lines: Seq<Seq<char>>, i: int)
    requires
        scan(lines) is Ok,
        read_tokens(lines, i) is Some,
    ensures
        ({
            let line = read_tokens(lines, i)->Some_0;
            let index = statement_index(line);
            let before = state_before(lines, i);
            let after = state_before(lines, i + 1);
            let stream = scan(lines)->Ok_0.tokens;
            &&& index < line.len()
            &&& scan(lines.take(i + 1)) is Ok
            &&& after.tokens == before.tokens + line
            &&& after.counter == next_counter(line[index], token_at(line, index + 1), before.counter)
            &&& after.symbols == (match line[0] {
                TokenView::Label(name) => before.symbols.insert(name, before.counter),
                _ => before.symbols,
            })
            &&& after.ended == (line[index] == TokenView::Dir(Directive::End))
            &&& line_start(lines, i) + line.len() <= stream.len()
            &&& stream.subrange(line_start(lines, i), line_start(lines, i) + line.len()) == line
        }),
{
    let line = read_tokens(lines, i)->Some_0;
    let before = state_before(lines, i);
    let after = state_before(lines, i + 1);
    let stream = scan(lines)->Ok_0.tokens;
    lemma_scan_prefix(lines, i + 1);
    assert(lines.take(i + 1).drop_last() =~= lines.take(i));
    assert(lines.take(i + 1).last() == lines[i]);
    assert(scan(lines.take(i + 1)) == scan_line(before, lines[i]));
    let start = before.tokens.len() as int;
    let end = after.tokens.len() as int;
    assert(stream.take(end) == after.tokens);
    assert(stream.subrange(start, end) =~= line) by {
        assert forall|j: int| 0 <= j < line.len() implies stream.subrange(start, end)[j]
            == line[j] by {
            assert(stream.take(end)[start + j] == (before.tokens + line)[start + j]);
        }
    }
}

/// A line that the first pass does not read, or in which it finds no
/// tokens, changes nothing.
pub proof fn lemma_unread_line(lines: Seq<Seq<char>>, i: int)
    requires
        scan(lines) is Ok,
        0 <= i < lines.len(),
        read_tokens(lines, i) is None,
    ensures
        scan(lines.take(i)) is Ok,
        scan(lines.take(i + 1)) == scan(lines.take(i)),
{
    lemma_scan_prefix(lines, i);
    lemma_scan_prefix(lines, i + 1);
    assert(lines.take(i + 1).drop_last() =~= lines.take(i));
    assert(lines.take(i + 1).last() == lines[i]);
}

/// The address of a label is the location counter of the first pass at the
/// last line that starts with the label.
pub proof fn lemma_label_address(lines: Seq<Seq<char>>, i: int, name: Seq<char>, k: int)
    requires
        scan(lines) is Ok,
        defines(lines, i, name),
        forall|j: int| i < j < lines.len() ==> !defines(lines, j, name),
        i < k <= lines.len(),
    ensures
        scan(lines.take(k)) is Ok,
        state_before(lines, k).symbols.contains_key(name),
        state_before(lines, k).symbols[name] == state_before(lines, i).counter,
    decreases k,
{
    if k - 1 > i {
        lemma_label_address(lines, i, name, k - 1);
        assert(!defines(lines, k - 1, name));
    }
    if read_tokens(lines, k - 1) is Some {
        lemma_read_line(lines, k - 1);
    } else {
        lemma_unread_line(lines, k - 1);
    }
}

/// A statement other than `.ORIG` moves the location counter of the first
/// pass by its size, modulo 2^16.
pub proof fn lemma_statement_size(tokens: Seq<TokenView>, lc: u16)
    requires
        statement_index(tokens) < tokens.len(),
        tokens[statement_index(tokens)] != TokenView::Dir(Directive::Orig),
    ensures
        next_counter(
            tokens[statement_index(tokens)],
            token_at(tokens, statement_index(tokens) + 1),
            lc,
        ) == (lc + statement_size(tokens)) % 0x1_0000,
{
}

/// Adding modulo 2^16 step by step is adding the sum modulo 2^16.
proof fn lemma_sum_step(before: u16, after: u16, start: u16, sum: nat, size: nat)
    requires
        before == (start + sum) % 0x1_0000,
        after == (before + size) % 0x1_0000,
    ensures
        after == (start + (sum + size)) % 0x1_0000,
{
    assert(((start + sum) % 0x1_0000 + size) % 0x1_0000 == (start + (sum + size)) % 0x1_0000)
        by (nonlinear_arith);
}

/// The location counter of the first pass is the origin plus the sizes of
/// the statements since `.ORIG`, modulo 2^16.
pub proof fn lemma_counter_is_sum(lines: Seq<Seq<char>>, first: int, start: u16, k: int)
    requires
        scan(lines) is Ok,
        0 <= first < k <= lines.len(),
        starts_at(lines, first, start),
        forall|j: int| first < j < k ==> !#[trigger] sets_origin(lines, j),
    ensures
        scan(lines.take(k)) is Ok,
        state_before(lines, k).counter == (start + size_of_lines(lines, first + 1, k))
            % 0x1_0000,
    decreases k,
{
    if k == first + 1 {
        lemma_read_line(lines, first);
    } else {
        lemma_counter_is_sum(lines, first, start, k - 1);
        let before = state_before(lines, k - 1).counter;
        let after = state_before(lines, k).counter;
        let sum = size_of_lines(lines, first + 1, k - 1);
        let size: nat = match read_tokens(lines, k - 1) {
            Some(tokens) => statement_size(tokens),
            None => 0,
        };
        assert(size_of_lines(lines, first + 1, k) == sum + size);
        assert(scan(lines.take(k)) is Ok && after == (before + size) % 0x1_0000) by {
            if read_tokens(lines, k - 1) is Some {
                let line = read_tokens(lines, k - 1)->Some_0;
                assert(!sets_origin(lines, k - 1));
                lemma_read_line(lines, k - 1);
                lemma_statement_size(line, before);
            } else {
                lemma_unread_line(lines, k - 1);
            }
        }
        lemma_sum_step(before, after, start, sum, size);
    }
}

/// The address of a label is the origin plus the sizes of the statements
/// between `.ORIG` and the line of the label, modulo 2^16. Of a label that
/// is defined more than once this holds at its last definition.
pub proof fn lemma_label_address_is_sum(
    lines: Seq<Seq<char>>,
    first: int,
    start: u16,
    i: int,
    name: Seq<char>,
)
    requires
        scan(lines) is Ok,
        0 <= first < i < lines.len(),
        starts_at(lines, first, start),
        forall|j: int| first < j < i ==> !#[trigger] sets_origin(lines, j),
        defines(lines, i, name),
        forall|j: int| i < j < lines.len() ==> !defines(lines, j, name),
    ensures
        scan(lines)->Ok_0.symbols.contains_key(name),
        scan(lines)->Ok_0.symbols[name] == (start + size_of_lines(lines, first + 1, i))
            % 0x1_0000,
{
    lemma_counter_is_sum(lines, first, start, i);
    lemma_label_address(lines, i, name, lines.len() as int);
    assert(lines.take(lines.len() as int) =~= lines);
}

/// A walk that gets to `mid` goes on from there as a walk that starts at
/// `mid`.
pub proof fn lemma_counter_through(
    tokens: Seq<TokenView>,
    symbols: Map<Seq<char>, u16>,
    at: int,
    lc: u16,
    mid: int,
    goal: int,
)
    requires
        counter_from(tokens, symbols, at, lc, mid) is Some,
        mid <= goal,
    ensures
        at <= mid,
        counter_from(tokens, symbols, at, lc, goal) == counter_from(
            tokens,
            symbols,
            mid,
            counter_from(tokens, symbols, at, lc, mid)->Some_0,
            goal,
        ),
    decreases mid - at,
{
    if at != mid {
        match step(tokens, symbols, at, lc) {
            Step::Skip => {
                lemma_counter_through(tokens, symbols, at + 1, lc, mid, goal);
            },
            Step::Emit { words, taken, counter } => {
                lemma_counter_through(tokens, symbols, at + 1 + taken, counter, mid, goal);
            },
            _ => {},
        }
    }
}

/// The walk over a line that holds one whole statement other than `.END`:
/// where the walk from the start of the line ends well, it gets to the end
/// of the line with the counter that the first pass has after the line.
pub proof fn lemma_line_walk(
    tokens: Seq<TokenView>,
    symbols: Map<Seq<char>, u16>,
    start: int,
    lc: u16,
    line: Seq<TokenView>,
)
    requires
        0 <= start,
        start + line.len() <= tokens.len(),
        tokens.subrange(start, start + line.len()) == line,
        one_statement(line),
        line[statement_index(line)] != TokenView::Dir(Directive::End),
        generate_from(tokens, symbols, start, lc) is Ok,
    ensures
        counter_from(tokens, symbols, start, lc, start + line.len()) == Some(
            next_counter(
                line[statement_index(line)],
                token_at(line, statement_index(line) + 1),
                lc,
            ),
        ),
{
    let index = statement_index(line);
    let end = start + line.len();
    assert forall|j: int| 0 <= j < line.len() implies tokens[start + j] == line[j] by {
        assert(tokens.subrange(start, end)[j] == tokens[start + j]);
    }
    assert(tokens[start] == line[0]);
    assert(tokens[start + index] == line[index]);
    let at = start + index;
    if index == 1 {
        assert(step(tokens, symbols, start, lc) == Step::Skip);
        assert(generate_from(tokens, symbols, start, lc) == generate_from(
            tokens,
            symbols,
            at,
            lc,
        ));
        assert(counter_from(tokens, symbols, start, lc, end) == counter_from(
            tokens,
            symbols,
            at,
            lc,
            end,
        ));
    }
    let head = line[index];
    assert(at < end);
    match step(tokens, symbols, at, lc) {
        Step::Emit { words, taken, counter } => {
            assert(taken == operand_count(head));
            assert(at + 1 + taken == end);
            if index + 1 < line.len() {
                assert(tokens[start + (index + 1)] == line[index + 1]);
                assert(token_at(tokens, at + 1) == token_at(line, index + 1));
            } else {
                assert(operand_count(head) == 0);
            }
            assert(counter_from(tokens, symbols, end, counter, end) == Some(counter));
        },
        _ => {
            assert(false);
        },
    }
}

/// Where both passes succeed on a program whose lines each hold one whole
/// statement, the second pass gets to the start of every line that the
/// first pass reads, and has there the counter that the first pass has.
pub proof fn lemma_second_pass_arrives(lines: Seq<Seq<char>>, k: int)
    requires
        scan(lines) is Ok,
        orderly(lines),
        generate(scan(lines)->Ok_0.tokens, scan(lines)->Ok_0.symbols) is Ok,
        0 <= k <= lines.len(),
        scan(lines.take(k)) is Ok,
        0 < state_before(lines, k).tokens.len(),
        !state_before(lines, k).ended,
    ensures
        counter_at(scan(lines)->Ok_0.tokens, scan(lines)->Ok_0.symbols, line_start(lines, k))
            == Some(state_before(lines, k).counter),
    decreases k,
{
    let tokens = scan(lines)->Ok_0.tokens;
    let symbols = scan(lines)->Ok_0.symbols;
    if k == 0 {
        assert(lines.take(0) =~= Seq::<Seq<char>>::empty());
    } else if read_tokens(lines, k - 1) is Some {
        let line = read_tokens(lines, k - 1)->Some_0;
        lemma_read_line(lines, k - 1);
        assert(one_statement(line));
        let before = state_before(lines, k - 1);
        let start = line_start(lines, k - 1);
        let first = origin(tokens)->Ok_0;
        if start == 0 {
            // the line is `.ORIG` with the origin
            assert(tokens[0] == line[0]);
            assert(tokens.subrange(start, start + line.len())[1] == tokens[1]);
        } else {
            lemma_second_pass_arrives(lines, k - 1);
            lemma_words_through(tokens, symbols, 2, first, start);
            lemma_line_walk(tokens, symbols, start, before.counter, line);
            lemma_counter_through(tokens, symbols, 2, first, start, start + line.len());
        }
    } else {
        lemma_unread_line(lines, k - 1);
        lemma_second_pass_arrives(lines, k - 1);
    }
}

/// In a program on which both passes succeed and whose lines each hold one
/// whole statement, the address of a label is the value that the location
/// counter of the second pass has at the statement after the label. Of a
/// label that is defined more than once this holds at its last definition.
pub proof fn lemma_label_address_in_valid_program(
    lines: Seq<Seq<char>>,
    i: int,
    name: Seq<char>,
)
    requires
        scan(lines) is Ok,
        generate(scan(lines)->Ok_0.tokens, scan(lines)->Ok_0.symbols) is Ok,
        orderly(lines),
        defines(lines, i, name),
        forall|j: int| i < j < lines.len() ==> !defines(lines, j, name),
    ensures
        scan(lines)->Ok_0.symbols.contains_key(name),
        counter_at(
            scan(lines)->Ok_0.tokens,
            scan(lines)->Ok_0.symbols,
            line_start(lines, i) + 1,
        ) == Some(scan(lines)->Ok_0.symbols[name]),
{
    let tokens = scan(lines)->Ok_0.tokens;
    let symbols = scan(lines)->Ok_0.symbols;
    let before = state_before(lines, i);
    let start = line_start(lines, i);
    let line = read_tokens(lines, i)->Some_0;
    let first = origin(tokens)->Ok_0;
    lemma_read_line(lines, i);
    assert(tokens[start] == line[0]) by {
        assert(tokens.subrange(start, start + line.len())[0] == tokens[start]);
    }
    // a program starts with `.ORIG`, so the line of the label is not its first
    assert(start > 0) by {
        if start == 0 {
            assert(tokens[0] == TokenView::Dir(Directive::Orig));
        }
    }
    lemma_second_pass_arrives(lines, i);
    lemma_counter_through(tokens, symbols, 2, first, start, start + 1);
    assert(step(tokens, symbols, start, before.counter) == Step::Skip);
    assert(counter_from(tokens, symbols, start, before.counter, start + 1) == counter_from(
        tokens,
        symbols,
        start + 1,
        before.counter,
        start + 1,
    ));
    lemma_label_address(lines, i, name, lines.len() as int);
    assert(lines.take(lines.len() as int) =~= lines);
}

/// A statement moves the location counter by the number of words it has,
/// modulo 2^16.
pub proof fn lemma_step_counts_words(
    tokens: Seq<TokenView>,
    symbols: Map<Seq<char>, u16>,
    at: int,
    lc: u16,
)
    requires
        0 <= at < tokens.len(),
        step(tokens, symbols, at, lc) is Emit,
    ensures
        step(tokens, symbols, at, lc)->counter == (lc + step(
            tokens,
            symbols,
            at,
            lc,
        )->words.len()) % 0x1_0000,
{
}

/// The walk gets to a position with a counter exactly where it gets there
/// with words, and the counter has moved by the number of the words, modulo
/// 2^16.
#[verifier::rlimit(40)]
pub proof fn lemma_counter_counts_words(
    tokens: Seq<TokenView>,
    symbols: Map<Seq<char>, u16>,
    at: int,
    lc: u16,
    goal: int,
)
    ensures
        counter_from(tokens, symbols, at, lc, goal) is Some <==> words_from(
            tokens,
            symbols,
            at,
            lc,
            goal,
        ) is Some,
        counter_from(tokens, symbols, at, lc, goal) matches Some(counter) ==> counter == (lc
            + words_from(tokens, symbols, at, lc, goal)->Some_0.len()) % 0x1_0000,
    decreases goal - at,
{
    if at != goal && !(at > goal || at < 0 || at >= tokens.len()) {
        match step(tokens, symbols, at, lc) {
            Step::Skip => {
                lemma_counter_counts_words(tokens, symbols, at + 1, lc, goal);
            },
            Step::Emit { words, taken, counter } => {
                if at + 1 + taken <= goal {
                    lemma_step_counts_words(tokens, symbols, at, lc);
                    lemma_counter_counts_words(tokens, symbols, at + 1 + taken, counter, goal);
                }
            },
            _ => {},
        }
    }
}

/// Where the walk from `at` ends well and gets to `goal`, its words are the
/// words it writes on the way to `goal` and then the words of the walk from
/// `goal`.
pub proof fn lemma_words_through(
    tokens: Seq<TokenView>,
    symbols: Map<Seq<char>, u16>,
    at: int,
    lc: u16,
    goal: int,
)
    requires
        generate_from(tokens, symbols, at, lc) is Ok,
        counter_from(tokens, symbols, at, lc, goal) is Some,
    ensures
        words_from(tokens, symbols, at, lc, goal) is Some,
        generate_from(
            tokens,
            symbols,
            goal,
            counter_from(tokens, symbols, at, lc, goal)->Some_0,
        ) is Ok,
        generate_from(tokens, symbols, at, lc)->Ok_0 == words_from(
            tokens,
            symbols,
            at,
            lc,
            goal,
        )->Some_0 + generate_from(
            tokens,
            symbols,
            goal,
            counter_from(tokens, symbols, at, lc, goal)->Some_0,
        )->Ok_0,
    decreases goal - at,
{
    let all = generate_from(tokens, symbols, at, lc)->Ok_0;
    if at == goal {
        assert(Seq::<u16>::empty() + all =~= all);
    } else {
        match step(tokens, symbols, at, lc) {
            Step::Skip => {
                lemma_words_through(tokens, symbols, at + 1, lc, goal);
            },
            Step::Emit { words, taken, counter } => {
                lemma_words_through(tokens, symbols, at + 1 + taken, counter, goal);
                let mid = words_from(tokens, symbols, at + 1 + taken, counter, goal)->Some_0;
                let rest = generate_from(
                    tokens,
                    symbols,
                    goal,
                    counter_from(tokens, symbols, at, lc, goal)->Some_0,
                )->Ok_0;
                assert(words + (mid + rest) =~= (words + mid) + rest);
            },
            _ => {},
        }
    }
}

/// In a program on which both passes succeed and whose lines each hold one
/// whole statement, a label points at the statement after it: its address is
/// the origin plus the number of words that stand before the statement in
/// the program image, modulo 2^16, and the image goes on from there with the
/// words of that statement and what follows it.
pub proof fn lemma_label_points_at_statement(lines: Seq<Seq<char>>, i: int, name: Seq<char>)
    requires
        scan(lines) is Ok,
        generate(scan(lines)->Ok_0.tokens, scan(lines)->Ok_0.symbols) is Ok,
        orderly(lines),
        defines(lines, i, name),
        forall|j: int| i < j < lines.len() ==> !defines(lines, j, name),
    ensures
        ({
            let state = scan(lines)->Ok_0;
            let image = generate(state.tokens, state.symbols)->Ok_0;
            let place = line_start(lines, i) + 1;
            &&& state.symbols.contains_key(name)
            &&& words_before(state.tokens, state.symbols, place) matches Some(before)
            &&& state.symbols[name] == (image[0] + before.len()) % 0x1_0000
            &&& generate_from(state.tokens, state.symbols, place, state.symbols[name]) matches Ok(
                rest,
            )
            &&& image == seq![image[0]] + before + rest
        }),
{
    let state = scan(lines)->Ok_0;
    let tokens = state.tokens;
    let symbols = state.symbols;
    let place = line_start(lines, i) + 1;
    let first = origin(tokens)->Ok_0;
    lemma_label_address_in_valid_program(lines, i, name);
    lemma_counter_counts_words(tokens, symbols, 2, first, place);
    lemma_words_through(tokens, symbols, 2, first, place);
    let before = words_from(tokens, symbols, 2, first, place)->Some_0;
    let rest = generate_from(tokens, symbols, place, symbols[name])->Ok_0;
    assert(seq![first] + (before + rest) =~= seq![first] + before + rest);
}

} // verus!
