//! The two artifacts of a run as plain values: the bytes of the object file
//! and the text of the symbol file.

use byteorder::ByteOrder;
use vstd::prelude::*;
use vstd::string::*;
use crate::symbols::{entry_views, is_listing, SymbolTable};

verus! {

/// The bytes of `words`, each word with its high byte first.
pub open spec fn big_endian(words: Seq<u16>) -> Seq<u8>
    decreases words.len(),
{
    if words.len() == 0 {
        Seq::empty()
    } else {
        big_endian(words.drop_last()) + seq![
            (words.last() / 256) as u8,
            (words.last() % 256) as u8,
        ]
    }
}

/// `byteorder::ByteOrder::write_u16` of `byteorder::BigEndian` on a buffer of
/// two bytes: the high byte of the word, then its low byte.
#[verifier::external_body]
fn big_endian_pair(word: u16) -> (pair: [u8; 2])
    ensures
        pair@ == seq![(word / 256) as u8, (word % 256) as u8],
{
    let mut pair = [0u8; 2];
    byteorder::BigEndian::write_u16(&mut pair, word);
    pair
}

/// The bytes of the object file that holds `words`.
pub fn object_bytes(words: &[u16]) -> (bytes: Vec<u8>)
    ensures
        bytes@ == big_endian(words@),
{
    let mut bytes: Vec<u8> = Vec::new();
    let mut i: usize = 0;
    while i < words.len()
        invariant
            i <= words.len(),
            bytes@ == big_endian(words@.take(i as int)),
        decreases words.len() - i,
    {
        assert(words@.take(i + 1).drop_last() =~= words@.take(i as int));
        let pair = big_endian_pair(words[i]);
        let ghost before = bytes@;
        bytes.push(pair[0]);
        bytes.push(pair[1]);
        assert(bytes@ =~= before + pair@);
        i += 1;
    }
    assert(words@.take(i as int) =~= words@);
    bytes
}

/// The character of the hexadecimal digit `digit`, in lower case.
pub open spec fn hex_digit(digit: int) -> char {
    if digit < 10 {
        (48 + digit) as char
    } else {
        (87 + digit) as char
    }
}

/// `number` in hexadecimal notation, in lower case and without zeros in
/// front.
pub open spec fn hex(number: nat) -> Seq<char>
    decreases number,
{
    if number < 16 {
        seq![hex_digit(number as int)]
    } else {
        hex(number / 16).push(hex_digit((number % 16) as int))
    }
}

/// The character of the hexadecimal digit `digit`.
fn digit_char(digit: u16) -> (c: char)
    requires
        digit < 16,
    ensures
        c == hex_digit(digit as int),
{
    if digit < 10 {
        (48u8 + digit as u8) as char
    } else {
        (87u8 + digit as u8) as char
    }
}

/// `number` in hexadecimal notation.
pub fn hex_of(number: u16) -> (text: String)
    ensures
        text@ == hex(number as nat),
{
    reveal_with_fuel(hex, 5);
    let mut text = String::new();
    if number >= 0x1000 {
        text.push(digit_char(number / 0x1000));
    }
    if number >= 0x100 {
        text.push(digit_char((number / 0x100) % 16));
    }
    if number >= 0x10 {
        text.push(digit_char((number / 0x10) % 16));
    }
    text.push(digit_char(number % 16));
    assert(text@ =~= hex(number as nat));
    text
}

/// The line of a label in the symbol file: the name, a space, the address
/// in hexadecimal notation, and a line feed.
pub open spec fn listing_line(entry: (Seq<char>, u16)) -> Seq<char> {
    entry.0 + seq![' '] + hex(entry.1 as nat) + seq!['\n']
}

/// The text of the symbol file with the entries `entries`: one line for
/// each, in order.
pub open spec fn listing(entries: Seq<(Seq<char>, u16)>) -> Seq<char>
    decreases entries.len(),
{
    if entries.len() == 0 {
        Seq::empty()
    } else {
        listing(entries.drop_last()) + listing_line(entries.last())
    }
}

/// The text of the symbol file with the entries `entries`.
pub fn listing_text(entries: &[(String, u16)]) -> (text: String)
    ensures
        text@ == listing(entry_views(entries@)),
{
    let mut text = String::new();
    let mut i: usize = 0;
    while i < entries.len()
        invariant
            i <= entries.len(),
            text@ == listing(entry_views(entries@).take(i as int)),
        decreases entries.len() - i,
    {
        let ghost front = entry_views(entries@).take(i + 1);
        assert(front.drop_last() =~= entry_views(entries@).take(i as int));
        assert(front.last() == (entries@[i as int].0@, entries@[i as int].1));
        let ghost before = text@;
        let entry = &entries[i];
        text.append(entry.0.as_str());
        text.push(' ');
        let digits = hex_of(entry.1);
        text.append(digits.as_str());
        text.push('\n');
        assert(text@ =~= before + listing_line(front.last()));
        i += 1;
    }
    assert(entry_views(entries@).take(i as int) =~= entry_views(entries@));
    text
}

/// The text of the symbol file of `table`: every label once with its
/// address, by ascending address, one to a line.
pub fn symbol_listing(table: &SymbolTable) -> (text: String)
    ensures
        exists|entries: Seq<(Seq<char>, u16)>|
            is_listing(entries, table@, table.order()) && text@ == listing(entries),
{
    let entries = table.sorted();
    listing_text(entries.as_slice())
}

} // verus!
