use lc3asm::encoder::{encode_blkw, encode_br, encode_res, encode_stringz};
use lc3asm::enums::{OpCode, Token};
use lc3asm::error::{Error, ErrorKind};
use lc3asm::number::IntFault;
use lc3asm::output::{hex_of, listing_text, object_bytes};

#[test]
fn object_bytes_are_big_endian() {
    assert_eq!(object_bytes(&[0x1234]), vec![0x12, 0x34]);
    assert_eq!(
        object_bytes(&[0x3000, 0x00ff, 0xff00]),
        vec![0x30, 0x00, 0x00, 0xff, 0xff, 0x00]
    );
    assert_eq!(object_bytes(&[]), Vec::<u8>::new());
}

#[test]
fn hex_has_no_padding() {
    assert_eq!(hex_of(0), "0");
    assert_eq!(hex_of(9), "9");
    assert_eq!(hex_of(10), "a");
    assert_eq!(hex_of(0x10), "10");
    assert_eq!(hex_of(0xabc), "abc");
    assert_eq!(hex_of(0x3005), "3005");
    assert_eq!(hex_of(0xffff), "ffff");
    for value in 0..=u16::MAX {
        assert_eq!(hex_of(value), format!("{:x}", value));
    }
}

#[test]
fn listing_has_one_line_per_label() {
    let entries = vec![(String::from("A"), 0x3000), (String::from("LOOP"), 0x30ff)];
    assert_eq!(listing_text(&entries), "A 3000\nLOOP 30ff\n");
    assert_eq!(listing_text(&[]), "");
}

#[test]
fn error_text() {
    let e = Error::new(ErrorKind::SyntaxError);
    assert_eq!(e.describe(), "[SyntaxError] invalid syntax");
    assert_eq!(e.message, ErrorKind::SyntaxError.as_str());
    assert_eq!(ErrorKind::ValueError.as_str(), "invalid value");
    assert_eq!(ErrorKind::IOError.as_str(), "io error");
    assert_eq!(ErrorKind::UnexpectedEof.name(), "UnexpectedEof");
    let e = Error::from_fault(IntFault::Empty);
    assert_eq!(e.kind, ErrorKind::ParseConstantError);
    assert_eq!(
        e.describe(),
        "[ParseConstantError] cannot parse integer from empty string"
    );
    for kind in [
        ErrorKind::IOError,
        ErrorKind::ParseConstantError,
        ErrorKind::ParseOpCodeError,
        ErrorKind::ParseRegisterError,
        ErrorKind::ParseDirectiveError,
        ErrorKind::InvalidTokenError,
        ErrorKind::MissingLabelError,
        ErrorKind::UnexpectedEof,
        ErrorKind::SyntaxError,
        ErrorKind::ValueError,
    ] {
        assert_eq!(kind.name(), format!("{:?}", kind));
        assert_eq!(
            Error::new(kind).describe(),
            format!("[{:?}] {}", kind, kind.as_str())
        );
    }
}

#[test]
fn strings_are_encoded_byte_by_byte() {
    assert_eq!(encode_stringz(String::new()), vec![0]);
    assert_eq!(
        encode_stringz(String::from("\u{e9}\t")),
        vec![0xc3, 0xa9, 9, 0]
    );
    assert_eq!(encode_blkw(0), Vec::<u16>::new());
    assert_eq!(encode_res(), vec![0xd000]);
}

#[test]
fn branch_word_carries_condition() {
    assert_eq!(encode_br(&Token::Op(OpCode::Brnzp), 5), vec![0x0e05]);
    assert_eq!(encode_br(&Token::Op(OpCode::Brn), 0x1ff), vec![0x09ff]);
    assert_eq!(encode_br(&Token::Op(OpCode::Br), 3), vec![3]);
    assert_eq!(encode_br(&Token::Const(1), 3), vec![3]);
}
