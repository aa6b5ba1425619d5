use lc3asm::enums::{Cursor, Directive, MustNext, OpCode, Parseable, Register, Token};
use lc3asm::error::{Error, ErrorKind};
use lc3asm::number::{parse_radix, to_digit, IntFault};
use lc3asm::text::{chars_of, decode, fold, is_whitespace, pieces, remove, same, text_of, trimmed};
use lc3asm::utils::{constant_of, parse_constant, tokenize, tokenize_chars, verify_offset};

fn chars(s: &str) -> Vec<char> {
    s.chars().collect()
}

#[test]
fn constants_by_prefix() {
    assert_eq!(parse_constant("x1A"), Ok(26));
    assert_eq!(parse_constant("b101"), Ok(5));
    assert_eq!(parse_constant("#42"), Ok(42));
    assert_eq!(parse_constant("42"), Ok(42));
    assert_eq!(
        parse_constant("#bad").map_err(|e| e.kind),
        Err(ErrorKind::ParseConstantError)
    );
    assert_eq!(constant_of(&chars("xFFFF")), Ok(0xffff));
    assert_eq!(parse_constant("x0000000000000001"), Ok(1));
}

#[test]
fn constants_are_signed_and_truncated() {
    assert_eq!(parse_constant("#-1"), Ok(0xffff));
    assert_eq!(parse_constant("#+7"), Ok(7));
    assert_eq!(parse_constant("x-10"), Ok(0xfff0));
    assert_eq!(parse_constant("#65536"), Ok(0));
    assert_eq!(parse_constant("#65537"), Ok(1));
    assert_eq!(parse_constant("x12345"), Ok(0x2345));
    assert_eq!(parse_constant("#2147483647"), Ok(0xffff));
    assert_eq!(parse_constant("#-2147483648"), Ok(0));
    assert_eq!(parse_constant("#-32768"), Ok(0x8000));
}

#[test]
fn constant_failures_say_why() {
    let message = |s: &str| parse_constant(s).map_err(|e| e.message);
    assert_eq!(
        message("#"),
        Err(String::from("cannot parse integer from empty string"))
    );
    assert_eq!(
        message(""),
        Err(String::from("cannot parse integer from empty string"))
    );
    assert_eq!(
        message("#-"),
        Err(String::from("invalid digit found in string"))
    );
    assert_eq!(
        message("b102"),
        Err(String::from("invalid digit found in string"))
    );
    assert_eq!(
        message("xG"),
        Err(String::from("invalid digit found in string"))
    );
    assert_eq!(
        message("#2147483648"),
        Err(String::from("number too large to fit in target type"))
    );
    assert_eq!(
        message("#-2147483649"),
        Err(String::from("number too small to fit in target type"))
    );
    assert_eq!(
        message("#99999999999x"),
        Err(String::from("number too large to fit in target type"))
    );
    assert_eq!(
        message("#+-1"),
        Err(String::from("invalid digit found in string"))
    );
}

#[test]
fn radix_parsing_agrees_with_std() {
    let samples = [
        "", "+", "-", "0", "-0", "+0", "7f", "7F", "-80000000", "80000000", "7fffffff", "z",
        "10", "101", "12a", "٣", "1_0", " 1", "1 ", "+-1", "99999999999", "-99999999999",
        "2147483647", "2147483648", "-2147483648", "-2147483649", "00000000000000000012",
    ];
    for radix in [2u32, 10, 16, 36] {
        for s in samples {
            let ours = parse_radix(&chars(s), radix).map_err(|f| f.as_str().to_string());
            let theirs = i32::from_str_radix(s, radix).map_err(|e| e.to_string());
            assert_eq!(ours, theirs, "{s:?} in radix {radix}");
        }
    }
    assert_eq!(parse_radix(&chars("-"), 10), Err(IntFault::InvalidDigit));
    assert_eq!(to_digit('f', 16), Some(15));
    assert_eq!(to_digit('F', 16), Some(15));
    assert_eq!(to_digit('g', 16), None);
    assert_eq!(to_digit('9', 2), None);
    assert_eq!(to_digit('z', 36), Some(35));
}

#[test]
fn offsets_in_range() {
    // every number that fits the field passes and reads back as itself
    for bits in 1u16..16 {
        let half = 1i32 << (bits - 1);
        for value in -half..half {
            let field = verify_offset(value as u16, bits).unwrap();
            assert!(field < (1 << bits));
            let read = if (field as i32) < half {
                field as i32
            } else {
                field as i32 - (1 << bits)
            };
            assert_eq!(read, value);
        }
    }
    assert_eq!(verify_offset(5, 9), Ok(5));
    assert_eq!(verify_offset(0xffff, 5), Ok(0x1f));
    assert_eq!(verify_offset(0xfff0, 5), Ok(0x10));
}

#[test]
fn offsets_out_of_range() {
    // the check passes exactly the numbers from -2^bits up to 2^bits
    for bits in 1u16..16 {
        let limit = 1i32 << bits;
        for value in -32768i32..32768 {
            let passes = verify_offset(value as u16, bits).is_ok();
            assert_eq!(passes, -limit <= value && value < limit, "{value} in {bits}");
        }
    }
    assert_eq!(
        verify_offset(32, 5).map_err(|e| e.kind),
        Err(ErrorKind::ValueError)
    );
    assert_eq!(
        verify_offset(0xffdf, 5).map_err(|e| e.kind),
        Err(ErrorKind::ValueError)
    );
    assert_eq!(verify_offset(20, 5), Ok(20));
}

#[test]
fn tokenize_labelled_instruction() {
    assert_eq!(
        tokenize("LOOP ADD R0,R1,#3 ; inc"),
        Ok(Some(vec![
            Token::Label(String::from("LOOP")),
            Token::Op(OpCode::Add),
            Token::Reg(Register::R0),
            Token::Reg(Register::R1),
            Token::Const(3),
        ]))
    );
    assert_eq!(tokenize("; just a comment"), Ok(None));
    assert_eq!(tokenize(""), Ok(None));
    assert_eq!(tokenize("   \t  "), Ok(None));
    assert_eq!(tokenize("  ;x"), Ok(None));
}

#[test]
fn tokenize_shapes() {
    assert_eq!(
        tokenize("  add r0 , R1,  r2  "),
        Ok(Some(vec![
            Token::Op(OpCode::Add),
            Token::Reg(Register::R0),
            Token::Reg(Register::R1),
            Token::Reg(Register::R2),
        ]))
    );
    assert_eq!(
        tokenize(".orig x3000"),
        Ok(Some(vec![
            Token::Dir(Directive::Orig),
            Token::Const(0x3000)
        ]))
    );
    assert_eq!(
        tokenize("halt"),
        Ok(Some(vec![Token::Op(OpCode::Halt)]))
    );
    assert_eq!(
        tokenize("A B C RET"),
        Ok(Some(vec![
            Token::Label(String::from("A")),
            Token::Label(String::from("B")),
            Token::Label(String::from("C")),
            Token::Op(OpCode::Ret),
        ]))
    );
    // operands between commas, the last one empty
    assert_eq!(
        tokenize("NOT R1,"),
        Ok(Some(vec![
            Token::Op(OpCode::Not),
            Token::Reg(Register::R1),
            Token::Label(String::new()),
        ]))
    );
    // what follows a register is ignored
    assert_eq!(
        tokenize("R1 and more"),
        Ok(Some(vec![Token::Reg(Register::R1)]))
    );
    // the operand of a directive is one token
    assert_eq!(
        tokenize(".FILL a, b"),
        Ok(Some(vec![
            Token::Dir(Directive::Fill),
            Token::Label(String::from("a, b")),
        ]))
    );
    assert_eq!(
        tokenize_chars(&chars("\u{a0}RTI\u{2003}")),
        Ok(Some(vec![Token::Op(OpCode::Rti)]))
    );
    assert_eq!(
        tokenize("LD R1,bad").map_err(|e| e.kind),
        Err(ErrorKind::ParseConstantError)
    );
    assert_eq!(
        tokenize("begin ADD R0,R0,R0").map_err(|e| e.kind),
        Err(ErrorKind::ParseConstantError)
    );
}

#[test]
fn token_classes() {
    assert_eq!(Token::parse(" brnzp "), Ok(Token::Op(OpCode::Brnzp)));
    assert_eq!(Token::parse("br"), Ok(Token::Op(OpCode::Br)));
    assert_eq!(Token::parse("r7"), Ok(Token::Reg(Register::R7)));
    assert_eq!(Token::parse(".StringZ"), Ok(Token::Dir(Directive::Stringz)));
    assert_eq!(Token::parse("b11"), Ok(Token::Const(3)));
    assert_eq!(Token::parse("#-16"), Ok(Token::Const(0xfff0)));
    assert_eq!(Token::parse("Begin"), Ok(Token::Label(String::from("Begin"))));
    assert_eq!(Token::parse("R8"), Ok(Token::Label(String::from("R8"))));
    assert_eq!(Token::parse(""), Ok(Token::Label(String::new())));
    assert_eq!(
        Token::parse("\"a\\tb\\nc\\ed\\x\""),
        Ok(Token::Str(String::from("a\tb\nc\u{1b}d\\x")))
    );
    assert_eq!(Token::parse("\""), Ok(Token::Str(String::new())));
    assert_eq!(
        Token::parse("\"say \"hi\"\""),
        Ok(Token::Str(String::from("say hi")))
    );
    assert_eq!(
        Token::parse("\"open"),
        Ok(Token::Label(String::from("\"open")))
    );
    assert_eq!(
        Token::parse("x").map_err(|e| e.kind),
        Err(ErrorKind::ParseConstantError)
    );
}

#[test]
fn vocabulary_beyond_ascii() {
    // the long s has the upper-case form S
    assert_eq!(Token::parse("\u{17f}t"), Ok(Token::Op(OpCode::St)));
    assert_eq!(Token::parse("\u{131}n"), Ok(Token::Op(OpCode::In)));
    assert_eq!(
        Token::parse("\u{e9}t"),
        Ok(Token::Label(String::from("\u{e9}t")))
    );
    assert_eq!(fold(&chars("puts")), chars("PUTS"));
    assert_eq!(fold(&chars(".end{`")), chars(".END{`"));
    assert_eq!(fold(&chars("stra\u{df}e")), chars("STRASSE"));
}

#[test]
fn classify_takes_the_folded_form() {
    let word = chars("anything");
    assert_eq!(
        Token::classify(&word, &chars("JSRR")),
        Ok(Token::Op(OpCode::Jsrr))
    );
    assert_eq!(
        Token::classify(&word, &chars("jsrr")),
        Ok(Token::Label(String::from("anything")))
    );
    assert_eq!(
        Token::classify(&chars("x10"), &chars("X10")),
        Ok(Token::Const(16))
    );
    assert_eq!(Token::lex(&chars(" x10 ")), Ok(Token::Const(16)));
}

#[test]
fn vocabulary_is_exact() {
    assert_eq!(OpCode::parse("BR"), Ok(OpCode::Br));
    assert_eq!(OpCode::parse("PUTSP"), Ok(OpCode::PutsP));
    assert_eq!(
        OpCode::parse("br").map_err(|e| e.kind),
        Err(ErrorKind::ParseOpCodeError)
    );
    assert_eq!(
        OpCode::parse("MUL").map_err(|e| e.kind),
        Err(ErrorKind::ParseOpCodeError)
    );
    assert_eq!(Register::parse("R3"), Ok(Register::R3));
    assert_eq!(
        Register::parse("R8").map_err(|e| e.kind),
        Err(ErrorKind::ParseRegisterError)
    );
    assert_eq!(Directive::parse(".BLKW"), Ok(Directive::Blkw));
    assert_eq!(
        Directive::parse("BLKW").map_err(|e| e.kind),
        Err(ErrorKind::ParseDirectiveError)
    );
    let names = [
        "BR", "BRN", "BRZ", "BRP", "BRZP", "BRNP", "BRNZ", "BRNZP", "ADD", "LD", "ST", "JSR",
        "JSRR", "AND", "LDR", "STR", "RTI", "NOT", "LDI", "STI", "RET", "JMP", "RES", "LEA",
        "TRAP", "GETC", "OUT", "PUTS", "IN", "PUTSP", "HALT",
    ];
    let mut numbers: Vec<u16> = names
        .iter()
        .map(|name| OpCode::parse(name).unwrap().to_u16().unwrap())
        .collect();
    numbers.sort();
    let expected: Vec<u16> = (0..25).chain(0x20..0x26).collect();
    assert_eq!(numbers, expected);
    assert_eq!(OpCode::Brn.to_u16(), Some(4));
    assert_eq!(OpCode::Halt.to_u16(), Some(0x25));
    assert_eq!(Register::R5.to_u16(), Some(5));
}

#[test]
fn take_functions() {
    let label = Token::Label(String::from("L"));
    let text = Token::Str(String::from("s"));
    let reg = Token::Reg(Register::R2);
    let value = Token::Const(9);
    assert_eq!(value.take_const(), Ok(9));
    assert_eq!(text.take_str(), Ok(String::from("s")));
    assert_eq!(reg.take_reg(), Ok(Register::R2));
    assert_eq!(label.take_label(), Ok(String::from("L")));
    assert_eq!(label.take_const(), Err(Error::new(ErrorKind::SyntaxError)));
    assert_eq!(value.take_str(), Err(Error::new(ErrorKind::SyntaxError)));
    assert_eq!(text.take_reg(), Err(Error::new(ErrorKind::SyntaxError)));
    assert_eq!(reg.take_label(), Err(Error::new(ErrorKind::SyntaxError)));
    assert_eq!(
        Token::Invalid.take_reg().map_err(|e| e.kind),
        Err(ErrorKind::SyntaxError)
    );
}

#[test]
fn cursor_hands_out_in_order() {
    let items = [10u16, 20];
    let mut cursor = Cursor::new(&items);
    assert_eq!(cursor.must_next(), Ok(&10));
    assert_eq!(cursor.next(), Some(&20));
    assert_eq!(cursor.next(), None);
    assert_eq!(
        cursor.must_next().map_err(|e| e.kind),
        Err(ErrorKind::UnexpectedEof)
    );
    assert_eq!(cursor.pos, 2);
}

#[test]
fn text_helpers() {
    assert_eq!(chars_of("a\u{e9}z"), vec!['a', '\u{e9}', 'z']);
    assert_eq!(text_of(&['o', 'k']), "ok");
    assert_eq!(trimmed(&chars(" \t a b \n")), &chars("a b")[..]);
    assert_eq!(trimmed(&chars("   ")), &chars("")[..]);
    let text = chars("a,,b,");
    let parts = pieces(&text, ',');
    assert_eq!(parts.len(), 4);
    assert_eq!(text_of(parts[0]), "a");
    assert_eq!(text_of(parts[1]), "");
    assert_eq!(text_of(parts[2]), "b");
    assert_eq!(text_of(parts[3]), "");
    assert_eq!(pieces(&[], ',').len(), 1);
    assert!(same(&chars("ADD"), "ADD"));
    assert!(!same(&chars("ADD"), "AND"));
    assert!(!same(&chars("AD"), "ADD"));
    assert_eq!(remove(&chars("\"a\"b\""), '"'), chars("ab"));
    assert_eq!(decode(&chars("\\\\t\\")), "\\\t\\");
    for c in ['\u{0}', ' ', '\t', 'a', '\u{85}', '\u{a0}', '\u{1680}', '\u{180e}', '\u{2000}',
        '\u{200a}', '\u{200b}', '\u{2028}', '\u{2029}', '\u{202f}', '\u{205f}', '\u{3000}',
        '\u{feff}', '\u{b}', '\u{c}', '\u{d}', '\u{e}', '\u{1c}', '\u{1f}']
    {
        assert_eq!(is_whitespace(c), c.is_whitespace(), "{:x}", c as u32);
    }
}

fn words_over(alphabet: &[char], length: usize) -> Vec<String> {
    let mut words = vec![String::new()];
    let mut last = vec![String::new()];
    for _ in 0..length {
        let mut next = Vec::new();
        for word in &last {
            for c in alphabet {
                let mut longer = word.clone();
                longer.push(*c);
                next.push(longer);
            }
        }
        words.extend(next.iter().cloned());
        last = next;
    }
    words
}

#[test]
fn escapes_decode_as_successive_replacements() {
    for word in words_over(&['\\', 't', 'n', 'e', '"', 'a'], 6) {
        let expected = word
            .replace('"', "")
            .replace("\\t", "\t")
            .replace("\\n", "\n")
            .replace("\\e", "\x1b");
        let bare = remove(&chars(&word), '"');
        assert_eq!(decode(&bare), expected, "{word:?}");
    }
    assert_eq!(
        Token::parse("\"\\\"t\""),
        Ok(Token::Str(String::from("\t")))
    );
}

#[test]
fn trimming_and_splitting_agree_with_std() {
    for word in words_over(&[' ', '\t', '\u{2003}', ',', ';', 'a'], 5) {
        let text = chars(&word);
        assert_eq!(text_of(trimmed(&text)), word.trim(), "{word:?}");
        let ours: Vec<String> = pieces(&text, ',').iter().map(|p| text_of(p)).collect();
        let theirs: Vec<String> = word.split(',').map(|p| p.to_string()).collect();
        assert_eq!(ours, theirs, "{word:?}");
    }
}
