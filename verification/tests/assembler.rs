use lc3asm::assembler::{generate_words, Assembler};
use lc3asm::enums::{Directive, OpCode, Register, Token};
use lc3asm::error::ErrorKind;
use lc3asm::symbols::SymbolTable;

fn lines(text: &[&str]) -> Vec<String> {
    text.iter().map(|line| line.to_string()).collect()
}

/// The programs with a syntax fault, by the name of their source file.
fn fault_source(path: &str) -> Vec<String> {
    match path {
        // the program does not start with `.ORIG`
        "asm/fault_tests/syntax_fault-1.ggnm" => lines(&["ADD R0,R0,R0", ".END"]),
        // a second `.ORIG`
        "asm/fault_tests/syntax_fault-2.ggnm" => {
            lines(&[".ORIG x3000", "ADD R0,R0,R0", ".ORIG x4000", ".END"])
        }
        // a label where a register or an immediate belongs
        "asm/fault_tests/syntax_fault-3.ggnm" => {
            lines(&[".ORIG x3000", "THERE ADD R0,R1,THERE", ".END"])
        }
        // a constant where a statement should start
        "asm/fault_tests/syntax_fault-4.ggnm" => lines(&[".ORIG x3000", "x3000", ".END"]),
        // a label alone on its line
        "asm/fault_tests/syntax_fault-5.ggnm" => {
            lines(&[".ORIG x3000", "ALONE", "ADD R0,R0,R0", ".END"])
        }
        // a trap vector that no trap has
        "asm/fault_tests/syntax_fault-6.ggnm" => lines(&[".ORIG x3000", "TRAP x30", ".END"]),
        // a directive without its operand
        "asm/fault_tests/syntax_fault-7.ggnm" => lines(&[".ORIG x3000", ".BLKW", ".END"]),
        // a register where a value belongs
        "asm/fault_tests/syntax_fault-8.ggnm" => lines(&[".ORIG x3000", ".FILL R0", ".END"]),
        // an immediate where a register belongs
        "asm/fault_tests/syntax_fault-9.ggnm" => lines(&[".ORIG x3000", "NOT R0,#1", ".END"]),
        _ => unreachable!(),
    }
}

#[test]
fn fault_testing() {
    let syntax_tests = 9;
    for i in 1..=syntax_tests {
        let mut test_ass = Assembler::new(fault_source(&format!(
            "asm/fault_tests/syntax_fault-{i}.ggnm"
        )));
        let res = test_ass.assemble().map_err(|e| e.kind);
        assert_eq!(
            res,
            Err(ErrorKind::SyntaxError),
            "{}",
            format!("syntax_fault-{i}")
        );
    }
}

#[test]
fn first_pass_assigns_addresses() {
    let mut run = Assembler::new(lines(&[
        "; a greeting",
        ".ORIG x3000",
        "",
        "    LEA R0,HELLO_WORLD   ; the text",
        "    PUTS",
        "    HALT",
        "HELLO_WORLD .STRINGZ \"Hi\"",
        "BUFFER .BLKW #4",
        "LAST .FILL xBEEF",
        ".END",
        "xyz is never read",
    ]));
    assert!(run.first_pass().is_ok());
    assert_eq!(run.symbol("HELLO_WORLD"), Some(0x3003));
    assert_eq!(run.symbol("BUFFER"), Some(0x3006));
    assert_eq!(run.symbol("LAST"), Some(0x300a));
    assert_eq!(run.symbol("MISSING"), None);
    assert_eq!(run.sym_table().len(), 3);
    assert_eq!(run.tokens().len(), 17);
    assert_eq!(run.tokens()[0], Token::Dir(Directive::Orig));
    assert_eq!(run.tokens()[16], Token::Dir(Directive::End));
    assert!(run.bin().is_empty());
    assert_eq!(run.symbol_file(), "HELLO_WORLD 3003\nBUFFER 3006\nLAST 300a\n");
}

#[test]
fn second_pass_encodes_program() {
    let mut run = Assembler::new(lines(&[
        ".ORIG x3000",
        "    LEA R0,HELLO_WORLD",
        "    PUTS",
        "    HALT",
        "HELLO_WORLD .STRINGZ \"Hi\"",
        "BUFFER .BLKW #2",
        "LAST .FILL HELLO_WORLD",
        ".END",
    ]));
    assert!(run.first_pass().is_ok());
    assert!(run.second_pass().is_ok());
    assert_eq!(
        run.bin(),
        &vec![0x3000, 0xe002, 0xf022, 0xf025, 0x48, 0x69, 0, 0, 0, 0x3003]
    );
    assert_eq!(
        run.object_file(),
        vec![
            0x30, 0x00, 0xe0, 0x02, 0xf0, 0x22, 0xf0, 0x25, 0x00, 0x48, 0x00, 0x69, 0, 0, 0, 0,
            0, 0, 0x30, 0x03
        ]
    );
}

#[test]
fn forward_branch_reaches_label() {
    let mut run = Assembler::new(lines(&[
        ".ORIG x3000",
        "    BRnzp TARGET",
        "    ADD R0,R0,#1",
        "    ADD R0,R0,#1",
        "    ADD R0,R0,#1",
        "    ADD R0,R0,#1",
        "    ADD R0,R0,#1",
        "TARGET HALT",
        ".END",
    ]));
    assert_eq!(run.assemble(), Ok(()));
    let branch = run.bin()[1];
    assert_eq!(branch & 0x1ff, 5);
    assert_eq!(branch, 0x0e05);
    assert_eq!(run.symbol("TARGET"), Some(0x3006));
    assert_eq!(run.symbol_file(), "TARGET 3006\n");
}

#[test]
fn backward_branch_is_negative_offset() {
    let mut run = Assembler::new(lines(&[
        ".ORIG x3000",
        "LOOP ADD R0,R0,#-1",
        "    BRp LOOP",
        ".END",
    ]));
    assert_eq!(run.assemble(), Ok(()));
    assert_eq!(run.bin(), &vec![0x3000, 0x103f, 0x03fe]);
}

#[test]
fn missing_label_fails_run() {
    let mut run = Assembler::new(lines(&[".ORIG x3000", "    LD R0,NOWHERE", ".END"]));
    let res = run.assemble().map_err(|e| e.kind);
    assert_eq!(res, Err(ErrorKind::MissingLabelError));
    assert!(run.bin().is_empty());
    assert!(run.object_file().is_empty());
}

#[test]
fn immediate_out_of_range_fails() {
    let mut run = Assembler::new(lines(&[".ORIG x3000", "    ADD R0,R0,#32", ".END"]));
    let res = run.assemble().map_err(|e| e.kind);
    assert_eq!(res, Err(ErrorKind::ValueError));
    assert!(run.bin().is_empty());

    let mut run = Assembler::new(lines(&[".ORIG x3000", "    ADD R0,R0,#-33", ".END"]));
    assert_eq!(
        run.assemble().map_err(|e| e.kind),
        Err(ErrorKind::ValueError)
    );

    // the bits above the field are all zero, so the check lets 20 pass
    let mut run = Assembler::new(lines(&[".ORIG x3000", "    ADD R0,R0,#20", ".END"]));
    assert_eq!(run.assemble(), Ok(()));
    assert_eq!(run.bin(), &vec![0x3000, 0x1034]);
}

#[test]
fn operands_run_out() {
    let mut run = Assembler::new(lines(&[".ORIG x3000", "    ADD R0,R0"]));
    assert_eq!(
        run.assemble().map_err(|e| e.kind),
        Err(ErrorKind::UnexpectedEof)
    );
    let mut run = Assembler::new(lines(&[".ORIG"]));
    assert_eq!(
        run.assemble().map_err(|e| e.kind),
        Err(ErrorKind::SyntaxError)
    );
    let mut run = Assembler::new(Vec::new());
    assert_eq!(
        run.assemble().map_err(|e| e.kind),
        Err(ErrorKind::SyntaxError)
    );
}

#[test]
fn lexical_failure_ends_first_pass() {
    let mut run = Assembler::new(lines(&[".ORIG x3000", "    ADD R0,R0,#1x", ".END"]));
    let res = run.first_pass();
    assert_eq!(
        res.clone().map_err(|e| e.kind),
        Err(ErrorKind::ParseConstantError)
    );
    assert_eq!(
        res.map_err(|e| e.message),
        Err(String::from("invalid digit found in string"))
    );
    assert!(run.tokens().is_empty());
    assert_eq!(run.sym_table().len(), 0);
}

#[test]
fn duplicate_label_keeps_last_address() {
    let mut run = Assembler::new(lines(&[
        ".ORIG x3000",
        "TWICE ADD R0,R0,#0",
        "ONCE ADD R0,R0,#0",
        "TWICE ADD R0,R0,#0",
        "    BRnzp TWICE",
        ".END",
    ]));
    assert_eq!(run.assemble(), Ok(()));
    assert_eq!(run.symbol("TWICE"), Some(0x3002));
    assert_eq!(run.symbol("ONCE"), Some(0x3001));
    assert_eq!(run.bin()[4], 0x0ffe);
    assert_eq!(run.symbol_file(), "ONCE 3001\nTWICE 3002\n");
}

#[test]
fn label_address_is_place_in_image() {
    let source = lines(&[
        ".ORIG x3000",
        "START LD R1,COUNT",
        "AGAIN ADD R1,R1,#-1",
        "    BRp AGAIN",
        "    JSR SUB",
        "    HALT",
        "COUNT .FILL #10",
        "TEXT .STRINGZ \"abc\"",
        "ROOM .BLKW #3",
        "SUB NOT R0,R0",
        "    RET",
        ".END",
    ]);
    let mut run = Assembler::new(source);
    assert_eq!(run.assemble(), Ok(()));
    let origin = run.bin()[0];
    // the word of the statement after each label, found at the label's address
    let expected: [(&str, u16); 6] = [
        ("START", 0x2204),
        ("AGAIN", 0x127f),
        ("COUNT", 10),
        ("TEXT", 0x61),
        ("ROOM", 0),
        ("SUB", 0x903f),
    ];
    for (name, word) in expected {
        let address = run.symbol(name).unwrap();
        let place = (address - origin) as usize + 1;
        assert_eq!(run.bin()[place], word, "{name}");
    }
    assert_eq!(run.symbol("SUB"), Some(0x300d));
    assert_eq!(run.bin().len(), 16);
}

#[test]
fn reserved_mnemonic_takes_one_word() {
    let mut run = Assembler::new(lines(&[
        ".ORIG x3000",
        "    RES",
        "AFTER HALT",
        "    BRnzp AFTER",
        ".END",
    ]));
    assert_eq!(run.assemble(), Ok(()));
    assert_eq!(run.bin(), &vec![0x3000, 0xd000, 0xf025, 0x0ffe]);
    assert_eq!(run.symbol("AFTER"), Some(0x3001));
    let place = (run.symbol("AFTER").unwrap() - run.bin()[0]) as usize + 1;
    assert_eq!(run.bin()[place], 0xf025);
}

#[test]
fn location_counter_wraps() {
    let mut run = Assembler::new(lines(&[
        ".ORIG xFFFF",
        "    HALT",
        "ZERO HALT",
        ".END",
    ]));
    assert_eq!(run.assemble(), Ok(()));
    assert_eq!(run.symbol("ZERO"), Some(0));
}

#[test]
fn generate_words_on_tokens() {
    let mut table = SymbolTable::new();
    table.insert(String::from("DATA"), 0x3010);
    let stream = vec![
        Token::Dir(Directive::Orig),
        Token::Const(0x3000),
        Token::Label(String::from("HERE")),
        Token::Op(OpCode::Ld),
        Token::Reg(Register::R2),
        Token::Label(String::from("DATA")),
        Token::Op(OpCode::Ldr),
        Token::Reg(Register::R4),
        Token::Reg(Register::R3),
        Token::Const(0xffff),
        Token::Op(OpCode::Jsr),
        Token::Label(String::from("DATA")),
        Token::Op(OpCode::Trap),
        Token::Const(0x23),
        Token::Op(OpCode::Jsrr),
        Token::Reg(Register::R6),
        Token::Op(OpCode::Jmp),
        Token::Reg(Register::R7),
        Token::Op(OpCode::Ret),
        Token::Op(OpCode::Rti),
        Token::Op(OpCode::Sti),
        Token::Reg(Register::R1),
        Token::Label(String::from("DATA")),
        Token::Op(OpCode::Br),
        Token::Const(0x1ff),
        Token::Dir(Directive::End),
        Token::Invalid,
    ];
    assert_eq!(
        generate_words(&stream, &table),
        Ok(vec![
            0x3000, 0x240f, 0x68ff, 0x480d, 0xf023, 0x4180, 0xc1c0, 0xc1c0, 0x8000, 0xb207,
            0x01ff
        ])
    );
}

#[test]
fn generate_words_failures() {
    let table = SymbolTable::new();
    let orig = || vec![Token::Dir(Directive::Orig), Token::Const(0x3000)];

    let mut stream = orig();
    stream.push(Token::Invalid);
    assert_eq!(
        generate_words(&stream, &table).map_err(|e| e.kind),
        Err(ErrorKind::InvalidTokenError)
    );

    let mut stream = orig();
    stream.push(Token::Str(String::from("text")));
    assert_eq!(
        generate_words(&stream, &table).map_err(|e| e.kind),
        Err(ErrorKind::SyntaxError)
    );

    let mut stream = orig();
    stream.push(Token::Op(OpCode::Jsr));
    stream.push(Token::Label(String::from("GONE")));
    assert_eq!(
        generate_words(&stream, &table).map_err(|e| e.kind),
        Err(ErrorKind::MissingLabelError)
    );

    let mut stream = orig();
    stream.push(Token::Op(OpCode::Brz));
    stream.push(Token::Const(0x200));
    assert_eq!(
        generate_words(&stream, &table).map_err(|e| e.kind),
        Err(ErrorKind::ValueError)
    );

    let mut stream = orig();
    stream.push(Token::Op(OpCode::Not));
    stream.push(Token::Reg(Register::R1));
    assert_eq!(
        generate_words(&stream, &table).map_err(|e| e.kind),
        Err(ErrorKind::UnexpectedEof)
    );

    assert_eq!(
        generate_words(&[Token::Dir(Directive::Orig)], &table).map_err(|e| e.kind),
        Err(ErrorKind::UnexpectedEof)
    );
    assert_eq!(
        generate_words(&[Token::Label(String::from("L"))], &table).map_err(|e| e.kind),
        Err(ErrorKind::SyntaxError)
    );
    assert_eq!(generate_words(&orig(), &table), Ok(vec![0x3000]));
}

#[test]
fn symbols_sorted_by_address() {
    let mut table = SymbolTable::new();
    table.insert(String::from("HIGH"), 0x4000);
    table.insert(String::from("LOW"), 0x10);
    table.insert(String::from("SAME_B"), 0x3000);
    table.insert(String::from("SAME_A"), 0x3000);
    table.insert(String::from("LOW"), 0);
    assert_eq!(table.len(), 4);
    assert_eq!(table.get("LOW"), Some(0));
    assert_eq!(
        table.sorted(),
        vec![
            (String::from("LOW"), 0),
            (String::from("SAME_B"), 0x3000),
            (String::from("SAME_A"), 0x3000),
            (String::from("HIGH"), 0x4000),
        ]
    );
}

#[test]
fn label_address_is_origin_plus_sizes() {
    let mut run = Assembler::new(lines(&[
        "; sizes: one for an instruction and for .FILL, n for .BLKW n,",
        "; the bytes and one more for .STRINGZ",
        ".ORIG x4000",
        "A ADD R0,R0,#1",
        "B .FILL x1",
        "C .BLKW #7",
        "D .STRINGZ \"four\"",
        "E RES",
        "F .BLKW #0",
        "G HALT",
        ".END",
    ]));
    assert_eq!(run.first_pass(), Ok(()));
    let sizes: [(&str, u16); 7] = [
        ("A", 0),
        ("B", 1),
        ("C", 1 + 1),
        ("D", 1 + 1 + 7),
        ("E", 1 + 1 + 7 + 5),
        ("F", 1 + 1 + 7 + 5 + 1),
        ("G", 1 + 1 + 7 + 5 + 1),
    ];
    for (name, sum) in sizes {
        assert_eq!(run.symbol(name), Some(0x4000 + sum), "{name}");
    }
    assert_eq!(run.second_pass(), Ok(()));
    assert_eq!(run.bin().len(), 1 + 1 + 1 + 7 + 5 + 1 + 1);
    assert_eq!(
        run.symbol_file(),
        "A 4000\nB 4001\nC 4002\nD 4009\nE 400e\nF 400f\nG 400f\n"
    );
}
