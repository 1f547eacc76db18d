use asm16::parser::{
    parse_asm, parse_bytes, parse_comment_whitespace, parse_operand, AsmObject, Operand,
    SyntaxError,
};

// Make sure hex numbers get parsed as operands correctly
#[test]
fn test_parse_hex_operand() {
    let input = "0x1A";
    let result = parse_operand(input);
    assert!(result.is_ok());
    let (_, operand) = result.unwrap();
    match operand {
        Operand::Immediate(value) => assert_eq!(value, 0x1A),
        _ => panic!("Expected Immediate operand"),
    }
}

#[test]
fn hex_operand_takes_both_cases_and_leaves_the_rest() {
    let (rest, operand) = parse_operand("0xfFg, r1").unwrap();
    assert_eq!(operand, Operand::Immediate(0xff));
    assert_eq!(rest, "g, r1".as_bytes());
}

#[test]
fn hex_operand_at_the_limit_of_i32() {
    let (rest, operand) = parse_operand("0x7fffffff").unwrap();
    assert_eq!(operand, Operand::Immediate(i32::MAX));
    assert!(rest.is_empty());
}

#[test]
fn hex_operand_too_large_reads_as_decimal_zero() {
    let (rest, operand) = parse_operand("0x80000000").unwrap();
    assert_eq!(operand, Operand::Immediate(0));
    assert_eq!(rest, "x80000000".as_bytes());
}

#[test]
fn hex_prefix_without_digits_reads_as_decimal_zero() {
    let (rest, operand) = parse_operand("0xZ").unwrap();
    assert_eq!(operand, Operand::Immediate(0));
    assert_eq!(rest, "xZ".as_bytes());
}

#[test]
fn decimal_operand_is_read() {
    let (rest, operand) = parse_operand("42").unwrap();
    assert_eq!(operand, Operand::Immediate(42));
    assert!(rest.is_empty());
}

#[test]
fn decimal_operand_with_signs() {
    assert_eq!(parse_operand("-7").unwrap().1, Operand::Immediate(-7));
    assert_eq!(parse_operand("+3 ").unwrap().1, Operand::Immediate(3));
    assert_eq!(parse_operand("+3 ").unwrap().0, " ".as_bytes());
    assert_eq!(parse_operand("-0").unwrap().1, Operand::Immediate(0));
}

#[test]
fn decimal_operand_at_the_limits_of_i32() {
    assert_eq!(parse_operand("2147483647").unwrap().1, Operand::Immediate(i32::MAX));
    assert_eq!(parse_operand("-2147483648").unwrap().1, Operand::Immediate(i32::MIN));
    assert_eq!(parse_operand("0000000000012").unwrap().1, Operand::Immediate(12));
}

#[test]
fn decimal_operand_out_of_range_is_refused() {
    assert_eq!(parse_operand("2147483648").unwrap_err(), SyntaxError { offset: 0 });
    assert_eq!(parse_operand("-2147483649").unwrap_err(), SyntaxError { offset: 0 });
}

#[test]
fn sign_without_digits_is_refused() {
    assert!(parse_operand("-").is_err());
    assert!(parse_operand("+x").is_err());
    assert!(parse_operand("--1").is_err());
}

#[test]
fn register_operand_is_read() {
    assert_eq!(parse_operand("r3").unwrap().1, Operand::Register(3));
    assert_eq!(parse_operand("r15").unwrap().1, Operand::Register(15));
    assert_eq!(parse_operand("r255").unwrap().1, Operand::Register(255));
    assert_eq!(parse_operand("r007").unwrap().1, Operand::Register(7));
    let (rest, operand) = parse_operand("r1x").unwrap();
    assert_eq!(operand, Operand::Register(1));
    assert_eq!(rest, "x".as_bytes());
}

#[test]
fn register_index_beyond_a_byte_reads_as_a_name() {
    assert_eq!(parse_operand("r256").unwrap().1, Operand::Name("r256".to_string()));
    assert_eq!(parse_operand("r99999").unwrap().1, Operand::Name("r99999".to_string()));
}

#[test]
fn name_operand_is_read() {
    assert_eq!(parse_operand("loop").unwrap().1, Operand::Name("loop".to_string()));
    assert_eq!(parse_operand("_a1_b:").unwrap().1, Operand::Name("_a1_b".to_string()));
    assert_eq!(parse_operand("_a1_b:").unwrap().0, ":".as_bytes());
    assert_eq!(parse_operand("r").unwrap().1, Operand::Name("r".to_string()));
    assert_eq!(parse_operand("rx").unwrap().1, Operand::Name("rx".to_string()));
}

#[test]
fn text_without_an_operand_is_refused() {
    assert_eq!(parse_operand("").unwrap_err(), SyntaxError { offset: 0 });
    assert_eq!(parse_operand(",").unwrap_err(), SyntaxError { offset: 0 });
    assert_eq!(parse_operand(" r1").unwrap_err(), SyntaxError { offset: 0 });
    assert_eq!(parse_operand("é").unwrap_err(), SyntaxError { offset: 0 });
}

#[test]
fn operand_to_text() {
    assert_eq!(Operand::Register(3).to_text(), "3");
    assert_eq!(Operand::Immediate(-12).to_text(), "-12");
    assert_eq!(Operand::Immediate(i32::MIN).to_text(), "-2147483648");
    assert_eq!(Operand::Immediate(0).to_text(), "0");
    assert_eq!(Operand::Name("x_1".to_string()).to_text(), "x_1");
}

#[test]
fn comment_whitespace_is_skipped() {
    assert_eq!(parse_comment_whitespace("  \t add"), "add".as_bytes());
    assert_eq!(parse_comment_whitespace("# note\n  # more\r\n\n x"), "x".as_bytes());
    assert_eq!(parse_comment_whitespace("# note to the end"), "".as_bytes());
    assert_eq!(parse_comment_whitespace(""), "".as_bytes());
    assert_eq!(parse_comment_whitespace("x  "), "x  ".as_bytes());
}

#[test]
fn carriage_return_alone_ends_no_line() {
    assert_eq!(parse_comment_whitespace(" \rx"), "\rx".as_bytes());
    assert_eq!(parse_comment_whitespace("# a\rb\nx"), "# a\rb\nx".as_bytes());
}

#[test]
fn empty_text_has_no_statements() {
    assert_eq!(parse_asm("").unwrap(), Vec::<AsmObject>::new());
    assert_eq!(parse_asm("  \n# only a comment\n\n").unwrap(), Vec::<AsmObject>::new());
    assert_eq!(parse_asm("# only a comment").unwrap(), Vec::<AsmObject>::new());
}

#[test]
fn statements_are_read_in_order() {
    let source = "# a program\nSTEP = 4\nstart:\n  li r1, STEP # load\n  add r2, r2, r1\n  bne start\n";
    let objects = parse_asm(source).unwrap();
    assert_eq!(
        objects,
        vec![
            AsmObject::Constant("STEP".to_string(), "4".to_string()),
            AsmObject::Label("start".to_string()),
            AsmObject::Instruction(
                "li".to_string(),
                vec![Operand::Register(1), Operand::Name("STEP".to_string())]
            ),
            AsmObject::Instruction(
                "add".to_string(),
                vec![Operand::Register(2), Operand::Register(2), Operand::Register(1)]
            ),
            AsmObject::Instruction("bne".to_string(), vec![Operand::Name("start".to_string())]),
        ]
    );
}

#[test]
fn label_and_instruction_on_one_line() {
    let objects = parse_asm("loop: add r2, r2, r1\nbne loop").unwrap();
    assert_eq!(
        objects,
        vec![
            AsmObject::Label("loop".to_string()),
            AsmObject::Instruction(
                "add".to_string(),
                vec![Operand::Register(2), Operand::Register(2), Operand::Register(1)]
            ),
            AsmObject::Instruction("bne".to_string(), vec![Operand::Name("loop".to_string())]),
        ]
    );
}

#[test]
fn instruction_without_operands() {
    assert_eq!(
        parse_asm("nop\nnop").unwrap(),
        vec![
            AsmObject::Instruction("nop".to_string(), vec![]),
            AsmObject::Instruction("nop".to_string(), vec![]),
        ]
    );
}

#[test]
fn a_name_after_a_mnemonic_is_its_operand() {
    assert_eq!(
        parse_asm("nop nop").unwrap(),
        vec![AsmObject::Instruction("nop".to_string(), vec![Operand::Name("nop".to_string())])]
    );
}

#[test]
fn blanks_around_commas_are_allowed() {
    assert_eq!(
        parse_asm("lw r1 ,\tr2,0x3").unwrap(),
        vec![AsmObject::Instruction(
            "lw".to_string(),
            vec![Operand::Register(1), Operand::Register(2), Operand::Immediate(3)]
        )]
    );
}

#[test]
fn constant_at_the_end_of_the_text() {
    assert_eq!(
        parse_asm("A = B").unwrap(),
        vec![AsmObject::Constant("A".to_string(), "B".to_string())]
    );
    assert_eq!(
        parse_asm("A=5 # five\r\n").unwrap(),
        vec![AsmObject::Constant("A".to_string(), "5".to_string())]
    );
}

#[test]
fn comment_at_the_end_of_the_text() {
    assert_eq!(
        parse_asm("nop # done").unwrap(),
        vec![AsmObject::Instruction("nop".to_string(), vec![])]
    );
}

#[test]
fn dangling_comma_is_a_syntax_error() {
    assert_eq!(parse_asm("add r1, r2,\n").unwrap_err(), SyntaxError { offset: 10 });
    assert_eq!(parse_asm("add r1,").unwrap_err(), SyntaxError { offset: 6 });
}

#[test]
fn constant_without_value_is_a_syntax_error() {
    assert_eq!(parse_asm("nop\nA = \n").unwrap_err(), SyntaxError { offset: 6 });
}

#[test]
fn line_that_begins_with_no_name_is_a_syntax_error() {
    assert_eq!(parse_asm("nop\n: r1").unwrap_err(), SyntaxError { offset: 4 });
    assert_eq!(parse_asm("  5 = A").unwrap_err(), SyntaxError { offset: 2 });
    assert_eq!(parse_asm("add r1 $").unwrap_err(), SyntaxError { offset: 7 });
}

#[test]
fn bytes_outside_ascii_are_allowed_in_comments_only() {
    assert_eq!(
        parse_asm("nop # caf\u{e9} \u{1f600}\nnop").unwrap(),
        vec![
            AsmObject::Instruction("nop".to_string(), vec![]),
            AsmObject::Instruction("nop".to_string(), vec![]),
        ]
    );
    assert_eq!(parse_asm("nop \u{e9}").unwrap_err(), SyntaxError { offset: 4 });
}

#[test]
fn bytes_are_read_as_text_is() {
    assert_eq!(
        parse_bytes(b"end:").unwrap(),
        vec![AsmObject::Label("end".to_string())]
    );
    assert_eq!(parse_bytes(&[0x6e, 0x6f, 0x70, 0xff]).unwrap_err(), SyntaxError { offset: 3 });
}
