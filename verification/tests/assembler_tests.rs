use asm16::assembler::{assemble, assemble_objects, encode_instructions, AsmError};
use asm16::bytecode::{
    disassemble_bytes, encode_instruction, words_to_bytes, Condition, Instruction, Opcode,
};
use asm16::instruction::{PseudoInstruction, Warning};
use asm16::parser::{AsmObject, Operand, SyntaxError};

fn words(source: &str) -> Vec<u16> {
    assemble(source).unwrap().words
}

#[test]
fn loop_with_a_branch_back() {
    let assembly = assemble("loop: add r2, r2, r1\nbne loop").unwrap();
    assert_eq!(assembly.words.len(), 2);
    assert_eq!(
        assembly.words[0],
        encode_instruction(Instruction::Alu(Opcode::Add, 2, 2, 1))
    );
    // The branch stands at position 1 and the label at position 0.
    assert_eq!(
        assembly.words[1],
        encode_instruction(Instruction::Branch(Condition::NotEqual, 1 - 0 + 1))
    );
    assert_eq!(assembly.words, vec![0x0122, 0xe202]);
    assert_eq!(assembly.warnings, vec![]);
    assert_eq!(words_to_bytes(&assembly.words), vec![0x01, 0x22, 0xe2, 0x02]);
}

#[test]
fn branch_to_its_own_position_has_offset_one() {
    assert_eq!(
        words("loop: bne loop"),
        vec![encode_instruction(Instruction::Branch(Condition::NotEqual, 0 - 0 + 1))]
    );
    assert_eq!(words("loop: bne loop"), vec![0xe201]);
}

#[test]
fn branch_forward_has_a_negative_offset_in_nine_bits() {
    // Position 0, label at position 3: 0 - 3 + 1 = -2.
    let assembly = assemble("beq end\nnop\nnop\nend: nop").unwrap();
    assert_eq!(assembly.words[0], encode_instruction(Instruction::Branch(Condition::Equal, 0x1fe)));
    assert_eq!(assembly.words, vec![0xe1fe, 0, 0, 0]);
    assert_eq!(assembly.warnings, vec![Warning::Truncated { value: -2, bits: 9 }]);
}

#[test]
fn branch_to_the_next_instruction_has_offset_zero() {
    let assembly = assemble("blt next\nnext: nop").unwrap();
    assert_eq!(assembly.words, vec![0b11100_10_000000000, 0]);
    assert_eq!(assembly.warnings, vec![]);
}

#[test]
fn positions_count_machine_instructions() {
    // push takes positions 0 to 2 and pop 3 to 5: the label is at 3, the branch at 6.
    let assembly = assemble("push r3\nhere: pop r3\nbge here").unwrap();
    assert_eq!(
        assembly.words,
        vec![
            0xa104,
            0x09ff,
            0xc0f3,
            encode_instruction(Instruction::Mem(Opcode::Lw, 3, 15, 0)),
            0xa104,
            encode_instruction(Instruction::Alu(Opcode::Add, 15, 15, 1)),
            encode_instruction(Instruction::Branch(Condition::GreaterThanEqual, 6 - 3 + 1)),
        ]
    );
}

#[test]
fn jump_to_a_label_takes_its_position() {
    let assembly = assemble("nop\nnop\ntarget: nop\njmp target").unwrap();
    assert_eq!(assembly.words, vec![0, 0, 0, encode_instruction(Instruction::Jump(2))]);
    assert_eq!(assembly.warnings, vec![]);
}

#[test]
fn label_at_the_end_has_the_position_after_the_last_instruction() {
    assert_eq!(words("jmp end\nnop\nend:"), vec![0xe802, 0]);
}

#[test]
fn later_label_of_the_same_name_wins() {
    assert_eq!(words("a: nop\na: nop\njmp a"), vec![0, 0, 0xe801]);
}

#[test]
fn push_expands_as_fixed() {
    assert_eq!(words("push r3"), vec![0xa104, 0x09ff, 0xc0f3]);
    assert_eq!(
        disassemble_bytes(&words_to_bytes(&words("push r3"))).unwrap(),
        vec!["li r1, 4", "sub r15, r15, r1", "sw r3, r15, 0"]
    );
}

#[test]
fn pop_expands_as_fixed() {
    assert_eq!(
        disassemble_bytes(&words_to_bytes(&words("pop r7"))).unwrap(),
        vec!["lw r7, r15, 0", "li r1, 4", "add r15, r15, r1"]
    );
}

#[test]
fn constants_chain_in_any_order() {
    let expected = vec![encode_instruction(Instruction::Li(2, 5))];
    assert_eq!(words("A = B\nB = C\nC = 5\nli r2, A"), expected);
    assert_eq!(words("C = 5\nB = C\nA = B\nli r2, A"), expected);
    assert_eq!(words("li r2, A\nB = C\nA = B\nC = 5"), expected);
    assert_eq!(words("A = B\nB = C\nC = 5\nli r2, B"), expected);
    assert_eq!(words("A = B\nB = C\nC = 5\nli r2, C"), expected);
}

#[test]
fn constant_may_stand_for_a_register_or_a_hex_number() {
    assert_eq!(
        words("SP = r15\nBASE = 0x10\nlw r1, SP, 2\nli r1, BASE"),
        vec![
            encode_instruction(Instruction::Mem(Opcode::Lw, 1, 15, 2)),
            encode_instruction(Instruction::Li(1, 16)),
        ]
    );
}

#[test]
fn constant_may_stand_for_a_label() {
    assert_eq!(words("T = top\ntop: nop\nbne T"), vec![0, 0xe202]);
}

#[test]
fn later_definition_of_a_constant_wins() {
    assert_eq!(
        words("A = 1\nli r1, A\nA = 2"),
        vec![encode_instruction(Instruction::Li(1, 2))]
    );
}

#[test]
fn only_the_start_of_a_literal_is_read() {
    assert_eq!(words("A = 5abc\nli r1, A"), vec![encode_instruction(Instruction::Li(1, 5))]);
}

#[test]
fn cyclic_constants_are_refused() {
    match assemble("A = B\nB = A\nli r1, A").unwrap_err() {
        AsmError::CyclicConstant(name) => assert_eq!(name, "A"),
        other => panic!("unexpected error {:?}", other),
    }
    match assemble("A = A\nli r1, A").unwrap_err() {
        AsmError::CyclicConstant(name) => assert_eq!(name, "A"),
        other => panic!("unexpected error {:?}", other),
    }
    match assemble("X = 1\nA = B\nB = C\nC = A\nli r1, X\nli r1, C").unwrap_err() {
        AsmError::CyclicConstant(name) => assert_eq!(name, "C"),
        other => panic!("unexpected error {:?}", other),
    }
}

#[test]
fn cyclic_constants_that_nothing_names_do_no_harm() {
    assert_eq!(words("A = B\nB = A\nnop"), vec![0]);
}

#[test]
fn literal_that_is_no_operand_is_refused() {
    match assemble("BIG = 99999999999\nli r1, BIG").unwrap_err() {
        AsmError::InvalidLiteral(literal) => assert_eq!(literal, "99999999999"),
        other => panic!("unexpected error {:?}", other),
    }
}

#[test]
fn unknown_mnemonic_is_refused() {
    match assemble("foo r1, r2").unwrap_err() {
        AsmError::UnknownMnemonic(name) => assert_eq!(name, "foo"),
        other => panic!("unexpected error {:?}", other),
    }
    match assemble("nop\nlb r1, r2, 0").unwrap_err() {
        AsmError::UnknownMnemonic(name) => assert_eq!(name, "lb"),
        other => panic!("unexpected error {:?}", other),
    }
}

#[test]
fn unresolved_symbol_is_refused() {
    match assemble("bne nowhere").unwrap_err() {
        AsmError::UnresolvedSymbol(name) => assert_eq!(name, "nowhere"),
        other => panic!("unexpected error {:?}", other),
    }
    match assemble("A = B\nli r1, A").unwrap_err() {
        AsmError::UnresolvedSymbol(name) => assert_eq!(name, "B"),
        other => panic!("unexpected error {:?}", other),
    }
}

#[test]
fn operand_shape_is_refused() {
    match assemble("add r1, r2").unwrap_err() {
        AsmError::OperandShape(e) => {
            assert_eq!(e.0, PseudoInstruction::Add);
            assert_eq!(e.1, "Expected 3 operands");
        }
        other => panic!("unexpected error {:?}", other),
    }
    match assemble("add r1, r2, 7").unwrap_err() {
        AsmError::OperandShape(e) => {
            assert_eq!(e.0, PseudoInstruction::Add);
            assert_eq!(e.1, "7");
        }
        other => panic!("unexpected error {:?}", other),
    }
    match assemble("x: add r1, r2, x").unwrap_err() {
        AsmError::OperandShape(e) => assert_eq!(e.1, "0"),
        other => panic!("unexpected error {:?}", other),
    }
}

#[test]
fn syntax_error_is_refused_with_its_offset() {
    match assemble("nop\nadd r1, r2,\n").unwrap_err() {
        AsmError::Syntax(e) => assert_eq!(e, SyntaxError { offset: 14 }),
        other => panic!("unexpected error {:?}", other),
    }
}

#[test]
fn unknown_mnemonic_comes_before_errors_of_earlier_operands() {
    // The first statement has an unresolved name and the second an unknown
    // mnemonic: mnemonics are looked up in a pass of their own.
    match assemble("bne nowhere\nfoo").unwrap_err() {
        AsmError::UnknownMnemonic(name) => assert_eq!(name, "foo"),
        other => panic!("unexpected error {:?}", other),
    }
    match assemble("add r1\nbne nowhere").unwrap_err() {
        AsmError::OperandShape(e) => assert_eq!(e.1, "Expected 3 operands"),
        other => panic!("unexpected error {:?}", other),
    }
}

#[test]
fn warnings_are_kept_in_order() {
    let assembly = assemble("li r1, 300\nnop\njmp r2\nli r2, -1\nli r3, 7").unwrap();
    assert_eq!(
        assembly.warnings,
        vec![
            Warning::Truncated { value: 300, bits: 8 },
            Warning::JumpRegister,
            Warning::Truncated { value: -1, bits: 8 },
        ]
    );
    assert_eq!(
        assembly.words,
        vec![
            encode_instruction(Instruction::Li(1, 44)),
            0,
            encode_instruction(Instruction::JumpReg(2)),
            encode_instruction(Instruction::Li(2, 255)),
            encode_instruction(Instruction::Li(3, 7)),
        ]
    );
}

#[test]
fn empty_text_assembles_to_nothing() {
    let assembly = assemble("").unwrap();
    assert_eq!(assembly.words, Vec::<u16>::new());
    assert_eq!(assembly.warnings, vec![]);
    assert_eq!(words("# nothing\nA = 1\nend:\n"), Vec::<u16>::new());
}

#[test]
fn statements_are_assembled_as_text_is() {
    let objects = vec![
        AsmObject::Constant("N".to_string(), "3".to_string()),
        AsmObject::Label("top".to_string()),
        AsmObject::Instruction(
            "li".to_string(),
            vec![Operand::Register(1), Operand::Name("N".to_string())],
        ),
        AsmObject::Instruction("beq".to_string(), vec![Operand::Name("top".to_string())]),
    ];
    let assembly = assemble_objects(&objects).unwrap();
    assert_eq!(assembly.words, words("N = 3\ntop: li r1, N\nbeq top"));
    assert_eq!(assembly.words, vec![0xa103, 0xe002]);
}

#[test]
fn a_whole_program() {
    let source = "\
# sum the numbers below r2
COUNT = 0x0a
        li r2, COUNT     # counter
        li r1, 1
loop:   add r3, r3, r2
        sub r2, r2, r1
        cmp r2, r0
        bne loop
        push r3
        jmp done
        nop
done:
";
    let assembly = assemble(source).unwrap();
    assert_eq!(
        assembly.words,
        encode_instructions(&[
            Instruction::Li(2, 10),
            Instruction::Li(1, 1),
            Instruction::Alu(Opcode::Add, 3, 3, 2),
            Instruction::Alu(Opcode::Sub, 2, 2, 1),
            Instruction::Alu(Opcode::Sub, 0, 2, 0),
            Instruction::Branch(Condition::NotEqual, 5 - 2 + 1),
            Instruction::Li(1, 4),
            Instruction::Alu(Opcode::Sub, 15, 15, 1),
            Instruction::Mem(Opcode::Sw, 3, 15, 0),
            Instruction::Jump(11),
            Instruction::Alu(Opcode::Add, 0, 0, 0),
        ])
    );
    assert_eq!(assembly.warnings, vec![]);
    assert_eq!(
        disassemble_bytes(&words_to_bytes(&assembly.words)).unwrap(),
        vec![
            "li r2, 10",
            "li r1, 1",
            "add r3, r3, r2",
            "sub r2, r2, r1",
            "sub r0, r2, r0",
            "bne 4",
            "li r1, 4",
            "sub r15, r15, r1",
            "sw r3, r15, 0",
            "jmp 11",
            "add r0, r0, r0",
        ]
    );
}
