use asm16::bytecode::{
    bytes_to_words, decode, disassemble, disassemble_bytes, encode_alu_instruction,
    encode_instruction, encode_mem_instruction, opcode_to_enum, words_to_bytes, Condition,
    DisasmError, Instruction, InvalidInstruction, Opcode,
};

#[test]
fn opcode_values() {
    assert_eq!(Opcode::Add.code(), 0b00000);
    assert_eq!(Opcode::Sub.code(), 0b00001);
    assert_eq!(Opcode::Or.code(), 0b00010);
    assert_eq!(Opcode::And.code(), 0b00011);
    assert_eq!(Opcode::Xor.code(), 0b00100);
    assert_eq!(Opcode::Not.code(), 0b00101);
    assert_eq!(Opcode::Shl.code(), 0b00110);
    assert_eq!(Opcode::Shr.code(), 0b00111);
    assert_eq!(Opcode::Lw.code(), 0b10000);
    assert_eq!(Opcode::Sw.code(), 0b11000);
    assert_eq!(Opcode::Branch.code(), 0b11100);
    assert_eq!(Opcode::Jump.code(), 0b11101);
    assert_eq!(Opcode::JumpReg.code(), 0b11111);
    assert_eq!(Opcode::Li.code(), 0b10100);
}

#[test]
fn opcode_is_found_from_its_value() {
    for value in 0u16..32 {
        match opcode_to_enum(value) {
            Ok(opcode) => assert_eq!(opcode.code(), value),
            Err(e) => assert_eq!(e.0, format!("Unknown opcode: {:#06x}", value)),
        }
    }
    assert_eq!(opcode_to_enum(0b11100).unwrap(), Opcode::Branch);
    assert_eq!(opcode_to_enum(0b10100).unwrap(), Opcode::Li);
}

#[test]
fn unknown_opcode_is_an_error() {
    let e = opcode_to_enum(0b01001).unwrap_err();
    assert_eq!(e.0, "Unknown opcode: 0x0009");
    assert_eq!(e.message(), "Invalid instruction: 'Unknown opcode: 0x0009'.");
    assert_eq!(opcode_to_enum(0xabcd).unwrap_err().0, "Unknown opcode: 0xabcd");
    assert_eq!(opcode_to_enum(32).unwrap_err().0, "Unknown opcode: 0x0020");
}

#[test]
fn opcode_and_condition_names() {
    assert_eq!(Opcode::Add.name(), "add");
    assert_eq!(Opcode::Branch.name(), "branch");
    assert_eq!(Opcode::Jump.name(), "jmp(i)");
    assert_eq!(Opcode::JumpReg.name(), "jmp(r)");
    assert_eq!(Opcode::Li.name(), "li");
    assert_eq!(Condition::Equal.name(), "beq");
    assert_eq!(Condition::GreaterThanEqual.name(), "bge");
    assert_eq!(Condition::LessThan.code(), 2);
    assert_eq!(Condition::from_code(1), Condition::NotEqual);
}

#[test]
fn alu_layout() {
    // [opcode:5][rs:3][rt:4][rd:4]
    assert_eq!(encode_alu_instruction(Opcode::Sub, 0x3, 0xa, 0x5), 0b00001_101_1010_0011);
    assert_eq!(encode_instruction(Instruction::Alu(Opcode::Shr, 15, 15, 7)), 0x3fff);
    assert_eq!(encode_instruction(Instruction::Alu(Opcode::Add, 2, 2, 1)), 0x0122);
}

#[test]
fn mem_layout() {
    // [opcode:5][offset:3][rt:4][rd:4]
    assert_eq!(encode_mem_instruction(Opcode::Lw, 0x1, 0x2, 0x7), 0b10000_111_0010_0001);
    assert_eq!(encode_instruction(Instruction::Mem(Opcode::Sw, 3, 15, 0)), 0xc0f3);
}

#[test]
fn branch_layout() {
    // [opcode:5][condition:2][offset:9]
    assert_eq!(
        encode_instruction(Instruction::Branch(Condition::LessThan, 0x1ff)),
        0b11100_10_111111111
    );
    assert_eq!(encode_instruction(Instruction::Branch(Condition::Equal, 0)), 0xe000);
    assert_eq!(encode_instruction(Instruction::Branch(Condition::NotEqual, 1)), 0xe201);
}

#[test]
fn jump_layouts() {
    // [opcode:5][offset:11]
    assert_eq!(encode_instruction(Instruction::Jump(0x7ff)), 0b11101_11111111111);
    assert_eq!(encode_instruction(Instruction::Jump(5)), 0xe805);
    // [opcode:5][register:4], low bits zero
    assert_eq!(encode_instruction(Instruction::JumpReg(0b1001)), 0b11111_1001_0000000);
}

#[test]
fn li_layout() {
    // [opcode:5][register:3][value:8]
    assert_eq!(encode_instruction(Instruction::Li(0b101, 0xc3)), 0b10100_101_11000011);
    assert_eq!(encode_instruction(Instruction::Li(1, 4)), 0xa104);
}

#[test]
fn nop_is_the_zero_word() {
    assert_eq!(encode_instruction(Instruction::Nop), 0);
    assert_eq!(decode(0).unwrap(), Instruction::Alu(Opcode::Add, 0, 0, 0));
}

fn well_formed_instructions() -> Vec<Instruction> {
    let mut all = Vec::new();
    let alu = [
        Opcode::Add,
        Opcode::Sub,
        Opcode::Or,
        Opcode::And,
        Opcode::Xor,
        Opcode::Not,
        Opcode::Shl,
        Opcode::Shr,
    ];
    for rd in 0..16 {
        for rt in 0..16 {
            for low in 0..8 {
                for op in alu {
                    all.push(Instruction::Alu(op, rd, rt, low));
                }
                all.push(Instruction::Mem(Opcode::Lw, rd, rt, low));
                all.push(Instruction::Mem(Opcode::Sw, rd, rt, low));
            }
        }
    }
    let conditions = [
        Condition::Equal,
        Condition::NotEqual,
        Condition::LessThan,
        Condition::GreaterThanEqual,
    ];
    for off in 0..512 {
        for cond in conditions {
            all.push(Instruction::Branch(cond, off));
        }
    }
    for off in 0..2048 {
        all.push(Instruction::Jump(off));
    }
    for reg in 0..16 {
        all.push(Instruction::JumpReg(reg));
    }
    for reg in 0..8 {
        for val in 0..256 {
            all.push(Instruction::Li(reg, val));
        }
    }
    all
}

#[test]
fn decoding_gives_the_instruction_back() {
    for instr in well_formed_instructions() {
        let word = encode_instruction(instr);
        assert_eq!(decode(word).unwrap(), instr);
        assert_eq!(disassemble(word).unwrap(), instr.to_text());
    }
}

#[test]
fn every_word_decodes_or_has_an_unknown_opcode() {
    let known = [0u16, 1, 2, 3, 4, 5, 6, 7, 16, 24, 28, 29, 31, 20];
    for word in 0..=u16::MAX {
        let top = word >> 11;
        match decode(word) {
            Ok(instr) => {
                assert!(known.contains(&top));
                match instr {
                    // The low seven bits of a jump through a register are not read.
                    Instruction::JumpReg(_) => {
                        assert_eq!(encode_instruction(instr), word & 0xff80)
                    }
                    _ => assert_eq!(encode_instruction(instr), word),
                }
            }
            Err(e) => {
                assert!(!known.contains(&top));
                assert_eq!(e.0, format!("Unknown opcode: {:#06x}", top));
            }
        }
    }
}

#[test]
fn disassembled_lines() {
    assert_eq!(disassemble(0x0122).unwrap(), "add r2, r2, r1");
    assert_eq!(disassemble(0x09ff).unwrap(), "sub r15, r15, r1");
    assert_eq!(disassemble(0xc0f3).unwrap(), "sw r3, r15, 0");
    assert_eq!(disassemble(0b10000_111_0010_0001).unwrap(), "lw r1, r2, 7");
    assert_eq!(disassemble(0xa104).unwrap(), "li r1, 4");
    assert_eq!(disassemble(0xe201).unwrap(), "bne 1");
    assert_eq!(disassemble(0b11100_00_111111111).unwrap(), "beq 511");
    assert_eq!(disassemble(0b11100_10_000000000).unwrap(), "blt 0");
    assert_eq!(disassemble(0b11100_11_000001010).unwrap(), "bge 10");
    assert_eq!(disassemble(0b11101_11111111111).unwrap(), "jmp 2047");
    assert_eq!(disassemble(0b11111_1100_0000000).unwrap(), "jmp r12");
    assert_eq!(disassemble(0b00101_000_0010_0001).unwrap(), "not r1, r2, r0");
    assert_eq!(disassemble(0).unwrap(), "add r0, r0, r0");
    assert_eq!(Instruction::Nop.to_text(), "nop");
}

#[test]
fn disassemble_unknown_opcode() {
    let e: InvalidInstruction = disassemble(0b01000_000_0000_0000).unwrap_err();
    assert_eq!(e.0, "Unknown opcode: 0x0008");
}

#[test]
fn words_are_written_most_significant_byte_first() {
    assert_eq!(words_to_bytes(&[0x0122, 0xe202]), vec![0x01, 0x22, 0xe2, 0x02]);
    assert_eq!(words_to_bytes(&[]), Vec::<u8>::new());
    assert_eq!(words_to_bytes(&[0xffff, 0x00ff, 0xff00]), vec![0xff, 0xff, 0, 0xff, 0xff, 0]);
}

#[test]
fn bytes_are_read_most_significant_byte_first() {
    assert_eq!(bytes_to_words(&[0x01, 0x22, 0xe2, 0x02]).unwrap(), vec![0x0122, 0xe202]);
    assert_eq!(bytes_to_words(&[]).unwrap(), Vec::<u16>::new());
    let words: Vec<u16> = vec![0, 1, 0x8000, 0xffff, 0x1234];
    assert_eq!(bytes_to_words(&words_to_bytes(&words)).unwrap(), words);
}

#[test]
fn odd_byte_stream_is_malformed() {
    assert_eq!(bytes_to_words(&[0x01]).unwrap_err(), DisasmError::MalformedByteStream);
    assert_eq!(disassemble_bytes(&[0x01]).unwrap_err(), DisasmError::MalformedByteStream);
    assert_eq!(
        disassemble_bytes(&[0x01, 0x22, 0xe2]).unwrap_err(),
        DisasmError::MalformedByteStream
    );
    // The length is looked at before any word: these bytes hold no operation code.
    assert_eq!(
        disassemble_bytes(&[0x40, 0x00, 0x40]).unwrap_err(),
        DisasmError::MalformedByteStream
    );
}

#[test]
fn byte_stream_is_disassembled_line_by_line() {
    assert_eq!(
        disassemble_bytes(&[0xa1, 0x04, 0x09, 0xff, 0xc0, 0xf3]).unwrap(),
        vec!["li r1, 4", "sub r15, r15, r1", "sw r3, r15, 0"]
    );
    assert_eq!(disassemble_bytes(&[]).unwrap(), Vec::<String>::new());
}

#[test]
fn first_unknown_opcode_of_a_stream_is_reported() {
    assert_eq!(
        disassemble_bytes(&[0x01, 0x22, 0x48, 0x01, 0x50, 0x02]).unwrap_err(),
        DisasmError::UnknownOpcode(0x4801)
    );
}
