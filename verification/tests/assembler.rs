use chip8::c8core::assembler::{
    opcode_enum_to_addr, resolve_instruction, words_to_opcode, Assembler, AsmError, Instruction,
};
use chip8::c8core::opcodes::OpCode;

#[test]
fn test_assemble_from_str() {
    let example = "JP 020E\nJP 010A";
    let assembler = Assembler::from_string(example);
    let data = assembler.assemble_data().unwrap();

    assert_eq!(data, vec![0x12, 0x0E, 0x11, 0x0A]);
}

#[test]
fn test_assemble_line_from_str() {
    let full_example = r#"0200| (120E)  JP 020E           ; jumping to address 020E"#;
    let lite_example = r#"0200| JP 020E            ; jumping to address 020E"#;
    let small_example = r#"JP 020E     ;   test"#;
    let minimal_example = r#"JP 020E"#;
    let comment_example = r#"; toto"#;
    let comment2_example = r#";   toto"#;

    let assembler = Assembler::new();
    assert_eq!(
        assembler.assemble_line_from_str(full_example),
        Some(Instruction {
            line: Some(0x0200),
            opcode: Some(0x120E),
            words: "JP 020E".to_owned(),
            comment: Some("jumping to address 020E".to_owned())
        })
    );
    assert_eq!(
        assembler.assemble_line_from_str(lite_example),
        Some(Instruction {
            line: Some(0x0200),
            opcode: None,
            words: "JP 020E".to_owned(),
            comment: Some("jumping to address 020E".to_owned())
        })
    );
    assert_eq!(
        assembler.assemble_line_from_str(small_example),
        Some(Instruction {
            line: None,
            opcode: None,
            words: "JP 020E".to_owned(),
            comment: Some("test".to_owned())
        })
    );
    assert_eq!(
        assembler.assemble_line_from_str(minimal_example),
        Some(Instruction {
            line: None,
            opcode: None,
            words: "JP 020E".to_owned(),
            comment: None
        })
    );
    assert_eq!(assembler.assemble_line_from_str(comment_example), None);
    assert_eq!(assembler.assemble_line_from_str(comment2_example), None);

    let test_str = "0254| (F065)  LD V0, [I]           ; read registers V0 through V0 from memory starting at location I";
    assert_eq!(
        assembler.assemble_line_from_str(test_str),
        Some(Instruction {
            line: Some(0x0254),
            opcode: Some(0xF065),
            words: "LD V0, [I]".to_owned(),
            comment: Some(
                "read registers V0 through V0 from memory starting at location I".to_owned()
            )
        })
    );

    assert_eq!(
        assembler.assemble_line_from_str("0000|*(F065)  LD V0, [I] ; toto"),
        Some(Instruction {
            line: Some(0x0000),
            opcode: Some(0xF065),
            words: "LD V0, [I]".to_owned(),
            comment: Some("toto".to_owned())
        })
    );
}

#[test]
fn test_instruction_resolution() {
    assert_eq!(resolve_instruction("JP 020E").unwrap(), 0x120E);
    assert!(resolve_instruction("JPP 020E").is_err());

    let inst = Instruction {
        line: None,
        opcode: None,
        words: "JP 020E".to_owned(),
        comment: None,
    };

    assert_eq!(inst.resolve().unwrap(), 0x120E);

    let inst = Instruction {
        line: None,
        opcode: None,
        words: "SCRD 1".to_owned(),
        comment: None,
    };
    assert_eq!(inst.resolve().unwrap(), 0x00C1);
}

#[test]
fn test_words_to_opcode() {
    assert!(words_to_opcode("SYS").is_err());
    assert_eq!(words_to_opcode("SYS 0201").unwrap(), OpCode::SYS(0x0201));
    assert_eq!(words_to_opcode("CLS").unwrap(), OpCode::CLS);
    assert_eq!(words_to_opcode("RET").unwrap(), OpCode::RET);
    assert_eq!(words_to_opcode("CALL 0201").unwrap(), OpCode::CALL(0x0201));

    assert_eq!(words_to_opcode("SE V1, V2").unwrap(), OpCode::SE(0x1, 0x2));
    assert_eq!(
        words_to_opcode("SE V1, 56").unwrap(),
        OpCode::SEByte(0x1, 0x56)
    );
    assert_eq!(
        words_to_opcode("SNE V1, V2").unwrap(),
        OpCode::SNE(0x1, 0x2)
    );
    assert_eq!(
        words_to_opcode("SNE V1, 56").unwrap(),
        OpCode::SNEByte(0x1, 0x56)
    );
    assert_eq!(words_to_opcode("LD V1, V2").unwrap(), OpCode::LD(0x1, 0x2));
    assert_eq!(
        words_to_opcode("LD V1, 56").unwrap(),
        OpCode::LDByte(0x1, 0x56)
    );
    assert_eq!(
        words_to_opcode("ADD V1, V2").unwrap(),
        OpCode::ADD(0x1, 0x2)
    );
    assert_eq!(
        words_to_opcode("ADD V1, 56").unwrap(),
        OpCode::ADDByte(0x1, 0x56)
    );
    assert_eq!(
        words_to_opcode("SUB V1, V2").unwrap(),
        OpCode::SUB(0x1, 0x2)
    );
    assert_eq!(
        words_to_opcode("SUBN V1, V2").unwrap(),
        OpCode::SUBN(0x1, 0x2)
    );
    assert_eq!(words_to_opcode("OR V1, V2").unwrap(), OpCode::OR(0x1, 0x2));
    assert_eq!(
        words_to_opcode("AND V1, V2").unwrap(),
        OpCode::AND(0x1, 0x2)
    );
    assert_eq!(
        words_to_opcode("XOR V1, V2").unwrap(),
        OpCode::XOR(0x1, 0x2)
    );
    assert_eq!(words_to_opcode("SHR V1").unwrap(), OpCode::SHR(0x1, 0x0));
    assert_eq!(words_to_opcode("SHL V1").unwrap(), OpCode::SHL(0x1, 0x0));
    assert_eq!(
        words_to_opcode("SNE V1, V2").unwrap(),
        OpCode::SNE(0x1, 0x2)
    );
    assert_eq!(words_to_opcode("LDI 0202").unwrap(), OpCode::LDI(0x0202));
    assert_eq!(words_to_opcode("JP V0, 0202").unwrap(), OpCode::JP0(0x0202));

    assert_eq!(
        words_to_opcode("RND V1, 56").unwrap(),
        OpCode::RND(0x1, 0x56)
    );
    assert_eq!(
        words_to_opcode("DRW V1, V2, 56").unwrap(),
        OpCode::DRW(0x1, 0x2, 0x56)
    );
    assert_eq!(words_to_opcode("SKP V1").unwrap(), OpCode::SKP(0x1));
    assert_eq!(words_to_opcode("SKNP V1").unwrap(), OpCode::SKNP(0x1));
    assert_eq!(
        words_to_opcode("LD V1, DT").unwrap(),
        OpCode::LDGetDelayTimer(0x1)
    );
    assert_eq!(words_to_opcode("LD V1, K").unwrap(), OpCode::LDGetKey(0x1));
    assert_eq!(
        words_to_opcode("LD DT, V1").unwrap(),
        OpCode::LDSetDelayTimer(0x1)
    );
    assert_eq!(
        words_to_opcode("LD ST, V1").unwrap(),
        OpCode::LDSetSoundTimer(0x1)
    );

    assert_eq!(words_to_opcode("ADD I, V1").unwrap(), OpCode::ADDI(0x1));
    assert_eq!(words_to_opcode("LD F, V1").unwrap(), OpCode::LDSprite(0x1));
    assert_eq!(words_to_opcode("LD B, V1").unwrap(), OpCode::LDBCD(0x1));
    assert_eq!(words_to_opcode("LD [I], V1").unwrap(), OpCode::LDS(0x1));
    assert_eq!(words_to_opcode("LD V1, [I]").unwrap(), OpCode::LDR(0x1));

    assert_eq!(words_to_opcode("SCRD 56").unwrap(), OpCode::SCRD(0x56));
    assert_eq!(words_to_opcode("SCRR").unwrap(), OpCode::SCRR);
    assert_eq!(words_to_opcode("SCRL").unwrap(), OpCode::SCRL);
    assert_eq!(words_to_opcode("EXIT").unwrap(), OpCode::EXIT);
    assert_eq!(words_to_opcode("LOW").unwrap(), OpCode::LOW);
    assert_eq!(words_to_opcode("HIGH").unwrap(), OpCode::HIGH);
    assert_eq!(
        words_to_opcode("DRWX V1, V2").unwrap(),
        OpCode::DRWX(0x1, 0x2)
    );
    assert_eq!(
        words_to_opcode("LDX F, V1").unwrap(),
        OpCode::LDXSprite(0x1)
    );
    assert_eq!(words_to_opcode("LDX [I], V1").unwrap(), OpCode::LDXS(0x1));
    assert_eq!(words_to_opcode("LDX V1, [I]").unwrap(), OpCode::LDXR(0x1));

    assert_eq!(words_to_opcode("EMPTY").unwrap(), OpCode::EMPTY);
    assert_eq!(words_to_opcode("DATA 0202").unwrap(), OpCode::DATA(0x0202));
}

#[test]
fn test_opcode_enum_to_addr() {
    assert_eq!(opcode_enum_to_addr(OpCode::SYS(0x020E)), 0x020E);
    assert_eq!(opcode_enum_to_addr(OpCode::CLS), 0x00E0);
    assert_eq!(opcode_enum_to_addr(OpCode::RET), 0x00EE);
    assert_eq!(opcode_enum_to_addr(OpCode::JP(0x020E)), 0x120E);
    assert_eq!(opcode_enum_to_addr(OpCode::CALL(0x020E)), 0x220E);
    assert_eq!(opcode_enum_to_addr(OpCode::SEByte(0x1, 0x56)), 0x3156);
    assert_eq!(opcode_enum_to_addr(OpCode::SNEByte(0x1, 0x56)), 0x4156);
    assert_eq!(opcode_enum_to_addr(OpCode::SE(0x1, 0x2)), 0x5120);
    assert_eq!(opcode_enum_to_addr(OpCode::LDByte(0x1, 0x56)), 0x6156);
    assert_eq!(opcode_enum_to_addr(OpCode::ADDByte(0x1, 0x56)), 0x7156);
    assert_eq!(opcode_enum_to_addr(OpCode::LD(0x1, 0x2)), 0x8120);
    assert_eq!(opcode_enum_to_addr(OpCode::OR(0x1, 0x2)), 0x8121);
    assert_eq!(opcode_enum_to_addr(OpCode::AND(0x1, 0x2)), 0x8122);
    assert_eq!(opcode_enum_to_addr(OpCode::XOR(0x1, 0x2)), 0x8123);
    assert_eq!(opcode_enum_to_addr(OpCode::ADD(0x1, 0x2)), 0x8124);
    assert_eq!(opcode_enum_to_addr(OpCode::SUB(0x1, 0x2)), 0x8125);
    assert_eq!(opcode_enum_to_addr(OpCode::SHR(0x1, 0x2)), 0x8126);
    assert_eq!(opcode_enum_to_addr(OpCode::SUBN(0x1, 0x2)), 0x8127);
    assert_eq!(opcode_enum_to_addr(OpCode::SHL(0x1, 0x2)), 0x812E);
    assert_eq!(opcode_enum_to_addr(OpCode::SNE(0x1, 0x2)), 0x9120);
    assert_eq!(opcode_enum_to_addr(OpCode::LDI(0x020E)), 0xA20E);
    assert_eq!(opcode_enum_to_addr(OpCode::JP0(0x020E)), 0xB20E);
    assert_eq!(opcode_enum_to_addr(OpCode::RND(0x1, 0x56)), 0xC156);
    assert_eq!(opcode_enum_to_addr(OpCode::DRW(0x1, 0x2, 0x8)), 0xD128);
    assert_eq!(opcode_enum_to_addr(OpCode::SKP(0x1)), 0xE19E);
    assert_eq!(opcode_enum_to_addr(OpCode::SKNP(0x1)), 0xE1A1);
    assert_eq!(opcode_enum_to_addr(OpCode::LDGetDelayTimer(0x1)), 0xF107);
    assert_eq!(opcode_enum_to_addr(OpCode::LDGetKey(0x1)), 0xF10A);
    assert_eq!(opcode_enum_to_addr(OpCode::LDSetDelayTimer(0x1)), 0xF115);
    assert_eq!(opcode_enum_to_addr(OpCode::LDSetSoundTimer(0x1)), 0xF118);
    assert_eq!(opcode_enum_to_addr(OpCode::ADDI(0x1)), 0xF11E);
    assert_eq!(opcode_enum_to_addr(OpCode::LDSprite(0x1)), 0xF129);
    assert_eq!(opcode_enum_to_addr(OpCode::LDBCD(0x1)), 0xF133);
    assert_eq!(opcode_enum_to_addr(OpCode::LDS(0x1)), 0xF155);
    assert_eq!(opcode_enum_to_addr(OpCode::LDR(0x1)), 0xF165);
    assert_eq!(opcode_enum_to_addr(OpCode::SCRD(0x1)), 0x00C1);
    assert_eq!(opcode_enum_to_addr(OpCode::SCRR), 0x00FB);
    assert_eq!(opcode_enum_to_addr(OpCode::SCRL), 0x00FC);
    assert_eq!(opcode_enum_to_addr(OpCode::EXIT), 0x00FD);
    assert_eq!(opcode_enum_to_addr(OpCode::LOW), 0x00FE);
    assert_eq!(opcode_enum_to_addr(OpCode::HIGH), 0x00FF);
    assert_eq!(opcode_enum_to_addr(OpCode::DRWX(0x1, 0x2)), 0xD120);
    assert_eq!(opcode_enum_to_addr(OpCode::LDXSprite(0x1)), 0xF130);
    assert_eq!(opcode_enum_to_addr(OpCode::LDXS(0x1)), 0xF175);
    assert_eq!(opcode_enum_to_addr(OpCode::LDXR(0x1)), 0xF185);
    assert_eq!(opcode_enum_to_addr(OpCode::EMPTY), 0x0000);
    assert_eq!(opcode_enum_to_addr(OpCode::DATA(0x9999)), 0x9999);
}

#[test]
fn test_assemble_errors() {
    let assembler = Assembler::from_string("JP 020E\nFOO 1234\nJP 010A");
    assert_eq!(assembler.assemble_data(), Err(AsmError::UnknownInstruction));
    let assembler = Assembler::from_string("SE V1");
    assert_eq!(assembler.assemble_data(), Err(AsmError::MissingSecondArgument));
    assert_eq!(words_to_opcode("CALL V1"), Err(AsmError::ShouldBeAddress));
    assert_eq!(words_to_opcode("SKP 0201"), Err(AsmError::ShouldBeRegister));
    assert_eq!(words_to_opcode("RND V1, V2"), Err(AsmError::ShouldBeByte));
    assert_eq!(words_to_opcode("DRW V1, V2"), Err(AsmError::MissingThirdArgument));
    assert_eq!(words_to_opcode("LDX V1, V2"), Err(AsmError::UnknownLdxInstruction));
    assert_eq!(words_to_opcode("JP"), Err(AsmError::MissingFirstArgument));
    assert_eq!(words_to_opcode("CALL"), Err(AsmError::MissingArgument));
    assert_eq!(words_to_opcode("SE ABCDE, V1"), Err(AsmError::BadInstruction));
    assert_eq!(words_to_opcode("123"), Err(AsmError::EmptyInstruction));
}

#[test]
fn test_assemble_listing_round_trip() {
    // A disassembly listing assembles back to the bytes it was made from.
    let listing = "0200| (00E0)  CLS                  ; clearing screen\n0202| (6300)  LD V3, 00            ; set V3 = 00\n";
    let assembler = Assembler::from_string(listing);
    assert_eq!(assembler.assemble_data().unwrap(), vec![0x00, 0xE0, 0x63, 0x00]);
    let cartridge = assembler.assemble_cartridge().unwrap();
    assert_eq!(cartridge.get_data(), &[0x00, 0xE0, 0x63, 0x00]);
    assert_eq!(cartridge.get_title(), "<EMPTY>");
}

#[test]
fn test_assemble_empty_and_comments() {
    let assembler = Assembler::new();
    assert_eq!(assembler.assemble_data().unwrap(), Vec::<u8>::new());
    let assembler = Assembler::from_string("; only a comment\n\n");
    assert_eq!(assembler.assemble_data().unwrap(), Vec::<u8>::new());
    // A line of spaces holds an empty instruction.
    let assembler = Assembler::from_string("CLS\n   \n");
    assert_eq!(assembler.assemble_data(), Err(AsmError::EmptyInstruction));
}

#[test]
fn test_encode_decode_opcodes() {
    // Every value decodes to an opcode that encodes back to it.
    for v in [0x00E0u16, 0x00EE, 0x120E, 0x3156, 0x8124, 0xD128, 0xF165, 0x00C1, 0xF185, 0xA20E] {
        let op = chip8::c8core::opcodes::get_opcode_enum(v);
        assert_eq!(opcode_enum_to_addr(op), v);
    }
}

#[test]
fn test_prefixed_address_argument() {
    assert_eq!(words_to_opcode("JP 0x1F").unwrap(), OpCode::JP(0x1F));
    assert_eq!(resolve_instruction("CALL 0x2A").unwrap(), 0x202A);
}

#[test]
fn test_accepted_sources() {
    use_checks();
}

fn use_checks() {
    // A four-letter argument that is not hexadecimal cannot be read.
    assert!(!chip8::c8core::assembler::instruction_accepted("JP ZZZZ"));
    assert!(chip8::c8core::assembler::instruction_accepted("JP 020E"));
    assert!(chip8::c8core::assembler::instruction_accepted("JP 0x1F"));
    assert!(!chip8::c8core::assembler::instruction_accepted("JP 0xZZ"));
    // Rejected instructions are still accepted: they give an error.
    assert!(chip8::c8core::assembler::instruction_accepted("FOO 1234"));
    // An opcode whose operands overflow its encoding cannot be resolved.
    assert!(!chip8::c8core::assembler::instruction_accepted("JP FFFF"));
    assert!(chip8::c8core::assembler::listing_fields_parse("0200| (120E) JP 020E"));
    assert!(!chip8::c8core::assembler::listing_fields_parse("02Z0| JP 020E"));
    assert!(Assembler::from_string("CLS\nJP 020E").accepts());
    assert!(!Assembler::from_string("CLS\nJP GGGG").accepts());
    // Assembly stops at the first rejected instruction.
    assert!(Assembler::from_string("FOO\nJP GGGG").accepts());
    assert!(chip8::debugger::console::command_is_accepted("l 12"));
    assert!(!chip8::debugger::console::command_is_accepted("l x"));
    assert!(!chip8::debugger::console::command_is_accepted("rmem 0200 -1"));
    assert!(chip8::debugger::console::command_is_accepted("rmem ZZ x"));
}
