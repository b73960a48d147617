use chip8::peripherals::cartridge::{
    game_name_from_stem, is_game_extension, replace_underscores, Cartridge, EMPTY_GAME_NAME,
};

#[test]
fn test_load_from_string() {
    let example: &[u8] = b"\x00\xE0\x63\x00";
    let cartridge = Cartridge::load_from_string("Test", "", example);
    assert!(cartridge.is_ok());

    let cartridge = cartridge.unwrap();
    let mut disasm_raw = Vec::new();
    cartridge.write_disassembly_to_stream(&mut disasm_raw);
    let disasm_str = ::std::str::from_utf8(&disasm_raw).unwrap();
    let disasm_lines: Vec<_> = disasm_str.split("\n").collect();

    assert_eq!(
        disasm_lines[0],
        "0200| (00E0)  CLS                  ; clearing screen"
    );
    assert_eq!(
        disasm_lines[1],
        "0202| (6300)  LD V3, 00            ; set V3 = 00"
    );
}

#[test]
fn cartridge_test_load_from_string() {
    let example: &[u8] = b"\x00\xE0\x63\x00";
    let cartridge = chip8::cartridge::Cartridge::load_from_string("Test", example);
    assert!(cartridge.is_ok());

    let cartridge = cartridge.unwrap();
    let mut disasm_raw = Vec::new();
    cartridge.write_disassembly_to_stream(&mut disasm_raw);
    let disasm_str = ::std::str::from_utf8(&disasm_raw).unwrap();

    let disasm_lines: Vec<_> = disasm_str.split("\n").collect();
    println!("{:?}", disasm_lines);

    assert_eq!(
        disasm_lines[0],
        "0200| (00E0)  CLS                  ; Clearing screen"
    );
    assert_eq!(
        disasm_lines[1],
        "0202| (6300)  LD V3, 00            ; Set V3 = 00"
    );
}

#[test]
fn test_game_name() {
    assert_eq!(Cartridge::get_game_name("TOTO.ch8"), String::from("TOTO"));
    assert_eq!(Cartridge::get_game_name("TEST/TOTO.ch8"), String::from("TOTO"));
    assert_eq!(
        Cartridge::get_game_name("TEST/TOTO_TUTU.c8k"),
        String::from("TOTO TUTU")
    );
    assert_eq!(Cartridge::get_game_name("SUPERCHIP/TOTO"), String::from("TOTO"));
    assert_eq!(Cartridge::get_game_name(""), String::from(EMPTY_GAME_NAME));
}

#[test]
fn test_game_extension() {
    assert!(Cartridge::check_game_extension("TOTO.ch8"));
    assert!(Cartridge::check_game_extension("TEST/TOTO"));
    assert!(!Cartridge::check_game_extension("TOTO.c8k"));
    assert!(!Cartridge::check_game_extension("TOTO.txt"));
    assert!(!Cartridge::check_game_extension("TEST/TOTO.c8k"));
    assert!(!Cartridge::check_game_extension("TEST/TOTO.bat"));
    assert!(!Cartridge::check_game_extension(""));
}

#[test]
fn test_game_name_parts() {
    assert_eq!(replace_underscores("A_B__C"), "A B  C");
    assert_eq!(game_name_from_stem(Some("pong_2")), "PONG 2");
    assert_eq!(game_name_from_stem(None), EMPTY_GAME_NAME);
    assert!(is_game_extension(None));
    assert!(is_game_extension(Some("CH8")));
    assert!(!is_game_extension(Some("Ch8")));
    assert!(Cartridge::check_game_extension("games/.hidden"));
    assert!(!Cartridge::check_game_extension("games/dot."));
    assert!(Cartridge::check_game_extension("archive.tar.ch8"));
    assert_eq!(Cartridge::get_game_name("archive.tar.ch8"), "ARCHIVE.TAR");
    assert_eq!(Cartridge::get_game_name("dir/.hidden"), ".HIDDEN");
    assert_eq!(Cartridge::get_game_name("a/b/lower_case.ch8"), "LOWER CASE");
}

#[test]
fn test_disassemble_odd_length() {
    // A last byte on its own reads as the high byte of an opcode.
    let cartridge = Cartridge::load_from_string("Odd", "odd.ch8", &[0x12, 0x0E, 0x00]).unwrap();
    let (code, assembly, verbose) = cartridge.disassemble();
    assert_eq!(code, vec![0x120E, 0x0000]);
    assert_eq!(assembly[0], "JP 020E");
    assert_eq!(verbose[0], "jumping to address 020E");
    assert_eq!(cartridge.get_path(), "odd.ch8");
    assert_eq!(cartridge.get_title(), "Odd");
}

#[test]
fn test_cartridge_data() {
    let mut cartridge = Cartridge::new_empty();
    assert_eq!(cartridge.get_title(), EMPTY_GAME_NAME);
    assert_eq!(cartridge.get_path(), "");
    assert!(cartridge.get_data().is_empty());
    cartridge.set_data(vec![1, 2, 3]);
    assert_eq!(cartridge.get_data(), &[1, 2, 3]);
}

#[test]
fn test_schip_listing_marker() {
    let cartridge = Cartridge::load_from_string("S", "", &[0x00, 0xFF]).unwrap();
    let mut out = Vec::new();
    cartridge.write_disassembly_to_stream(&mut out);
    let text = String::from_utf8(out).unwrap();
    assert!(text.starts_with("0200|*(00FF)  HIGH"));
}

#[test]
fn test_game_name_of_plain_names() {
    assert_eq!(Cartridge::get_game_name("space_invaders.ch8"), String::from("SPACE INVADERS"));
    assert_eq!(Cartridge::get_game_name(".hidden"), String::from(".HIDDEN"));
    assert_eq!(Cartridge::get_game_name("pong."), String::from("PONG"));
    assert_eq!(Cartridge::get_game_name("a.b.c8"), String::from("A.B"));
    assert!(Cartridge::check_game_extension("pong.CH8"));
    assert!(Cartridge::check_game_extension(".ch8"));
    assert!(!Cartridge::check_game_extension("pong."));
    assert!(!Cartridge::check_game_extension("pong.Ch8"));
}
