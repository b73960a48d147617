use chip8::c8core::timer::Timer;
use chip8::memory::Memory;
use chip8::peripherals::input::InputState;
use chip8::peripherals::screen::Screen;

#[test]
fn test_memory_dump() {
    let mut memory = Memory::new();
    memory.write_data_at_offset(0, &[0xAB, 0x01]);
    memory.set_pointer(0x0234);
    let text = memory.dump_text();
    let lines: Vec<&str> = text.split('\n').collect();
    // Header, separator, 64 rows, separator, header, pointer, and the end.
    assert_eq!(lines.len(), 70);
    assert!(lines[0].starts_with("                00 02 04 06"));
    assert!(lines[0].ends_with("7C 7E "));
    assert_eq!(lines[1], format!("{}{}", " ".repeat(16), "-".repeat(192)));
    assert!(lines[2].starts_with("    0000-0040 | AB 01 00 "));
    assert!(lines[65].starts_with("    0FC0-1000 | 00 "));
    assert_eq!(lines[68], "    PC: 0234");
    assert_eq!(lines[69], "");
}

#[test]
fn test_screen_dump() {
    let mut screen = Screen::new();
    screen.toggle_pixel_xy(1, 0);
    let text = screen.dump_screen();
    let lines: Vec<&str> = text.split('\n').collect();
    assert_eq!(lines[0], "    -> size: 64 x 32");
    assert_eq!(lines[1], format!("     \u{2588}{}", " ".repeat(62)));
    assert_eq!(lines.len(), 34);
}

#[test]
fn test_input_dump_and_timer_text() {
    let mut input = InputState::new();
    input.press(0xC);
    let text = input.dump_text();
    let lines: Vec<&str> = text.split('\n').collect();
    assert_eq!(lines[0], "    K0: 0");
    assert_eq!(lines[12], "    KC: 1");
    assert_eq!(lines[16], "    LK: 12");
    let mut timer = Timer::new("Delay".to_owned());
    timer.reset(0x3A);
    assert_eq!(timer.debug_text(), "3A");
    let old = chip8::input::InputState::new();
    assert!(old.dump_text().ends_with("    LK: 255\n"));
}
