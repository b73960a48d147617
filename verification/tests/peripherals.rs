use chip8::memory::{Memory, INITIAL_MEMORY_POINTER, MEMORY_SIZE};
use chip8::peripherals::input::{InputLock, InputState, INPUT_EMPTY_KEY};
use chip8::peripherals::screen::{Screen, ScreenMode, VIDEO_MEMORY_SIZE};
use chip8::c8core::timer::Timer;
use chip8::emulator::plan_step;

#[test]
fn test_memory_write_read() {
    let mut memory = Memory::new();
    assert_eq!(memory.get_pointer(), INITIAL_MEMORY_POINTER);
    assert_eq!(memory.read_data_at_offset(0, 4), &[0, 0, 0, 0]);
    memory.write_data_at_offset(0x300, &[1, 2, 3]);
    assert_eq!(memory.read_data_at_offset(0x300, 3), &[1, 2, 3]);
    assert_eq!(memory.read_byte_at_offset(0x2FF), 0);
    memory.write_byte_at_offset(0x0FFF, 0xAB);
    assert_eq!(memory.read_byte_at_offset(0x0FFF), 0xAB);
    memory.set_pointer(0x300);
    memory.write_data_at_pointer(&[0x12, 0x34]);
    assert_eq!(memory.read_opcode(), 0x1234);
    memory.advance_pointer();
    assert_eq!(memory.get_pointer(), 0x302);
    assert_eq!(memory.read_opcode_at_address(0x301), 0x3403);
    // The last byte reads as the high byte of an opcode.
    assert_eq!(memory.read_opcode_at_address(0x0FFF), 0xAB00);
    memory.reset_pointer();
    assert_eq!(memory.get_pointer(), 0x200);
    let mut other = Memory::new();
    other.load_from_save(memory);
    assert_eq!(other.read_byte_at_offset(0x302), 3);
    other.reset();
    assert_eq!(other.read_byte_at_offset(0x302), 0);
    assert_eq!(other.read_data_at_offset(0, MEMORY_SIZE as u16).len(), MEMORY_SIZE);
}

#[test]
fn test_screen_draw_twice_restores() {
    let mut screen = Screen::new();
    let sprite = [0xF0u8, 0x90, 0x90, 0x90, 0xF0];
    assert!(!screen.draw_sprite(10, 5, &sprite));
    let drawn = screen.draw_sprite(10, 5, &sprite);
    assert!(drawn);
    let fresh = Screen::new();
    let mut a = Vec::new();
    let mut b = Vec::new();
    for y in 0..32usize {
        for x in 0..64usize {
            let pos = x + y * 64;
            let mut s1 = Screen::new();
            s1.load_from_save(screen.data.clone());
            a.push(s1.toggle_pixel(pos));
            let mut s2 = Screen::new();
            s2.load_from_save(fresh.data.clone());
            b.push(s2.toggle_pixel(pos));
        }
    }
    assert_eq!(a, b);
}

#[test]
fn test_screen_wraps_and_collides() {
    let mut screen = Screen::new();
    // A pixel at the right edge wraps to the left edge.
    assert!(!screen.draw_sprite(63, 31, &[0xC0]));
    // Bit 7 at (63, 31), bit 6 at (0, 31).
    assert!(screen.toggle_pixel_xy(63, 31));
    assert!(screen.toggle_pixel_xy(0, 31));
    assert!(!screen.toggle_pixel(0));
    assert!(screen.toggle_pixel(0));
    assert!(!screen.is_scrolling());
}

#[test]
fn test_screen_modes() {
    let mut screen = Screen::new();
    screen.reload_screen_for_mode(ScreenMode::Extended);
    // Extended screen is 128 pixels wide.
    assert!(!screen.draw_sprite(127, 63, &[0x80]));
    assert!(screen.toggle_pixel_xy(127, 63));
    assert!(!screen.toggle_pixel(127 + 63 * 128));
    screen.clear_screen();
    assert!(!screen.toggle_pixel(127 + 63 * 128));
    screen.reset();
    assert!(!screen.toggle_pixel(VIDEO_MEMORY_SIZE - 1));
}

#[test]
fn test_fade_pixels() {
    let mut screen = Screen::new();
    screen.toggle_pixel(0);
    screen.toggle_pixel(0);
    // Pixel 0 is off with alpha 255: it fades; pixel 1 is lit and keeps its alpha.
    screen.toggle_pixel(1);
    screen.fade_pixels();
    screen.fade_pixels();
    let mut check = Screen::new();
    check.load_from_save(screen.data.clone());
    assert!(!check.toggle_pixel(0));
    assert!(check.toggle_pixel(1));
}

#[test]
fn test_fade_matches_float_coefficient() {
    // An alpha of 255 fades as (255 * 0.8) as u8, step after step.
    for alpha in 0u16..=255 {
        let a = alpha as u8;
        let expected = (f32::from(a) * 0.8f32) as u8;
        assert_eq!((a as u16 * 4 / 5) as u8, expected);
    }
}

#[test]
fn test_timer() {
    let mut timer = Timer::new("Sound".to_owned());
    assert_eq!(timer.get_value(), 0);
    assert!(!timer.decrement());
    assert_eq!(timer.get_value(), 0);
    timer.reset(2);
    assert_eq!(timer.get_value(), 2);
    assert!(!timer.decrement());
    assert!(timer.decrement());
    assert_eq!(timer.get_value(), 0);
    let mut delay = Timer::new("Delay".to_owned());
    delay.reset(1);
    assert!(!delay.decrement());
    delay.load_from_save(timer.clone());
    assert_eq!(delay.get_value(), 0);
    delay.reset(1);
    assert!(delay.decrement());
    assert_eq!(delay.reset(7).get_value(), 7);
}

#[test]
fn test_input_lock() {
    let mut lock = InputLock::new();
    assert!(!lock.is_locked());
    assert!(lock.lock(3));
    assert!(!lock.lock(4));
    assert!(lock.is_locked());
    assert!(!lock.is_key_set());
    lock.set_key(7);
    assert!(lock.is_key_set());
    assert!(lock.unlock());
    assert!(!lock.unlock());
    assert!(!lock.is_key_set());
    lock.lock(1);
    lock.reset();
    assert!(!lock.is_locked());
}

#[test]
fn test_input_state_wait_for_key() {
    let mut input = InputState::new();
    assert_eq!(input.get_last_pressed_key(), INPUT_EMPTY_KEY);
    input.wait_for_input(5);
    assert!(input.is_locked());
    assert!(!input.is_lock_key_set());
    input.press(0xA);
    assert_eq!(input.get(0xA), 1);
    assert!(input.is_lock_key_set());
    assert_eq!(input.get_lock_key(), 0xA);
    assert_eq!(input.get_lock_register(), 5);
    input.press(0xB);
    assert_eq!(input.get_lock_key(), 0xA);
    assert!(input.unlock());
    assert!(!input.is_locked());
    input.release(0xA);
    assert_eq!(input.get(0xA), 0);
    assert_eq!(input.get(0xB), 1);
    assert_eq!(input.get_last_pressed_key(), INPUT_EMPTY_KEY);
    assert_eq!(input.get_data().len(), 16);
    let mut other = InputState::new();
    other.load_from_save(input.clone());
    assert_eq!(other.get(0xB), 1);
    other.reset();
    assert_eq!(other.get(0xB), 0);
}

#[test]
fn test_old_input_state() {
    let mut input = chip8::input::InputState::new();
    input.press(3);
    assert_eq!(input.get(3), 1);
    assert_eq!(input.wait_for_input(), 3);
    input.release(3);
    assert_eq!(input.get_last_pressed_key(), 0xFF);
    input.data.flags.should_close = true;
    input.reset();
    assert!(!input.data.flags.should_close);
    assert_eq!(input.get_data(), &[0u8; 16]);
}

#[test]
fn test_board_and_colors() {
    let board = chip8::peripherals::Peripherals::new();
    assert_eq!(board.memory.get_pointer(), 0x200);
    assert_eq!(board.input.get_last_pressed_key(), INPUT_EMPTY_KEY);
    assert!(!board.screen.is_scrolling());
    assert_eq!(chip8::peripherals::screen::color_from_byte(0, 42), (42, 42, 42));
    assert_eq!(chip8::peripherals::screen::color_from_byte(1, 42), (255, 255, 255));
}

#[test]
fn test_draw_sprite_toggles_covered_pixels() {
    let mut screen = Screen::new();
    assert!(!screen.draw_sprite(0, 0, &[0xF0]));
    // Columns 2 to 5 are covered; 2 and 3 were lit, so they collide and go off.
    assert!(screen.draw_sprite(0, 0, &[0x3C]));
    let lit: Vec<bool> = (0..8usize).map(|x| screen.toggle_pixel_xy(x, 0)).collect();
    assert_eq!(lit, vec![true, true, false, false, true, true, false, false]);
    // A sprite that covers only unlit pixels reports no collision.
    let mut screen = Screen::new();
    assert!(!screen.draw_sprite(0, 0, &[0xF0]));
    assert!(!screen.draw_sprite(0, 1, &[0xF0]));
    assert!(!screen.draw_sprite(4, 0, &[0xF0, 0xF0]));
}

#[test]
fn test_plan_step() {
    // No lock: the elapsed times decide.
    let mut input = InputState::new();
    let plan = plan_step(false, &mut input, 2, 15);
    assert!(!plan.wait_for_input && plan.set_register.is_none() && plan.execute && !plan.tick_timers);
    let plan = plan_step(false, &mut input, 1, 16);
    assert!(!plan.wait_for_input && !plan.execute && plan.tick_timers);
    let plan = plan_step(true, &mut input, 1, 0);
    assert!(plan.execute && !plan.tick_timers);
    let plan = plan_step(true, &mut input, 0, 0);
    assert!(!plan.execute);
    // A lock without a key: the emulator waits, whatever the time.
    input.wait_for_input(3);
    let plan = plan_step(false, &mut input, 100, 100);
    assert!(plan.wait_for_input && plan.set_register.is_none() && !plan.execute && !plan.tick_timers);
    assert!(input.is_locked());
    // The key comes: the register gets it and the lock is released.
    input.press(0xA);
    let plan = plan_step(false, &mut input, 100, 0);
    assert!(!plan.wait_for_input && plan.execute && !plan.tick_timers);
    assert_eq!(plan.set_register, Some((3, 0xA)));
    assert!(!input.is_locked());
    assert_eq!(input.get_lock_key(), INPUT_EMPTY_KEY);
}

#[test]
fn test_memory_write_laws() {
    // A read gives back what a write wrote, and later writes elsewhere keep it.
    let mut memory = Memory::new();
    memory.write_data_at_offset(0x400, &[9, 8, 7, 6]);
    memory.write_data_at_offset(0x404, &[1, 1]);
    memory.write_data_at_offset(0x3FE, &[2, 2]);
    assert_eq!(memory.read_data_at_offset(0x400, 4), &[9, 8, 7, 6]);
    assert_eq!(memory.read_data_at_offset(0x3FE, 8), &[2, 2, 9, 8, 7, 6, 1, 1]);
    // Writing at the pointer is writing at its offset, and keeps the pointer.
    let mut at_pointer = Memory::new();
    at_pointer.set_pointer(0x500);
    at_pointer.write_data_at_pointer(&[0xDE, 0xAD]);
    let mut at_offset = Memory::new();
    at_offset.write_data_at_offset(0x500, &[0xDE, 0xAD]);
    assert_eq!(at_pointer.get_pointer(), 0x500);
    assert_eq!(
        at_pointer.read_data_at_offset(0, MEMORY_SIZE as u16),
        at_offset.read_data_at_offset(0, MEMORY_SIZE as u16)
    );
}
