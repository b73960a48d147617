use chip8::debugger::Breakpoints;
use chip8::gui::frames::{address_to_cursor, debug_info_text, has_breakpoint_at_cursor, ListFrameData, ShellFrame};
use chip8::gui::scenes::{debug_scene_key, DebugAction, DebugFocus, DebugKey};
use chip8::gui::scene::{has_scene_changed, scene_transition, SceneContext};

#[test]
fn test_scene_context_cache() {
    let mut ctx = SceneContext::new();
    assert!(ctx.running);
    assert!(ctx.current_scene_name.is_none());
    assert_eq!(ctx.get_cache_data("game"), None);
    ctx.set_cache_data("game", "PONG".to_owned());
    ctx.set_cache_data("other", "X".to_owned());
    assert_eq!(ctx.get_cache_data("game"), Some("PONG".to_owned()));
    ctx.set_cache_data("game", "TETRIS".to_owned());
    assert_eq!(ctx.get_cache_data("game"), Some("TETRIS".to_owned()));
    assert_eq!(ctx.get_cache_data("other"), Some("X".to_owned()));
    ctx.set_current_scene("explorer");
    assert_eq!(ctx.current_scene_name.as_deref(), Some("explorer"));
    ctx.quit();
    assert!(!ctx.running);
}

#[test]
fn test_list_frame_visible_range() {
    let data: Vec<String> = (0..10).map(|i| format!("line {}", i)).collect();
    let frame = ListFrameData { cursor: 0, data: &data };
    assert_eq!(frame.visible_range(4), (0, 4));
    let frame = ListFrameData { cursor: 6, data: &data };
    assert_eq!(frame.visible_range(4), (3, 7));
    let frame = ListFrameData { cursor: 9, data: &data };
    assert_eq!(frame.visible_range(20), (0, 10));
}

#[test]
fn test_shell_frame_buffer() {
    let mut shell = ShellFrame::new();
    shell.set_active(true);
    shell.add_char('l');
    shell.add_char('b');
    shell.add_char('é');
    shell.remove_char();
    assert_eq!(shell.validate(), "lb");
    assert_eq!(shell.validate(), "");
    shell.remove_char();
    shell.toggle_cursor();
    shell.reset();
    assert_eq!(shell.validate(), "");
}

#[test]
fn test_scene_change_and_code_cursor() {
    assert!(!has_scene_changed(&None, &None));
    assert!(has_scene_changed(&Some("a".to_owned()), &None));
    assert!(has_scene_changed(&Some("a".to_owned()), &Some("b".to_owned())));
    assert!(!has_scene_changed(&Some("a".to_owned()), &Some("a".to_owned())));
    assert_eq!(address_to_cursor(0x0200), 0);
    assert_eq!(address_to_cursor(0x0207), 3);
    let mut bps = Breakpoints::new();
    bps.register(0x0204);
    assert!(has_breakpoint_at_cursor(2, &bps));
    assert!(!has_breakpoint_at_cursor(1, &bps));
}

#[test]
fn test_debug_scene_keys() {
    assert_eq!(debug_scene_key(DebugFocus::Main, DebugKey::F2), (DebugFocus::Shell, DebugAction::ActivateShell));
    assert_eq!(debug_scene_key(DebugFocus::Memory, DebugKey::F2), (DebugFocus::Shell, DebugAction::ActivateShell));
    assert_eq!(debug_scene_key(DebugFocus::Shell, DebugKey::F2), (DebugFocus::Main, DebugAction::DeactivateShell));
    assert_eq!(debug_scene_key(DebugFocus::Main, DebugKey::F3), (DebugFocus::Memory, DebugAction::Nothing));
    assert_eq!(debug_scene_key(DebugFocus::Shell, DebugKey::F3), (DebugFocus::Memory, DebugAction::Nothing));
    assert_eq!(debug_scene_key(DebugFocus::Memory, DebugKey::F3), (DebugFocus::Main, DebugAction::Nothing));
    assert_eq!(debug_scene_key(DebugFocus::Memory, DebugKey::F4), (DebugFocus::Memory, DebugAction::Step));
    assert_eq!(debug_scene_key(DebugFocus::Main, DebugKey::F5), (DebugFocus::Main, DebugAction::Continue));
    assert_eq!(debug_scene_key(DebugFocus::Shell, DebugKey::F6), (DebugFocus::Shell, DebugAction::Pause));
    assert_eq!(debug_scene_key(DebugFocus::Main, DebugKey::F10), (DebugFocus::Main, DebugAction::DumpListing));
    assert_eq!(debug_scene_key(DebugFocus::Shell, DebugKey::Escape), (DebugFocus::Shell, DebugAction::GoToExplorer));
    assert_eq!(debug_scene_key(DebugFocus::Shell, DebugKey::Backspace), (DebugFocus::Shell, DebugAction::RemoveChar));
    assert_eq!(debug_scene_key(DebugFocus::Main, DebugKey::Backspace), (DebugFocus::Main, DebugAction::Nothing));
    assert_eq!(debug_scene_key(DebugFocus::Shell, DebugKey::Enter), (DebugFocus::Shell, DebugAction::ValidateLine));
    assert_eq!(debug_scene_key(DebugFocus::Memory, DebugKey::Enter), (DebugFocus::Memory, DebugAction::Nothing));
    assert_eq!(debug_scene_key(DebugFocus::Shell, DebugKey::Char('a')), (DebugFocus::Shell, DebugAction::AddChar('a')));
    assert_eq!(debug_scene_key(DebugFocus::Main, DebugKey::Char('a')), (DebugFocus::Main, DebugAction::Nothing));
}

fn expected_debug_info(
    registers: &[u8],
    i: u16,
    stack: &[u16],
    sp: u16,
    timers: (u8, u8, u8),
    keys: &[u8],
    last_key: u8,
    waiting: bool,
    paused: bool,
) -> String {
    let mut output = String::new();
    output.push_str("REGISTERS:");
    for (idx, rgx) in registers.iter().enumerate() {
        if idx % 5 == 0 {
            output.push_str("\n");
        }
        output.push_str(&format!("V{:X}={:02X} ", idx, rgx));
    }
    output.push_str(&format!("I={:04X}\n", i));
    output.push_str("\nSTACK:");
    for (idx, d) in stack.iter().enumerate() {
        if idx % 7 == 0 {
            output.push_str("\n");
        }
        output.push_str(&format!("{:04X} ", d));
    }
    output.push_str(&format!("\nPTR={:04X}\n", sp));
    output.push_str("\nTIMERS:\n");
    output.push_str(&format!("DELAY={}\n", timers.0));
    output.push_str(&format!("SOUND={}\n", timers.1));
    output.push_str(&format!("SYNC={}\n", timers.2));
    output.push_str("\nINPUT:");
    for (idx, v) in keys.iter().enumerate() {
        if idx % 5 == 0 {
            output.push_str("\n");
        }
        output.push_str(&format!("K{:X}={:02X} ", idx, v));
    }
    output.push_str(&format!("LK={:02X} ", last_key));
    output.push_str(&format!("WAIT={}\n", if waiting { 1 } else { 0 }));
    output.push_str(&format!("\nEmulation state: {}", if paused { "PAUSED" } else { "RUNNING" }));
    output
}

#[test]
fn test_debug_info_text() {
    let registers: Vec<u8> = (0..16u8).map(|x| x.wrapping_mul(37)).collect();
    let stack: Vec<u16> = (0..16u16).map(|x| x.wrapping_mul(4099)).collect();
    let keys: Vec<u8> = (0..16u8).map(|x| x % 2).collect();
    let text = debug_info_text(&registers, 0x0A3F, &stack, 3, 7, 120, 60, &keys, 0x0B, true, false);
    assert_eq!(text, expected_debug_info(&registers, 0x0A3F, &stack, 3, (7, 120, 60), &keys, 0x0B, true, false));
    let text = debug_info_text(&[], 0, &[], 0, 0, 0, 255, &[], 0, false, true);
    assert_eq!(text, expected_debug_info(&[], 0, &[], 0, (0, 0, 255), &[], 0, false, true));
    assert!(text.starts_with("REGISTERS:I=0000\n\nSTACK:\nPTR=0000\n"));
    assert!(text.ends_with("LK=00 WAIT=0\n\nEmulation state: PAUSED"));
    let text = debug_info_text(&[0xAB], 0, &[0x1234], 0, 0, 0, 0, &[1], 0, false, false);
    assert!(text.starts_with("REGISTERS:\nV0=AB I=0000\n\nSTACK:\n1234 \nPTR=0000\n"));
}

#[test]
fn test_scene_transition() {
    let name = |s: &str| Some(s.to_owned());
    let t = scene_transition(&name("game"), &name("explorer"));
    assert_eq!((t.destroy, t.init, t.last_loaded), (name("explorer"), name("game"), name("game")));
    let t = scene_transition(&name("game"), &None);
    assert_eq!((t.destroy, t.init, t.last_loaded), (None, name("game"), name("game")));
    let t = scene_transition(&name("game"), &name("game"));
    assert_eq!((t.destroy, t.init, t.last_loaded), (None, None, name("game")));
    let t = scene_transition(&None, &name("game"));
    assert_eq!((t.destroy, t.init, t.last_loaded), (name("game"), None, name("game")));
    let t = scene_transition(&None, &None);
    assert_eq!((t.destroy, t.init, t.last_loaded), (None, None, None));
}
