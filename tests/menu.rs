use lboot::config::Entry;
use lboot::menu::{
    classify_key, show_menu, KeyInput, Menu, MenuAction, MenuEvent, MenuKey, SCAN_DOWN,
    SCAN_RIGHT, SCAN_UP,
};
use lboot::wide::BoxedCStr16;

fn up() -> MenuEvent {
    MenuEvent::Key(KeyInput::Special(SCAN_UP))
}

fn down() -> MenuEvent {
    MenuEvent::Key(KeyInput::Special(SCAN_DOWN))
}

#[test]
fn up_from_first_wraps_to_last() {
    let mut m = Menu::new(3);
    assert_eq!(m.step(up()), MenuAction::Redraw(2));
    assert_eq!(m.selected(), 2);
}

#[test]
fn down_from_last_wraps_to_first() {
    let mut m = Menu::new(3);
    m.step(up());
    assert_eq!(m.step(down()), MenuAction::Redraw(0));
    assert_eq!(m.selected(), 0);
}

#[test]
fn letters_navigate_like_arrows() {
    let mut m = Menu::new(4);
    assert_eq!(m.step(MenuEvent::Key(KeyInput::Printable('j' as u16))), MenuAction::Redraw(1));
    assert_eq!(m.step(MenuEvent::Key(KeyInput::Printable('j' as u16))), MenuAction::Redraw(2));
    assert_eq!(m.step(MenuEvent::Key(KeyInput::Printable('k' as u16))), MenuAction::Redraw(1));
}

#[test]
fn single_entry_never_moves() {
    let mut m = Menu::new(1);
    assert_eq!(m.step(up()), MenuAction::Idle);
    assert_eq!(m.step(down()), MenuAction::Idle);
    assert_eq!(m.selected(), 0);
}

#[test]
fn timeout_chooses_current_selection() {
    let mut m = Menu::new(5);
    m.step(down());
    m.step(MenuEvent::NoKey);
    m.step(down());
    m.step(MenuEvent::Key(KeyInput::Printable('x' as u16)));
    assert_eq!(m.step(MenuEvent::TimedOut), MenuAction::Choose(2));
}

#[test]
fn timeout_without_keys_chooses_first() {
    let mut m = Menu::new(3);
    assert_eq!(m.step(MenuEvent::NoKey), MenuAction::Idle);
    assert_eq!(m.step(MenuEvent::TimedOut), MenuAction::Choose(0));
}

#[test]
fn confirming_keys_choose() {
    for key in [
        KeyInput::Special(SCAN_RIGHT),
        KeyInput::Printable('\r' as u16),
        KeyInput::Printable('\n' as u16),
        KeyInput::Printable('l' as u16),
    ] {
        let mut m = Menu::new(3);
        m.step(down());
        assert_eq!(m.step(MenuEvent::Key(key)), MenuAction::Choose(1));
    }
}

#[test]
fn selection_stays_in_range() {
    let mut m = Menu::new(3);
    for i in 0..20 {
        let ev = if i % 3 == 0 { up() } else { down() };
        m.step(ev);
        assert!(m.selected() < 3);
    }
}

#[test]
fn classify_key_meanings() {
    assert_eq!(classify_key(KeyInput::Special(SCAN_UP)), MenuKey::Up);
    assert_eq!(classify_key(KeyInput::Special(SCAN_DOWN)), MenuKey::Down);
    assert_eq!(classify_key(KeyInput::Special(SCAN_RIGHT)), MenuKey::Confirm);
    assert_eq!(classify_key(KeyInput::Special(0x17)), MenuKey::Other);
    assert_eq!(classify_key(KeyInput::Printable('q' as u16)), MenuKey::Other);
}

#[test]
fn show_menu_marks_selected() {
    let entries: Vec<Entry> = (1u16..4)
        .map(|i| Entry {
            name: Some(BoxedCStr16::new(vec![0x30 + i, 0])),
            vmlinux: None,
            param: None,
        })
        .collect();
    let lines = show_menu(&entries, 1);
    let lines: Vec<String> = lines.iter().map(|l| String::from_utf16(l).unwrap()).collect();
    assert_eq!(
        lines,
        vec![
            "  1@[Unknown] -- Unknown",
            "> 2@[Unknown] -- Unknown",
            "  3@[Unknown] -- Unknown",
        ]
    );
}

#[test]
fn timeout_after_mixed_moves_chooses_net_position() {
    // Two "up" and seven "down" among four entries: (0 + 7 - 2) mod 4 == 1.
    let mut m = Menu::new(4);
    let events = [up(), down(), down(), up(), down(), down(), down(), down(), down()];
    for ev in events {
        m.step(ev);
    }
    m.step(MenuEvent::NoKey);
    assert_eq!(m.step(MenuEvent::TimedOut), MenuAction::Choose(1));
}
