//! The mode/input dispatcher, driven by decoded events.

use blue::dispatch::{update, Event, KeyCode, Modifiers, MouseKind};
use blue::editor::{CommandAction, Editor, Mode};
use blue::screen::Rect;

fn frame() -> Rect {
    Rect { x: 0, y: 0, width: 40, height: 10 }
}

fn key(code: KeyCode, modifiers: Modifiers) -> Event {
    Event::Key { code, modifiers }
}

fn press(ed: &mut Editor, c: char) -> CommandAction {
    update(ed, frame(), &key(KeyCode::Char(c), Modifiers::Plain))
}

#[test]
fn normal_mode_movement_keys() {
    let mut ed = Editor::from_text("ab\ncde", None);
    press(&mut ed, 'l');
    assert_eq!(ed.head, 1);
    press(&mut ed, 'j');
    assert_eq!(ed.head, 4);
    press(&mut ed, 'k');
    assert_eq!(ed.head, 1);
    press(&mut ed, 'h');
    assert_eq!(ed.head, 0);
}

#[test]
fn shift_movement_extends_only_the_head() {
    let mut ed = Editor::from_text("abc", None);
    update(&mut ed, frame(), &key(KeyCode::Char('L'), Modifiers::Shift));
    update(&mut ed, frame(), &key(KeyCode::Char('L'), Modifiers::Shift));
    assert_eq!((ed.anchor, ed.head), (0, 2));
}

#[test]
fn semicolon_family_adjusts_selection() {
    let mut ed = Editor::from_text("abc", None);
    ed.anchor = 2;
    ed.head = 0;
    update(&mut ed, frame(), &key(KeyCode::Char(';'), Modifiers::Alt));
    assert_eq!((ed.anchor, ed.head), (0, 2));
    update(
        &mut ed,
        frame(),
        &key(KeyCode::Char(';'), Modifiers::ShiftAlt),
    );
    assert_eq!((ed.anchor, ed.head), (0, 2));
    update(&mut ed, frame(), &key(KeyCode::Char(';'), Modifiers::Plain));
    assert_eq!((ed.anchor, ed.head), (2, 2));
}

#[test]
fn insert_mode_types_text() {
    let mut ed = Editor::new();
    press(&mut ed, 'i');
    assert_eq!(ed.mode, Mode::Insert);
    press(&mut ed, 'h');
    press(&mut ed, 'i');
    assert_eq!(ed.save_payload(), b"hi".to_vec());
    update(&mut ed, frame(), &key(KeyCode::Enter, Modifiers::Plain));
    press(&mut ed, '!');
    assert_eq!(ed.save_payload(), b"hi\n!".to_vec());
    update(&mut ed, frame(), &key(KeyCode::Backspace, Modifiers::Plain));
    assert_eq!(ed.save_payload(), b"hi\n".to_vec());
    update(&mut ed, frame(), &key(KeyCode::Esc, Modifiers::Plain));
    assert_eq!(ed.mode, Mode::Normal);
    assert!(ed.modified);
}

#[test]
fn change_key_deletes_then_inserts() {
    let mut ed = Editor::from_text("abc", None);
    ed.anchor = 0;
    ed.head = 2;
    press(&mut ed, 'c');
    assert_eq!(ed.mode, Mode::Insert);
    assert_eq!(ed.save_payload(), b"c".to_vec());
    press(&mut ed, 'X');
    assert_eq!(ed.save_payload(), b"Xc".to_vec());
}

#[test]
fn goto_mode_takes_exactly_one_key() {
    let mut ed = Editor::from_text("abc\ndef", None);
    ed.anchor = 5;
    ed.head = 5;
    press(&mut ed, 'g');
    assert_eq!(ed.mode, Mode::Goto);
    press(&mut ed, 'l');
    assert_eq!(ed.mode, Mode::Normal);
    assert_eq!(ed.head, 7);
    // top-of-buffer key
    press(&mut ed, 'g');
    press(&mut ed, 'k');
    assert_eq!((ed.anchor, ed.head), (0, 0));
    assert_eq!(ed.mode, Mode::Normal);
}

#[test]
fn goto_mode_reports_unknown_keys() {
    let mut ed = Editor::from_text("x", None);
    press(&mut ed, 'g');
    let act = press(&mut ed, 'z');
    assert_eq!(act, CommandAction::Nothing);
    assert_eq!(ed.mode, Mode::Normal);
    assert_eq!(ed.message, Some(Err(String::from("Unknown key"))));
    // the message is cleared by the next event
    press(&mut ed, 'l');
    assert_eq!(ed.message, None);
}

#[test]
fn unbound_keys_are_ignored_without_error() {
    let mut ed = Editor::from_text("ab", None);
    let act = press(&mut ed, 'z');
    assert_eq!(act, CommandAction::Nothing);
    assert_eq!(ed.head, 0);
    assert_eq!(ed.message, None);
    assert_eq!(ed.mode, Mode::Normal);
}

#[test]
fn command_mode_types_and_confirms() {
    let mut ed = Editor::from_text("hi", Some(String::from("f.txt")));
    press(&mut ed, ':');
    assert_eq!(ed.mode, Mode::Command);
    for c in ['w', 'q', ' ', '3'] {
        press(&mut ed, c);
    }
    assert_eq!(ed.command.to_string(), "wq 3");
    let act = update(&mut ed, frame(), &key(KeyCode::Enter, Modifiers::Plain));
    assert_eq!(act, CommandAction::WriteAndQuit(3));
    assert_eq!(ed.mode, Mode::Normal);
    // the caller persists and reports back
    assert_eq!(ed.save_payload(), b"hi".to_vec());
    ed.mark_saved();
    ed.set_exit(3);
    assert_eq!(ed.exit_code, Some(3));
}

#[test]
fn command_mode_edits_its_own_line() {
    let mut ed = Editor::new();
    press(&mut ed, ':');
    for c in ['e', 'h', 'o'] {
        press(&mut ed, c);
    }
    // move back and fix the missing 'c'
    update(&mut ed, frame(), &key(KeyCode::Left, Modifiers::Plain));
    update(&mut ed, frame(), &key(KeyCode::Left, Modifiers::Plain));
    press(&mut ed, 'c');
    assert_eq!(ed.command.to_string(), "echo");
    update(&mut ed, frame(), &key(KeyCode::Backspace, Modifiers::Plain));
    assert_eq!(ed.command.to_string(), "eho");
    update(&mut ed, frame(), &key(KeyCode::Esc, Modifiers::Plain));
    assert_eq!(ed.mode, Mode::Normal);
    assert_eq!(ed.command.byte_len(), 0);
}

#[test]
fn backspace_on_empty_command_line_leaves_command_mode() {
    let mut ed = Editor::new();
    press(&mut ed, ':');
    update(&mut ed, frame(), &key(KeyCode::Backspace, Modifiers::Plain));
    assert_eq!(ed.mode, Mode::Normal);
}

#[test]
fn control_scrolling_uses_page_fractions() {
    let mut ed = Editor::from_text(&"x\n".repeat(50), None);
    // text area height 9: half page is 4, full page is 7
    update(
        &mut ed,
        frame(),
        &key(KeyCode::Char('d'), Modifiers::Control),
    );
    assert_eq!(ed.vertical_scroll, 4);
    update(
        &mut ed,
        frame(),
        &key(KeyCode::Char('f'), Modifiers::Control),
    );
    assert_eq!(ed.vertical_scroll, 11);
    update(
        &mut ed,
        frame(),
        &key(KeyCode::Char('u'), Modifiers::Control),
    );
    assert_eq!(ed.vertical_scroll, 7);
    update(
        &mut ed,
        frame(),
        &key(KeyCode::Char('b'), Modifiers::Control),
    );
    assert_eq!(ed.vertical_scroll, 0);
}

#[test]
fn mouse_click_places_a_forward_caret() {
    let mut ed = Editor::from_text("ab\ncde", None);
    // the text area starts after the status row and a 3-column gutter
    let act = update(
        &mut ed,
        frame(),
        &Event::Mouse { kind: MouseKind::PressLeft, column: 4, row: 2 },
    );
    assert_eq!(act, CommandAction::Nothing);
    // clicked cell is column 1 of line 1: byte 4
    assert_eq!(ed.anchor, 4);
    assert_eq!(ed.head, 5);
    assert!(ed.is_forward());
}

#[test]
fn mouse_drag_extends_head_only() {
    let mut ed = Editor::from_text("abcdef", None);
    update(
        &mut ed,
        frame(),
        &Event::Mouse { kind: MouseKind::DragLeft, column: 7, row: 1 },
    );
    assert_eq!(ed.anchor, 0);
    assert_eq!(ed.head, 5); // covers the cluster at clicked column 4
}

#[test]
fn mouse_wheel_scrolls_three_lines() {
    let mut ed = Editor::from_text(&"y\n".repeat(10), None);
    update(
        &mut ed,
        frame(),
        &Event::Mouse { kind: MouseKind::ScrollDown, column: 0, row: 0 },
    );
    assert_eq!(ed.vertical_scroll, 3);
    update(
        &mut ed,
        frame(),
        &Event::Mouse { kind: MouseKind::ScrollUp, column: 0, row: 0 },
    );
    assert_eq!(ed.vertical_scroll, 0);
}

#[test]
fn clicks_outside_the_text_area_do_nothing() {
    let mut ed = Editor::from_text("ab", None);
    update(
        &mut ed,
        frame(),
        &Event::Mouse { kind: MouseKind::PressLeft, column: 1, row: 0 },
    );
    assert_eq!((ed.anchor, ed.head), (0, 0));
}
