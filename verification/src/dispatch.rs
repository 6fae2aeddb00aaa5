//! The mode/input dispatcher: a finite-state machine routing one decoded
//! input event to the editing operations.  The caller's loop performs
//! any persistence work named by the returned [`CommandAction`] and
//! feeds back the next event; nothing here touches the outside world.

use vstd::prelude::*;
use vstd::utf8::{encode_utf8, valid_utf8, is_char_boundary};
use crate::model::{splice_insert, splice_delete, line_of, line_start, line_content_end,
    line_count, lemma_encode_char_len, lemma_splice_insert_wf};
use crate::text::{rope_bytes, rope_new, rope_byte_len, rope_insert, rope_line_count,
    char_to_string};
use crate::graphemes::{prev_gb, ceil_gb, prev_grapheme_boundary, ceil_grapheme_boundary};
use crate::editor::{Editor, Mode, CommandAction, step_left_n, step_right_n, vup_n, vdown_n,
    opt_col};
use crate::screen::{Rect, Position, Areas, areas_spec, position_offset_spec, rect_in_range};
use crate::command::{shell_split, interpret};
use crate::columns::MAX_TEXT;

verus! {

/// The modifier combinations the key map distinguishes.
#[derive(PartialEq, Eq, Clone, Copy, Debug)]
pub enum Modifiers {
    Plain,
    Shift,
    Control,
    Alt,
    ShiftAlt,
    Unknown,
}

/// The keys the key map distinguishes.
#[derive(PartialEq, Eq, Clone, Copy, Debug)]
pub enum KeyCode {
    Char(char),
    Tab,
    Enter,
    Backspace,
    Esc,
    Left,
    Right,
    Unknown,
}

/// The pointer actions the key map distinguishes.
#[derive(PartialEq, Eq, Clone, Copy, Debug)]
pub enum MouseKind {
    ScrollUp,
    ScrollDown,
    PressLeft,
    PressRight,
    DragLeft,
    DragRight,
    Unknown,
}

/// One decoded input event.
#[derive(PartialEq, Eq, Clone, Copy, Debug)]
pub enum Event {
    Key { code: KeyCode, modifiers: Modifiers },
    Mouse { kind: MouseKind, column: u16, row: u16 },
}

/// The state entering the update step: the previous status message is
/// discarded before the event is interpreted.
pub open spec fn cleared(e: Editor) -> Editor {
    Editor { message: None, ..e }
}

/// State unchanged but for the head and the desired column.
pub open spec fn rel_extend_horiz(e0: Editor, e1: Editor, h: int) -> bool {
    &&& e1.same_but_selection(e0)
    &&& e1.anchor == e0.anchor
    &&& e1.head as int == h
    &&& e1.desired_column is None
}

/// State unchanged but for a collapsed selection and the desired column.
pub open spec fn rel_move_horiz(e0: Editor, e1: Editor, h: int) -> bool {
    &&& e1.same_but_selection(e0)
    &&& e1.anchor == e1.head
    &&& e1.head as int == h
    &&& e1.desired_column is None
}

/// State unchanged but for a vertical move of the head.
pub open spec fn rel_extend_vert(e0: Editor, e1: Editor, t: (int, Option<int>)) -> bool {
    &&& e1.same_but_selection(e0)
    &&& e1.anchor == e0.anchor
    &&& e1.head as int == t.0
    &&& opt_col(e1.desired_column) == t.1
}

/// State unchanged but for a vertical move of the collapsed selection.
pub open spec fn rel_move_vert(e0: Editor, e1: Editor, t: (int, Option<int>)) -> bool {
    &&& e1.same_but_selection(e0)
    &&& e1.anchor == e1.head
    &&& e1.head as int == t.0
    &&& opt_col(e1.desired_column) == t.1
}

/// The effect of `delete`, with the mode the branch leaves behind.
pub open spec fn rel_delete(e0: Editor, e1: Editor, mode: Mode) -> bool {
    let s = rope_bytes(e0.text);
    let a = vstd::math::min(e0.anchor as int, e0.head as int);
    let b = vstd::math::max(e0.anchor as int, e0.head as int);
    &&& rope_bytes(e1.text) == splice_delete(s, a, b)
    &&& e1.head as int == a
    &&& e1.anchor == e1.head
    &&& e1.modified
    &&& e1.desired_column is None
    &&& e1.mode == mode
    &&& e1.pwd == e0.pwd
    &&& e1.path == e0.path
    &&& e1.vertical_scroll == e0.vertical_scroll
    &&& e1.command == e0.command
    &&& e1.command_cursor == e0.command_cursor
    &&& e1.message == e0.message
    &&& e1.exit_code == e0.exit_code
}

/// The effect of `insert` of the single character `c`.
pub open spec fn rel_insert_char(e0: Editor, e1: Editor, c: char) -> bool {
    &&& rope_bytes(e1.text) == splice_insert(
        rope_bytes(e0.text),
        e0.head as int,
        encode_utf8(seq![c]),
    )
    &&& e1.head == e0.head + encode_utf8(seq![c]).len()
    &&& e1.anchor == e1.head
    &&& e1.modified
    &&& e1.desired_column is None
    &&& e1.same_but_edit(e0)
}

/// The effect of `delete_before`.
pub open spec fn rel_delete_before(e0: Editor, e1: Editor) -> bool {
    let s = rope_bytes(e0.text);
    &&& e0.head == 0 ==> e1 == e0
    &&& e0.head >= 1 ==> {
        &&& rope_bytes(e1.text) == splice_delete(s, prev_gb(s, e0.head as int), e0.head as int)
        &&& e1.head as int == prev_gb(s, e0.head as int)
        &&& e1.anchor == e1.head
        &&& e1.modified
        &&& e1.desired_column is None
        &&& e1.same_but_edit(e0)
    }
}

/// The effect of `move_line_start`.
pub open spec fn rel_move_line_start(e0: Editor, e1: Editor, mode: Mode) -> bool {
    let s = rope_bytes(e0.text);
    let st = line_start(s, line_of(s, e0.head as int));
    &&& e1.anchor == e1.head
    &&& e1.head as int == (if e0.anchor as int <= st {
        step_right_n(s, st, 1)
    } else {
        st
    })
    &&& e1.desired_column is None
    &&& e1.mode == mode
    &&& rel_same_rest(e0, e1)
}

/// The effect of `move_line_end`.
pub open spec fn rel_move_line_end(e0: Editor, e1: Editor, mode: Mode) -> bool {
    let s = rope_bytes(e0.text);
    let en = line_content_end(s, line_of(s, e0.head as int));
    &&& e1.anchor == e1.head
    &&& ((e0.head as int) >= s.len() ==> e1.head == e0.head)
    &&& ((e0.head as int) < s.len() ==> e1.head as int == (if e0.anchor as int > en {
        step_left_n(s, en, 1)
    } else {
        en
    }) && (e1.desired_column is None))
    &&& e1.mode == mode
    &&& rel_same_rest(e0, e1)
}

/// The effect of `extend_line_start`.
pub open spec fn rel_extend_line_start(e0: Editor, e1: Editor, mode: Mode) -> bool {
    let s = rope_bytes(e0.text);
    let st = line_start(s, line_of(s, e0.head as int));
    &&& e1.anchor == e0.anchor
    &&& e1.head as int == (if e0.anchor as int <= st {
        step_right_n(s, st, 1)
    } else {
        st
    })
    &&& e1.desired_column is None
    &&& e1.mode == mode
    &&& rel_same_rest(e0, e1)
}

/// The effect of `extend_line_end`.
pub open spec fn rel_extend_line_end(e0: Editor, e1: Editor, mode: Mode) -> bool {
    let s = rope_bytes(e0.text);
    let en = line_content_end(s, line_of(s, e0.head as int));
    &&& e1.anchor == e0.anchor
    &&& ((e0.head as int) >= s.len() ==> e1.head == e0.head)
    &&& ((e0.head as int) < s.len() ==> e1.head as int == (if e0.anchor as int > en {
        step_left_n(s, en, 1)
    } else {
        en
    }) && (e1.desired_column is None))
    &&& e1.mode == mode
    &&& rel_same_rest(e0, e1)
}

/// All fields except selection, desired column and mode are unchanged.
pub open spec fn rel_same_rest(e0: Editor, e1: Editor) -> bool {
    &&& e1.pwd == e0.pwd
    &&& e1.path == e0.path
    &&& e1.modified == e0.modified
    &&& e1.text == e0.text
    &&& e1.vertical_scroll == e0.vertical_scroll
    &&& e1.command == e0.command
    &&& e1.command_cursor == e0.command_cursor
    &&& e1.message == e0.message
    &&& e1.exit_code == e0.exit_code
}

/// Scrolling amounts derived from the text area, as the original key
/// bindings compute them.
pub open spec fn half_page(text: Rect) -> int {
    (if text.height >= 1 {
        text.height - 1
    } else {
        0int
    }) / 2
}

pub open spec fn full_page(text: Rect) -> int {
    if text.height >= 2 {
        text.height - 2
    } else {
        0int
    }
}

pub open spec fn rel_scroll_up(e0: Editor, e1: Editor, d: int) -> bool {
    &&& e1.vertical_scroll as int == (if e0.vertical_scroll >= d {
        e0.vertical_scroll - d
    } else {
        0int
    })
    &&& e1 == (Editor { vertical_scroll: e1.vertical_scroll, ..e0 })
}

pub open spec fn rel_scroll_down(e0: Editor, e1: Editor, d: int) -> bool {
    &&& e1.vertical_scroll as int == vstd::math::min(
        vstd::math::max(line_count(rope_bytes(e0.text)) - 1, 0),
        e0.vertical_scroll + d,
    )
    &&& e1 == (Editor { vertical_scroll: e1.vertical_scroll, ..e0 })
}

/// The key map of Normal mode.
pub open spec fn normal_key_rel(
    e0: Editor,
    e1: Editor,
    code: KeyCode,
    m: Modifiers,
    text: Rect,
) -> bool {
    let s = rope_bytes(e0.text);
    match (m, code) {
        (Modifiers::Plain, KeyCode::Char(c)) => if c == 'h' {
            rel_move_horiz(e0, e1, step_left_n(s, e0.head as int, 1))
        } else if c == 'l' {
            rel_move_horiz(e0, e1, step_right_n(s, e0.head as int, 1))
        } else if c == 'k' {
            rel_move_vert(e0, e1, vup_n(s, e0.head as int, opt_col(e0.desired_column), 1))
        } else if c == 'j' {
            rel_move_vert(e0, e1, vdown_n(s, e0.head as int, opt_col(e0.desired_column), 1))
        } else if c == ';' {
            e1 == (Editor { anchor: e0.head, ..e0 })
        } else if c == 'd' {
            rel_delete(e0, e1, Mode::Normal)
        } else if c == 'c' {
            rel_delete(e0, e1, Mode::Insert)
        } else if c == 'i' {
            e1 == (Editor { anchor: e0.head, mode: Mode::Insert, ..e0 })
        } else if c == ':' {
            rope_bytes(e1.command).len() == 0 && e1.command_cursor == 0 && e1.mode == Mode::Command
                && e1 == (Editor {
                command: e1.command,
                command_cursor: 0,
                mode: Mode::Command,
                ..e0
            })
        } else if c == 'g' {
            e1 == (Editor { mode: Mode::Goto, ..e0 })
        } else {
            e1 == e0
        },
        (Modifiers::Shift, KeyCode::Char(c)) => if c == 'h' || c == 'H' {
            rel_extend_horiz(e0, e1, step_left_n(s, e0.head as int, 1))
        } else if c == 'l' || c == 'L' {
            rel_extend_horiz(e0, e1, step_right_n(s, e0.head as int, 1))
        } else if c == 'k' || c == 'K' {
            rel_extend_vert(e0, e1, vup_n(s, e0.head as int, opt_col(e0.desired_column), 1))
        } else if c == 'j' || c == 'J' {
            rel_extend_vert(e0, e1, vdown_n(s, e0.head as int, opt_col(e0.desired_column), 1))
        } else {
            e1 == e0
        },
        (Modifiers::Alt, KeyCode::Char(c)) => if c == ';' {
            e1 == (Editor { anchor: e0.head, head: e0.anchor, ..e0 })
        } else {
            e1 == e0
        },
        (Modifiers::ShiftAlt, KeyCode::Char(c)) => if c == ';' {
            e1.anchor as int == vstd::math::min(e0.anchor as int, e0.head as int) && e1.head as int
                == vstd::math::max(e0.anchor as int, e0.head as int) && e1.same_but_selection(e0)
                && e1.desired_column == e0.desired_column
        } else {
            e1 == e0
        },
        (Modifiers::Control, KeyCode::Char(c)) => if c == 'u' {
            rel_scroll_up(e0, e1, half_page(text))
        } else if c == 'd' {
            rel_scroll_down(e0, e1, half_page(text))
        } else if c == 'b' {
            rel_scroll_up(e0, e1, full_page(text))
        } else if c == 'f' {
            rel_scroll_down(e0, e1, full_page(text))
        } else {
            e1 == e0
        },
        _ => e1 == e0,
    }
}

/// The key map of Goto mode: exactly one key, then back to Normal; an
/// unrecognized key reports an error.
pub open spec fn goto_key_rel(e0: Editor, e1: Editor, code: KeyCode, m: Modifiers) -> bool {
    match (m, code) {
        (Modifiers::Plain, KeyCode::Char(c)) => if c == 'k' {
            e1 == (Editor {
                anchor: 0usize,
                head: 0usize,
                desired_column: None,
                mode: Mode::Normal,
                ..e0
            })
        } else if c == 'h' {
            rel_move_line_start(e0, e1, Mode::Normal)
        } else if c == 'l' {
            rel_move_line_end(e0, e1, Mode::Normal)
        } else {
            goto_unknown(e0, e1)
        },
        (Modifiers::Shift, KeyCode::Char(c)) => if c == 'h' || c == 'H' {
            rel_extend_line_start(e0, e1, Mode::Normal)
        } else if c == 'l' || c == 'L' {
            rel_extend_line_end(e0, e1, Mode::Normal)
        } else {
            goto_unknown(e0, e1)
        },
        (Modifiers::Plain, KeyCode::Esc) => e1 == (Editor { mode: Mode::Normal, ..e0 }),
        _ => goto_unknown(e0, e1),
    }
}

/// Goto mode's answer to an unbound key.
pub open spec fn goto_unknown(e0: Editor, e1: Editor) -> bool {
    &&& e1.message matches Some(r) && r matches Err(msg) && msg@ == "Unknown key"@
    &&& e1 == (Editor { message: e1.message, mode: Mode::Normal, ..e0 })
}

/// The key map of Insert mode.
pub open spec fn insert_key_rel(e0: Editor, e1: Editor, code: KeyCode, m: Modifiers) -> bool {
    let s = rope_bytes(e0.text);
    match (m, code) {
        (Modifiers::Control, KeyCode::Char(c)) => if c == 'a' {
            rel_move_line_start(e0, e1, Mode::Insert)
        } else if c == 'e' {
            rel_move_line_end(e0, e1, Mode::Insert)
        } else if c == 'b' {
            rel_move_horiz(e0, e1, step_left_n(s, e0.head as int, 1))
        } else if c == 'f' {
            rel_move_horiz(e0, e1, step_right_n(s, e0.head as int, 1))
        } else {
            e1 == e0
        },
        (Modifiers::Plain, KeyCode::Char(c)) => rel_insert_char(e0, e1, c),
        (Modifiers::Shift, KeyCode::Char(c)) => rel_insert_char(e0, e1, c),
        (Modifiers::Plain, KeyCode::Tab) => rel_insert_char(e0, e1, '\t'),
        (Modifiers::Plain, KeyCode::Enter) => rel_insert_char(e0, e1, '\n'),
        (Modifiers::Plain, KeyCode::Backspace) => rel_delete_before(e0, e1),
        (Modifiers::Plain, KeyCode::Esc) => e1 == (Editor { mode: Mode::Normal, ..e0 }),
        _ => e1 == e0,
    }
}

/// The key map of Command mode.  `act` is what a confirmed command asks
/// the caller to persist.
pub open spec fn command_key_rel(
    e0: Editor,
    e1: Editor,
    act: CommandAction,
    code: KeyCode,
    m: Modifiers,
) -> bool {
    let c0 = rope_bytes(e0.command);
    match (m, code) {
        (Modifiers::Control, KeyCode::Char(ch)) => if ch == 'a' {
            act == CommandAction::Nothing && e1 == (Editor { command_cursor: 0usize, ..e0 })
        } else if ch == 'e' {
            act == CommandAction::Nothing && e1.command_cursor == c0.len() && e1 == (Editor {
                command_cursor: e1.command_cursor,
                ..e0
            })
        } else if ch == 'b' {
            act == CommandAction::Nothing && rel_command_cursor(
                e0,
                e1,
                step_left_n(c0, e0.command_cursor as int, 1),
            )
        } else if ch == 'f' {
            act == CommandAction::Nothing && rel_command_cursor(
                e0,
                e1,
                step_right_n(c0, e0.command_cursor as int, 1),
            )
        } else {
            act == CommandAction::Nothing && e1 == e0
        },
        (Modifiers::Plain, KeyCode::Left) => act == CommandAction::Nothing && rel_command_cursor(
            e0,
            e1,
            step_left_n(c0, e0.command_cursor as int, 1),
        ),
        (Modifiers::Plain, KeyCode::Right) => act == CommandAction::Nothing && rel_command_cursor(
            e0,
            e1,
            step_right_n(c0, e0.command_cursor as int, 1),
        ),
        (Modifiers::Plain, KeyCode::Char(ch)) => act == CommandAction::Nothing
            && rel_command_insert(e0, e1, ch),
        (Modifiers::Shift, KeyCode::Char(ch)) => act == CommandAction::Nothing
            && rel_command_insert(e0, e1, ch),
        (Modifiers::Plain, KeyCode::Backspace) => act == CommandAction::Nothing && ({
            if e0.command_cursor > 0 {
                let p = prev_gb(c0, e0.command_cursor as int);
                &&& rope_bytes(e1.command) == splice_delete(c0, p, e0.command_cursor as int)
                &&& e1.command_cursor as int == p
                &&& e1 == (Editor {
                    command: e1.command,
                    command_cursor: e1.command_cursor,
                    ..e0
                })
            } else if c0.len() == 0 {
                rope_bytes(e1.command).len() == 0 && e1.command_cursor == 0 && e1.mode
                    == Mode::Normal && e1 == (Editor {
                    command: e1.command,
                    command_cursor: 0,
                    mode: Mode::Normal,
                    ..e0
                })
            } else {
                e1 == e0
            }
        }),
        (Modifiers::Plain, KeyCode::Enter) => command_confirm_rel(e0, e1, act),
        (Modifiers::Plain, KeyCode::Esc) => act == CommandAction::Nothing && rope_bytes(
            e1.command,
        ).len() == 0 && e1.command_cursor == 0 && e1.mode == Mode::Normal && e1 == (Editor {
            command: e1.command,
            command_cursor: 0,
            mode: Mode::Normal,
            ..e0
        }),
        _ => act == CommandAction::Nothing && e1 == e0,
    }
}

/// State unchanged but for the command-line cursor.
pub open spec fn rel_command_cursor(e0: Editor, e1: Editor, p: int) -> bool {
    e1.command_cursor as int == p && e1 == (Editor { command_cursor: e1.command_cursor, ..e0 })
}

/// State unchanged but for a character spliced into the command line.
pub open spec fn rel_command_insert(e0: Editor, e1: Editor, c: char) -> bool {
    let c0 = rope_bytes(e0.command);
    &&& rope_bytes(e1.command) == splice_insert(
        c0,
        e0.command_cursor as int,
        encode_utf8(seq![c]),
    )
    &&& e1.command_cursor == e0.command_cursor + encode_utf8(seq![c]).len()
    &&& e1 == (Editor { command: e1.command, command_cursor: e1.command_cursor, ..e0 })
}

/// The effect of confirming the command line: `execute_command`'s
/// contract, relative to the pre-event state.
pub open spec fn command_confirm_rel(e0: Editor, e1: Editor, act: CommandAction) -> bool {
    let split = shell_split(vstd::utf8::decode_utf8(rope_bytes(e0.command)));
    &&& rope_bytes(e1.command).len() == 0
    &&& e1.command_cursor == 0
    &&& e1.mode == Mode::Normal
    &&& e1.text == e0.text
    &&& e1.anchor == e0.anchor
    &&& e1.head == e0.head
    &&& e1.desired_column == e0.desired_column
    &&& e1.vertical_scroll == e0.vertical_scroll
    &&& e1.path == e0.path
    &&& e1.pwd == e0.pwd
    &&& e1.modified == e0.modified
    &&& (split is None ==> (e1.message matches Some(r) && r matches Err(msg) && msg@
        == "Invalid command"@) && e1.exit_code == e0.exit_code && act == CommandAction::Nothing)
    &&& (split matches Some(toks) ==> ({
        let outcome = interpret(toks, e0.modified);
        &&& act == outcome.2
        &&& (outcome.0 is None ==> e1.message == e0.message)
        &&& (outcome.0 matches Some(Ok(tm)) ==> e1.message matches Some(r) && r matches Ok(mm)
            && mm@ == tm)
        &&& (outcome.0 matches Some(Err(tm)) ==> e1.message matches Some(r) && r matches Err(mm)
            && mm@ == tm)
        &&& (outcome.1 is None ==> e1.exit_code == e0.exit_code)
        &&& (outcome.1 matches Some(cd) ==> e1.exit_code == Some(cd))
    }))
}

/// The pointer map, mode-independent: a left press sets a fresh forward
/// caret at the clicked cell; a right press or any drag moves the head
/// only; the wheel scrolls.
pub open spec fn mouse_rel(
    e0: Editor,
    e1: Editor,
    kind: MouseKind,
    column: u16,
    row: u16,
    text: Rect,
) -> bool {
    let s = rope_bytes(e0.text);
    let hit = position_offset_spec(
        s,
        e0.vertical_scroll as int,
        text,
        Position { x: column, y: row },
    );
    match kind {
        MouseKind::ScrollUp => rel_scroll_up(e0, e1, 3),
        MouseKind::ScrollDown => rel_scroll_down(e0, e1, 3),
        MouseKind::PressLeft => match hit {
            None => e1 == e0,
            Some(o) => {
                &&& e1.head as int == (if e0.anchor > e0.head {
                    o
                } else {
                    ceil_gb(s, o + 1)
                })
                &&& e1.anchor as int == o
                &&& e1.desired_column is None
                &&& e1.same_but_selection(e0)
            },
        },
        MouseKind::PressRight | MouseKind::DragLeft | MouseKind::DragRight => match hit {
            None => e1 == e0,
            Some(o) => {
                &&& e1.head as int == (if e0.anchor > e0.head {
                    o
                } else {
                    ceil_gb(s, o + 1)
                })
                &&& e1.anchor == e0.anchor
                &&& e1.desired_column is None
                &&& e1.same_but_selection(e0)
            },
        },
        MouseKind::Unknown => e1 == e0,
    }
}

/// What one update step does: the status message is discarded, then the
/// event acts on the state per the active mode's key map (keys) or the
/// pointer map (mouse).
pub open spec fn update_rel(e0: Editor, e1: Editor, act: CommandAction, ev: Event, area: Rect)
    -> bool {
    let e0c = cleared(e0);
    let text = areas_spec(line_count(rope_bytes(e0.text)), area).2;
    match ev {
        Event::Key { code, modifiers } => match e0.mode {
            Mode::Normal => act == CommandAction::Nothing && normal_key_rel(
                e0c,
                e1,
                code,
                modifiers,
                text,
            ),
            Mode::Goto => act == CommandAction::Nothing && goto_key_rel(e0c, e1, code, modifiers),
            Mode::Insert => act == CommandAction::Nothing && insert_key_rel(
                e0c,
                e1,
                code,
                modifiers,
            ),
            Mode::Command => command_key_rel(e0c, e1, act, code, modifiers),
        },
        Event::Mouse { kind, column, row } => act == CommandAction::Nothing && mouse_rel(
            e0c,
            e1,
            kind,
            column,
            row,
            text,
        ),
    }
}

/// Apply one input event to the editor state.  Returns the persistence
/// work a confirmed command asks the caller to do.
#[verifier::rlimit(100)]
#[verifier::spinoff_prover]
pub fn update(editor: &mut Editor, area: Rect, event: &Event) -> (act: CommandAction)
    requires
        old(editor).wf(),
        rope_bytes(old(editor).text).len() + 4 <= MAX_TEXT,
        rope_bytes(old(editor).command).len() + 4 <= MAX_TEXT,
        rect_in_range(area),
    ensures
        final(editor).wf(),
        update_rel(*old(editor), *final(editor), act, *event, area),
{
    editor.message = None;
    let ghost e0c = cleared(*old(editor));
    let lines = rope_line_count(&editor.text);
    let areas = Areas::new(lines, area);
    match *event {
        Event::Key { code, modifiers } => {
            match editor.mode {
                Mode::Normal => {
                    normal_key(editor, areas.text, code, modifiers);
                    CommandAction::Nothing
                },
                Mode::Goto => {
                    goto_key(editor, code, modifiers);
                    CommandAction::Nothing
                },
                Mode::Insert => {
                    insert_key(editor, code, modifiers);
                    CommandAction::Nothing
                },
                Mode::Command => command_key(editor, code, modifiers),
            }
        },
        Event::Mouse { kind, column, row } => {
            mouse_event(editor, areas.text, kind, column, row);
            CommandAction::Nothing
        },
    }
}

/// One Normal-mode key.
fn normal_key(editor: &mut Editor, text: Rect, code: KeyCode, modifiers: Modifiers)
    requires
        old(editor).wf(),
        old(editor).mode == Mode::Normal,
    ensures
        final(editor).wf(),
        normal_key_rel(*old(editor), *final(editor), code, modifiers, text),
{
    match (modifiers, code) {
        (Modifiers::Plain, KeyCode::Char(c)) => {
            if c == 'h' {
                editor.move_left(1);
            } else if c == 'l' {
                editor.move_right(1);
            } else if c == 'k' {
                editor.move_up(1);
            } else if c == 'j' {
                editor.move_down(1);
            } else if c == ';' {
                editor.reduce();
            } else if c == 'd' {
                editor.delete();
            } else if c == 'c' {
                editor.delete();
                editor.mode = Mode::Insert;
            } else if c == 'i' {
                editor.reduce();
                editor.mode = Mode::Insert;
            } else if c == ':' {
                editor.command = rope_new();
                editor.command_cursor = 0;
                editor.mode = Mode::Command;
                proof {
                    empty_command_wf(*editor);
                }
            } else if c == 'g' {
                editor.mode = Mode::Goto;
            }
        },
        (Modifiers::Shift, KeyCode::Char(c)) => {
            if c == 'h' || c == 'H' {
                editor.extend_left(1);
            } else if c == 'l' || c == 'L' {
                editor.extend_right(1);
            } else if c == 'k' || c == 'K' {
                editor.extend_up(1);
            } else if c == 'j' || c == 'J' {
                editor.extend_down(1);
            }
        },
        (Modifiers::Alt, KeyCode::Char(c)) => {
            if c == ';' {
                editor.flip();
            }
        },
        (Modifiers::ShiftAlt, KeyCode::Char(c)) => {
            if c == ';' {
                editor.flip_forward();
            }
        },
        (Modifiers::Control, KeyCode::Char(c)) => {
            let half_height = (if text.height >= 1 {
                text.height - 1
            } else {
                0
            }) as usize / 2;
            let full_height = (if text.height >= 2 {
                text.height - 2
            } else {
                0
            }) as usize;
            if c == 'u' {
                editor.scroll_up(half_height);
            } else if c == 'd' {
                editor.scroll_down(half_height);
            } else if c == 'b' {
                editor.scroll_up(full_height);
            } else if c == 'f' {
                editor.scroll_down(full_height);
            }
        },
        _ => {},
    }
}

/// The command sub-editor starts out empty and well formed.
proof fn empty_command_wf(e: Editor)
    requires
        rope_bytes(e.command) == Seq::<u8>::empty(),
    ensures
        valid_utf8(rope_bytes(e.command)),
        is_char_boundary(rope_bytes(e.command), 0),
{
    vstd::utf8::encode_utf8_valid_utf8(Seq::<char>::empty());
    assert(encode_utf8(Seq::<char>::empty()) =~= Seq::<u8>::empty());
    vstd::utf8::is_char_boundary_start_end_of_seq(rope_bytes(e.command));
}

/// One Goto-mode key: a single transient key, then back to Normal.
fn goto_key(editor: &mut Editor, code: KeyCode, modifiers: Modifiers)
    requires
        old(editor).wf(),
        old(editor).mode == Mode::Goto,
    ensures
        final(editor).wf(),
        goto_key_rel(*old(editor), *final(editor), code, modifiers),
{
    let ghost s = rope_bytes(editor.text);
    match (modifiers, code) {
        (Modifiers::Plain, KeyCode::Char(c)) => {
            if c == 'k' {
                editor.anchor = 0;
                editor.head = 0;
                editor.desired_column = None;
                editor.mode = Mode::Normal;
                proof {
                    vstd::utf8::is_char_boundary_start_end_of_seq(s);
                }
            } else if c == 'h' {
                editor.move_line_start();
                editor.mode = Mode::Normal;
            } else if c == 'l' {
                editor.move_line_end();
                editor.mode = Mode::Normal;
            } else {
                editor.message = Some(Err(String::from_str("Unknown key")));
                editor.mode = Mode::Normal;
            }
        },
        (Modifiers::Shift, KeyCode::Char(c)) => {
            if c == 'h' || c == 'H' {
                editor.extend_line_start();
                editor.mode = Mode::Normal;
            } else if c == 'l' || c == 'L' {
                editor.extend_line_end();
                editor.mode = Mode::Normal;
            } else {
                editor.message = Some(Err(String::from_str("Unknown key")));
                editor.mode = Mode::Normal;
            }
        },
        (Modifiers::Plain, KeyCode::Esc) => {
            editor.mode = Mode::Normal;
        },
        _ => {
            editor.message = Some(Err(String::from_str("Unknown key")));
            editor.mode = Mode::Normal;
        },
    }
}

/// One Insert-mode key.
fn insert_key(editor: &mut Editor, code: KeyCode, modifiers: Modifiers)
    requires
        old(editor).wf(),
        old(editor).mode == Mode::Insert,
        rope_bytes(old(editor).text).len() + 4 <= MAX_TEXT,
    ensures
        final(editor).wf(),
        insert_key_rel(*old(editor), *final(editor), code, modifiers),
{
    match (modifiers, code) {
        (Modifiers::Control, KeyCode::Char(c)) => {
            if c == 'a' {
                editor.move_line_start();
            } else if c == 'e' {
                editor.move_line_end();
            } else if c == 'b' {
                editor.move_left(1);
            } else if c == 'f' {
                editor.move_right(1);
            }
        },
        (Modifiers::Plain, KeyCode::Char(c)) => {
            insert_one_char(editor, c);
        },
        (Modifiers::Shift, KeyCode::Char(c)) => {
            insert_one_char(editor, c);
        },
        (Modifiers::Plain, KeyCode::Tab) => {
            insert_one_char(editor, '\t');
        },
        (Modifiers::Plain, KeyCode::Enter) => {
            insert_one_char(editor, '\n');
            editor.desired_column = None;
        },
        (Modifiers::Plain, KeyCode::Backspace) => {
            editor.delete_before();
        },
        (Modifiers::Plain, KeyCode::Esc) => {
            editor.mode = Mode::Normal;
        },
        _ => {},
    }
}

/// Splice one typed character in at the head.
fn insert_one_char(editor: &mut Editor, c: char)
    requires
        old(editor).wf(),
        rope_bytes(old(editor).text).len() + 4 <= MAX_TEXT,
    ensures
        final(editor).wf(),
        rel_insert_char(*old(editor), *final(editor), c),
{
    proof {
        lemma_encode_char_len(c);
    }
    let s = char_to_string(c);
    editor.insert(s.as_str());
}

/// One Command-mode key.
fn command_key(editor: &mut Editor, code: KeyCode, modifiers: Modifiers) -> (act: CommandAction)
    requires
        old(editor).wf(),
        old(editor).mode == Mode::Command,
        rope_bytes(old(editor).command).len() + 4 <= MAX_TEXT,
    ensures
        final(editor).wf(),
        command_key_rel(*old(editor), *final(editor), act, code, modifiers),
{
    let ghost c0 = rope_bytes(editor.command);
    match (modifiers, code) {
        (Modifiers::Control, KeyCode::Char(ch)) => {
            if ch == 'a' {
                editor.command_cursor = 0;
                proof {
                    empty_or_any_command_start(c0);
                }
            } else if ch == 'e' {
                editor.command_cursor = rope_byte_len(&editor.command);
                proof {
                    vstd::utf8::is_char_boundary_start_end_of_seq(c0);
                }
            } else if ch == 'b' {
                editor.command_mode_move_left(1);
            } else if ch == 'f' {
                editor.command_mode_move_right(1);
            }
            CommandAction::Nothing
        },
        (Modifiers::Plain, KeyCode::Left) => {
            editor.command_mode_move_left(1);
            CommandAction::Nothing
        },
        (Modifiers::Plain, KeyCode::Right) => {
            editor.command_mode_move_right(1);
            CommandAction::Nothing
        },
        (Modifiers::Plain, KeyCode::Char(ch)) => {
            command_insert_char(editor, ch);
            CommandAction::Nothing
        },
        (Modifiers::Shift, KeyCode::Char(ch)) => {
            command_insert_char(editor, ch);
            CommandAction::Nothing
        },
        (Modifiers::Plain, KeyCode::Backspace) => {
            if editor.command_cursor > 0 {
                match prev_grapheme_boundary(&editor.command, editor.command_cursor) {
                    Some(p) => {
                        proof {
                            crate::model::lemma_splice_delete_wf(
                                c0,
                                p as int,
                                editor.command_cursor as int,
                            );
                        }
                        crate::text::rope_delete(&mut editor.command, p, editor.command_cursor);
                        editor.command_cursor = p;
                    },
                    None => {
                        proof {
                            assert(false);
                        }
                    },
                }
            } else {
                let empty = crate::text::rope_byte_len(&editor.command) == 0;
                if empty {
                    editor.command = rope_new();
                    editor.command_cursor = 0;
                    editor.mode = Mode::Normal;
                    proof {
                        empty_command_wf(*editor);
                    }
                }
            }
            CommandAction::Nothing
        },
        (Modifiers::Plain, KeyCode::Enter) => editor.execute_command(),
        (Modifiers::Plain, KeyCode::Esc) => {
            editor.command = rope_new();
            editor.command_cursor = 0;
            editor.mode = Mode::Normal;
            proof {
                empty_command_wf(*editor);
            }
            CommandAction::Nothing
        },
        _ => CommandAction::Nothing,
    }
}

proof fn empty_or_any_command_start(c0: Seq<u8>)
    ensures
        valid_utf8(c0) ==> is_char_boundary(c0, 0),
{
    if valid_utf8(c0) {
        vstd::utf8::is_char_boundary_start_end_of_seq(c0);
    }
}

/// Splice one typed character into the command line at its cursor.
fn command_insert_char(editor: &mut Editor, c: char)
    requires
        old(editor).wf(),
        rope_bytes(old(editor).command).len() + 4 <= MAX_TEXT,
    ensures
        final(editor).wf(),
        rel_command_insert(*old(editor), *final(editor), c),
{
    proof {
        lemma_encode_char_len(c);
        lemma_splice_insert_wf(
            rope_bytes(editor.command),
            editor.command_cursor as int,
            seq![c],
        );
    }
    let s = char_to_string(c);
    rope_insert(&mut editor.command, editor.command_cursor, s.as_str());
    editor.command_cursor = editor.command_cursor + s.as_str().len();
}

/// One pointer event.
fn mouse_event(editor: &mut Editor, text: Rect, kind: MouseKind, column: u16, row: u16)
    requires
        old(editor).wf(),
        valid_utf8(rope_bytes(old(editor).text)),
        rope_bytes(old(editor).text).len() <= MAX_TEXT,
        rect_in_range(text),
    ensures
        final(editor).wf(),
        mouse_rel(*old(editor), *final(editor), kind, column, row, text),
{
    match kind {
        MouseKind::ScrollUp => {
            editor.scroll_up(3);
        },
        MouseKind::ScrollDown => {
            editor.scroll_down(3);
        },
        MouseKind::PressLeft => {
            match crate::screen::position_to_byte_offset(
                &editor.text,
                editor.vertical_scroll,
                text,
                Position { x: column, y: row },
            ) {
                Some(byte_offset) => {
                    if editor.is_backward() {
                        editor.head = byte_offset;
                    } else {
                        editor.head = ceil_grapheme_boundary(&editor.text, byte_offset + 1);
                    }
                    editor.anchor = byte_offset;
                    editor.desired_column = None;
                },
                None => {},
            }
        },
        MouseKind::PressRight | MouseKind::DragLeft | MouseKind::DragRight => {
            match crate::screen::position_to_byte_offset(
                &editor.text,
                editor.vertical_scroll,
                text,
                Position { x: column, y: row },
            ) {
                Some(byte_offset) => {
                    if editor.is_backward() {
                        editor.head = byte_offset;
                    } else {
                        editor.head = ceil_grapheme_boundary(&editor.text, byte_offset + 1);
                    }
                    editor.desired_column = None;
                },
                None => {},
            }
        },
        MouseKind::Unknown => {},
    }
}

} // verus!
