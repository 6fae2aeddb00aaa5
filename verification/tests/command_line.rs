//! The command interpreter and the command-line sub-editor.

use blue::editor::{CommandAction, Editor, Mode};

fn with_command(text: &str, cmd: &str) -> Editor {
    let mut ed = Editor::from_text(text, None);
    ed.command = crop::Rope::from(cmd);
    ed.command_cursor = cmd.len();
    ed.mode = Mode::Command;
    ed
}

#[test]
fn echo_joins_words_with_spaces() {
    let mut ed = with_command("", "echo hello world");
    let act = ed.execute_command();
    assert_eq!(act, CommandAction::Nothing);
    assert_eq!(ed.message, Some(Ok(String::from("hello world"))));
    assert_eq!(ed.mode, Mode::Normal);
    assert_eq!(ed.command.byte_len(), 0);
    assert_eq!(ed.command_cursor, 0);
}

#[test]
fn echo_error_flag_styles_message_as_error() {
    let mut ed = with_command("", "echo --error oops");
    let act = ed.execute_command();
    assert_eq!(act, CommandAction::Nothing);
    assert_eq!(ed.message, Some(Err(String::from("oops"))));
}

#[test]
fn echo_respects_shell_quoting() {
    let mut ed = with_command("", "echo 'hello   world'");
    ed.execute_command();
    assert_eq!(ed.message, Some(Ok(String::from("hello   world"))));
}

#[test]
fn mismatched_quote_is_invalid_command() {
    let mut ed = with_command("", "echo 'oops");
    let act = ed.execute_command();
    assert_eq!(act, CommandAction::Nothing);
    assert_eq!(ed.message, Some(Err(String::from("Invalid command"))));
    assert_eq!(ed.mode, Mode::Normal);
}

#[test]
fn empty_command_line_changes_nothing() {
    let mut ed = with_command("text", "");
    let act = ed.execute_command();
    assert_eq!(act, CommandAction::Nothing);
    assert_eq!(ed.message, None);
    assert_eq!(ed.exit_code, None);
    assert_eq!(ed.mode, Mode::Normal);
    assert!(!ed.modified);
}

#[test]
fn quit_refuses_unsaved_changes() {
    let mut ed = with_command("x", "quit");
    ed.modified = true;
    let act = ed.execute_command();
    assert_eq!(act, CommandAction::Nothing);
    assert_eq!(ed.message, Some(Err(String::from("Unsaved changes"))));
    assert_eq!(ed.exit_code, None);
}

#[test]
fn quit_sets_default_exit_code() {
    let mut ed = with_command("x", "quit");
    ed.execute_command();
    assert_eq!(ed.exit_code, Some(0));
    assert_eq!(ed.message, None);
}

#[test]
fn quit_accepts_a_small_integer_code() {
    let mut ed = with_command("x", "q 7");
    ed.execute_command();
    assert_eq!(ed.exit_code, Some(7));
}

#[test]
fn quit_force_ignores_unsaved_changes() {
    let mut ed = with_command("x", "quit!");
    ed.modified = true;
    let act = ed.execute_command();
    assert_eq!(act, CommandAction::Nothing);
    assert_eq!(ed.exit_code, Some(0));
    let mut ed2 = with_command("x", "q! 5");
    ed2.modified = true;
    ed2.execute_command();
    assert_eq!(ed2.exit_code, Some(5));
}

#[test]
fn quit_rejects_a_bad_code() {
    let mut ed = with_command("x", "quit abc");
    ed.execute_command();
    assert_eq!(
        ed.message,
        Some(Err(String::from("invalid value 'abc' for exit code")))
    );
    assert_eq!(ed.exit_code, None);
    let mut ed2 = with_command("x", "quit 300");
    ed2.execute_command();
    assert_eq!(
        ed2.message,
        Some(Err(String::from("invalid value '300' for exit code")))
    );
}

#[test]
fn unknown_verb_is_named_in_the_error() {
    let mut ed = with_command("x", "frobnicate now");
    let act = ed.execute_command();
    assert_eq!(act, CommandAction::Nothing);
    assert_eq!(
        ed.message,
        Some(Err(String::from("unrecognized subcommand 'frobnicate'")))
    );
}

#[test]
fn write_requests_persistence() {
    let mut ed = with_command("data", "write");
    ed.modified = true;
    let act = ed.execute_command();
    assert_eq!(act, CommandAction::Write);
    // the caller persists, then reports back
    assert_eq!(ed.save_payload(), b"data".to_vec());
    ed.mark_saved();
    assert!(!ed.modified);
}

#[test]
fn write_rejects_extra_arguments() {
    let mut ed = with_command("x", "w now");
    let act = ed.execute_command();
    assert_eq!(act, CommandAction::Nothing);
    assert_eq!(
        ed.message,
        Some(Err(String::from("unexpected argument 'now' found")))
    );
}

#[test]
fn write_quit_carries_the_exit_code() {
    // an unmodified buffer with a known path: confirming `wq 3`
    // persists the buffer and sets the exit signal to 3
    let mut ed = with_command("content", "wq 3");
    ed.path = Some(String::from("file.txt"));
    let act = ed.execute_command();
    assert_eq!(act, CommandAction::WriteAndQuit(3));
    // the caller writes the payload to the path, then reports back
    assert_eq!(ed.save_payload(), b"content".to_vec());
    ed.mark_saved();
    ed.set_exit(3);
    assert_eq!(ed.exit_code, Some(3));
    assert!(!ed.modified);
    assert_eq!(ed.mode, Mode::Normal);
}

#[test]
fn command_cursor_moves_by_graphemes() {
    let mut ed = with_command("", "a\u{e9}c");
    assert_eq!(ed.command_cursor, 4);
    ed.command_mode_move_left(2);
    assert_eq!(ed.command_cursor, 1);
    ed.command_mode_move_right(1);
    assert_eq!(ed.command_cursor, 3);
    ed.command_mode_move_left(99);
    assert_eq!(ed.command_cursor, 0);
}

#[test]
fn command_delete_before_and_after_cursor() {
    let mut ed = with_command("", "abcdef");
    ed.command_mode_move_left(3);
    ed.command_mode_delete_before();
    assert_eq!(ed.command.to_string(), "def");
    assert_eq!(ed.command_cursor, 0);
    ed.command_mode_move_right(2);
    ed.command_mode_delete_after();
    assert_eq!(ed.command.to_string(), "de");
    assert_eq!(ed.command_cursor, 2);
}
