//! Selection and editing behaviour of the editor core.

use blue::editor::Editor;
use blue::graphemes::{
    ceil_grapheme_boundary, floor_grapheme_boundary, next_grapheme_boundary,
    prev_grapheme_boundary,
};

#[test]
fn fresh_editor_is_empty_scratch() {
    let ed = Editor::new();
    assert_eq!(ed.anchor, 0);
    assert_eq!(ed.head, 0);
    assert_eq!(ed.save_payload(), Vec::<u8>::new());
    assert!(ed.path.is_none());
    assert!(!ed.modified);
}

#[test]
fn boundary_scan_on_multibyte_text() {
    // "héllo": h=1 byte, é=2 bytes
    let ed = Editor::from_text("h\u{e9}llo", None);
    assert_eq!(next_grapheme_boundary(&ed.text, 0), Some(1));
    assert_eq!(next_grapheme_boundary(&ed.text, 1), Some(3));
    assert_eq!(prev_grapheme_boundary(&ed.text, 3), Some(1));
    assert_eq!(prev_grapheme_boundary(&ed.text, 0), None);
    assert_eq!(next_grapheme_boundary(&ed.text, 6), None);
}

#[test]
fn floor_and_ceil_bracket_offsets() {
    let ed = Editor::from_text("a\u{e9}b", None); // boundaries 0,1,3,4
    assert_eq!(floor_grapheme_boundary(&ed.text, 2), 1);
    assert_eq!(ceil_grapheme_boundary(&ed.text, 2), 3);
    // a boundary floors and ceils to itself
    assert_eq!(floor_grapheme_boundary(&ed.text, 3), 3);
    assert_eq!(ceil_grapheme_boundary(&ed.text, 3), 3);
    // flooring twice equals flooring once
    let f = floor_grapheme_boundary(&ed.text, 2);
    assert_eq!(floor_grapheme_boundary(&ed.text, f), f);
    // past the end both clamp to the length
    assert_eq!(floor_grapheme_boundary(&ed.text, 99), 4);
    assert_eq!(ceil_grapheme_boundary(&ed.text, 99), 4);
}

#[test]
fn combining_mark_is_one_cluster() {
    // "a" + COMBINING ACUTE + "b": boundaries 0, 3, 4
    let mut ed = Editor::from_text("a\u{301}b", None);
    ed.move_right(1);
    assert_eq!(ed.head, 3);
    assert!(ed.text.is_grapheme_boundary(ed.head));
    ed.move_right(1);
    assert_eq!(ed.head, 4);
    ed.move_left(2);
    assert_eq!(ed.head, 0);
}

#[test]
fn movement_stops_at_buffer_edges() {
    let mut ed = Editor::from_text("ab", None);
    ed.move_left(5);
    assert_eq!(ed.head, 0);
    ed.move_right(99);
    assert_eq!(ed.head, 2);
    assert_eq!(ed.anchor, 2);
}

#[test]
fn is_forward_tracks_anchor_head_order() {
    let mut ed = Editor::from_text("abc", None);
    ed.anchor = 2;
    ed.head = 1;
    assert!(!ed.is_forward());
    assert!(ed.is_backward());
    ed.flip();
    assert_eq!((ed.anchor, ed.head), (1, 2));
    assert!(ed.is_forward());
}

#[test]
fn flip_forward_is_idempotent() {
    let mut ed = Editor::from_text("abc", None);
    ed.anchor = 2;
    ed.head = 0;
    ed.flip_forward();
    assert_eq!((ed.anchor, ed.head), (0, 2));
    ed.flip_forward();
    assert_eq!((ed.anchor, ed.head), (0, 2));
}

#[test]
fn extend_to_covers_clicked_cluster() {
    let mut ed = Editor::from_text("abc", None);
    // forward selection: extending to offset 1 covers the cluster there
    ed.extend_to(1);
    assert_eq!(ed.head, 2);
    assert_eq!(ed.anchor, 0);
    // backward selection: the head lands exactly on the offset
    ed.anchor = 3;
    ed.head = 1;
    ed.extend_to(0);
    assert_eq!(ed.head, 0);
}

#[test]
fn move_to_builds_forward_caret() {
    let mut ed = Editor::from_text("abc", None);
    ed.move_to(1);
    // covers the clicked grapheme, forward-oriented
    assert_eq!((ed.anchor, ed.head), (1, 2));
    assert!(ed.is_forward());
}

#[test]
fn delete_collapses_to_selection_start() {
    let mut ed = Editor::from_text("hello", None);
    ed.anchor = 3;
    ed.head = 1; // backward selection over "el"
    ed.delete();
    assert_eq!(ed.save_payload(), b"hlo".to_vec());
    assert_eq!((ed.anchor, ed.head), (1, 1));
    assert!(ed.modified);
}

#[test]
fn delete_then_insert_restores_content() {
    let mut ed = Editor::from_text("hello", None);
    ed.anchor = 1;
    ed.head = 3;
    ed.delete();
    ed.insert("el");
    assert_eq!(ed.save_payload(), b"hello".to_vec());
    assert_eq!(ed.save_payload().len(), 5);
}

#[test]
fn insert_advances_head_and_marks_modified() {
    let mut ed = Editor::from_text("ac", None);
    ed.move_right(1);
    ed.insert("b");
    assert_eq!(ed.save_payload(), b"abc".to_vec());
    assert_eq!((ed.anchor, ed.head), (2, 2));
    assert!(ed.modified);
    assert!(ed.desired_column.is_none());
}

#[test]
fn delete_before_removes_preceding_cluster() {
    let mut ed = Editor::from_text("a\u{301}b", None);
    ed.head = 3;
    ed.anchor = 3;
    ed.delete_before();
    assert_eq!(ed.save_payload(), b"b".to_vec());
    assert_eq!((ed.anchor, ed.head), (0, 0));
    // at the start it is a no-op
    let mut ed2 = Editor::from_text("x", None);
    ed2.delete_before();
    assert_eq!(ed2.save_payload(), b"x".to_vec());
    assert!(!ed2.modified);
}

#[test]
fn delete_after_keeps_head_in_place() {
    let mut ed = Editor::from_text("ab", None);
    ed.delete_after();
    assert_eq!(ed.save_payload(), b"b".to_vec());
    assert_eq!((ed.anchor, ed.head), (0, 0));
    // at the end it is a no-op
    let mut ed2 = Editor::from_text("a", None);
    ed2.head = 1;
    ed2.anchor = 1;
    ed2.delete_after();
    assert_eq!(ed2.save_payload(), b"a".to_vec());
}

#[test]
fn vertical_move_scenario_two_lines() {
    // buffer "ab\ncde", head at byte 1: down then up restores byte 1
    let mut ed = Editor::from_text("ab\ncde", None);
    ed.move_right(1);
    assert_eq!(ed.head, 1);
    ed.move_down(1);
    assert_eq!(ed.head, 4); // column 1 of "cde"
    ed.move_up(1);
    assert_eq!(ed.head, 1);
}

#[test]
fn vertical_move_remembers_column_across_short_line() {
    // middle line is shorter than the cached column
    let mut ed = Editor::from_text("abcdef\nxy\nlonger", None);
    ed.move_right(4);
    assert_eq!(ed.head, 4);
    ed.move_down(1);
    assert_eq!(ed.head, 9); // clamped to the end of "xy"
    ed.move_down(1);
    assert_eq!(ed.head, 14); // back out to column 4 of "longer"
    ed.move_up(2);
    assert_eq!(ed.head, 4);
}

#[test]
fn vertical_move_down_past_last_line_hits_end() {
    let mut ed = Editor::from_text("ab\ncd", None);
    ed.move_down(5);
    assert_eq!(ed.head, 5);
    ed.move_up(99);
    assert_eq!(ed.head, 0);
}

#[test]
fn vertical_move_uses_display_columns_with_tab() {
    // a tab is eight columns wide; "\tx" then "aaaaaaaaab"
    let mut ed = Editor::from_text("\tx\naaaaaaaaab", None);
    ed.move_right(1); // head after the tab: column 8
    assert_eq!(ed.head, 1);
    ed.move_down(1);
    // column 8 of the second line: after eight "a"s
    assert_eq!(ed.head, 11);
    ed.move_up(1);
    assert_eq!(ed.head, 1);
}

#[test]
fn wide_grapheme_occupies_two_columns() {
    // an emoji is two columns wide
    let mut ed = Editor::from_text("\u{1F600}x\nabcdef", None);
    ed.move_right(1); // past the emoji: column 2, byte 4
    assert_eq!(ed.head, 4);
    ed.move_down(1);
    assert_eq!(ed.head, 8); // column 2 of "abcdef"
}

#[test]
fn line_start_and_end_nudge_by_orientation() {
    let mut ed = Editor::from_text("abc\ndef", None);
    ed.head = 4;
    ed.anchor = 4;
    // a forward caret at the line start nudges one grapheme right
    ed.extend_line_start();
    assert_eq!(ed.anchor, 4);
    assert_eq!(ed.head, 5);
    // a backward selection lands exactly on the line start
    ed.anchor = 6;
    ed.head = 5;
    ed.extend_line_start();
    assert_eq!(ed.head, 4);
    // extend_line_end from a forward position lands on the content end
    let mut ed2 = Editor::from_text("abc\ndef", None);
    ed2.extend_line_end();
    assert_eq!(ed2.head, 3);
    // with the anchor past the line's end the head nudges one left
    ed2.anchor = 6;
    ed2.head = 1;
    ed2.extend_line_end();
    assert_eq!(ed2.head, 2);
}

#[test]
fn move_line_ops_collapse_selection() {
    let mut ed = Editor::from_text("abc\ndef", None);
    ed.head = 6;
    ed.anchor = 6;
    ed.move_line_start();
    assert_eq!((ed.anchor, ed.head), (4, 4)); // backward: no nudge
    ed.move_line_end();
    assert_eq!((ed.anchor, ed.head), (7, 7));
}

#[test]
fn scroll_clamps_to_line_range() {
    let mut ed = Editor::from_text("a\nb\nc", None);
    ed.scroll_down(10);
    assert_eq!(ed.vertical_scroll, 2);
    ed.scroll_up(1);
    assert_eq!(ed.vertical_scroll, 1);
    ed.scroll_up(10);
    assert_eq!(ed.vertical_scroll, 0);
    let mut empty = Editor::new();
    empty.scroll_down(5);
    assert_eq!(empty.vertical_scroll, 0);
}

#[test]
fn selection_ends_stay_on_boundaries() {
    let mut ed = Editor::from_text("a\u{301}b\n\u{1F600}c", None);
    ed.move_right(2);
    assert!(ed.text.is_grapheme_boundary(ed.anchor));
    assert!(ed.text.is_grapheme_boundary(ed.head));
    ed.move_down(1);
    assert!(ed.text.is_grapheme_boundary(ed.head));
    ed.extend_up(1);
    assert!(ed.text.is_grapheme_boundary(ed.head));
    ed.extend_line_end();
    assert!(ed.text.is_grapheme_boundary(ed.head));
}
