//! The view mapper: offsets to cells, cells to offsets, line rectangles,
//! and the screen layout split.

use blue::editor::Editor;
use blue::screen::{
    byte_offset_to_area, line_index_to_area, position_to_byte_offset, Areas, Position, Rect,
};

fn area() -> Rect {
    Rect { x: 2, y: 1, width: 20, height: 5 }
}

#[test]
fn offset_maps_to_its_cell() {
    let ed = Editor::from_text("ab\ncde", None);
    let r = byte_offset_to_area(&ed.text, 0, area(), 4).unwrap();
    assert_eq!(r, Rect { x: 3, y: 2, width: 1, height: 1 });
    let r0 = byte_offset_to_area(&ed.text, 0, area(), 0).unwrap();
    assert_eq!(r0, Rect { x: 2, y: 1, width: 1, height: 1 });
}

#[test]
fn end_of_buffer_gets_a_synthetic_cell() {
    let ed = Editor::from_text("ab\ncde", None);
    let r = byte_offset_to_area(&ed.text, 0, area(), 6).unwrap();
    assert_eq!(r, Rect { x: 5, y: 2, width: 1, height: 1 });
}

#[test]
fn wide_and_tab_cells_have_their_display_width() {
    let ed = Editor::from_text("\u{1F600}a\tb", None);
    let emoji = byte_offset_to_area(&ed.text, 0, area(), 0).unwrap();
    assert_eq!(emoji.width, 2);
    let tab = byte_offset_to_area(&ed.text, 0, area(), 5).unwrap();
    assert_eq!(tab.x, 5); // after emoji (2) and "a" (1)
    assert_eq!(tab.width, 8);
}

#[test]
fn offsets_out_of_view_do_not_map() {
    let ed = Editor::from_text("ab\ncde", None);
    // out of the buffer
    assert_eq!(byte_offset_to_area(&ed.text, 0, area(), 7), None);
    // scrolled above the viewport
    assert_eq!(byte_offset_to_area(&ed.text, 1, area(), 0), None);
    // below the viewport
    let short = Rect { x: 0, y: 0, width: 10, height: 1 };
    assert_eq!(byte_offset_to_area(&ed.text, 0, short, 4), None);
    // past the rectangle's right edge
    let narrow = Rect { x: 0, y: 0, width: 2, height: 5 };
    let ed2 = Editor::from_text("abcdef", None);
    assert_eq!(byte_offset_to_area(&ed2.text, 0, narrow, 5), None);
}

#[test]
fn interior_offset_floors_to_cluster_start() {
    let ed = Editor::from_text("a\u{e9}b", None);
    // offset 2 is inside "é", whose cell starts at column 1
    let r = byte_offset_to_area(&ed.text, 0, area(), 2).unwrap();
    assert_eq!(r, Rect { x: 3, y: 1, width: 1, height: 1 });
}

#[test]
fn click_resolves_to_the_covering_cluster() {
    let ed = Editor::from_text("\u{1F600}x\nab", None);
    // both columns of the emoji resolve to its start
    assert_eq!(
        position_to_byte_offset(&ed.text, 0, area(), Position { x: 2, y: 1 }),
        Some(0)
    );
    assert_eq!(
        position_to_byte_offset(&ed.text, 0, area(), Position { x: 3, y: 1 }),
        Some(0)
    );
    assert_eq!(
        position_to_byte_offset(&ed.text, 0, area(), Position { x: 4, y: 1 }),
        Some(4)
    );
}

#[test]
fn click_past_line_end_lands_on_content_end() {
    let ed = Editor::from_text("ab\ncde", None);
    assert_eq!(
        position_to_byte_offset(&ed.text, 0, area(), Position { x: 15, y: 1 }),
        Some(2)
    );
}

#[test]
fn click_below_last_line_lands_at_buffer_end() {
    let ed = Editor::from_text("ab\ncde", None);
    assert_eq!(
        position_to_byte_offset(&ed.text, 0, area(), Position { x: 4, y: 4 }),
        Some(6)
    );
}

#[test]
fn click_outside_the_viewport_is_ignored() {
    let ed = Editor::from_text("ab", None);
    assert_eq!(
        position_to_byte_offset(&ed.text, 0, area(), Position { x: 1, y: 1 }),
        None
    );
    assert_eq!(
        position_to_byte_offset(&ed.text, 0, area(), Position { x: 2, y: 6 }),
        None
    );
}

#[test]
fn cell_and_click_round_trip() {
    let ed = Editor::from_text("ab\nc\u{1F600}e", None);
    for o in [0usize, 1, 2, 3, 4, 8, 9] {
        if ed.text.is_grapheme_boundary(o) {
            let rect = byte_offset_to_area(&ed.text, 0, area(), o).unwrap();
            assert_eq!(
                position_to_byte_offset(
                    &ed.text,
                    0,
                    area(),
                    Position { x: rect.x, y: rect.y }
                ),
                Some(o),
                "round trip failed at offset {o}"
            );
        }
    }
}

#[test]
fn line_rect_spans_rendered_width() {
    let ed = Editor::from_text("ab\nc\u{1F600}e", None);
    let r0 = line_index_to_area(&ed.text, 0, area(), 0).unwrap();
    // "ab" plus its "\n" cluster, which renders one column
    assert_eq!(r0, Rect { x: 2, y: 1, width: 3, height: 1 });
    let r1 = line_index_to_area(&ed.text, 0, area(), 1).unwrap();
    // "c" + emoji + "e" = 4 columns
    assert_eq!(r1, Rect { x: 2, y: 2, width: 4, height: 1 });
    assert_eq!(line_index_to_area(&ed.text, 0, area(), 2), None);
    assert_eq!(line_index_to_area(&ed.text, 1, area(), 0), None);
}

#[test]
fn crlf_counts_as_one_line_break() {
    let ed = Editor::from_text("ab\r\ncd", None);
    // line 0's content is "ab"; the "\r\n" cluster renders one column
    let r0 = line_index_to_area(&ed.text, 0, area(), 0).unwrap();
    assert_eq!(r0.width, 3);
    let r = byte_offset_to_area(&ed.text, 0, area(), 4).unwrap();
    assert_eq!(r, Rect { x: 2, y: 2, width: 1, height: 1 });
}

#[test]
fn screen_split_reserves_status_and_gutter() {
    let frame = Rect { x: 0, y: 0, width: 80, height: 24 };
    let a = Areas::new(1, frame);
    assert_eq!(a.status_bar, Rect { x: 0, y: 0, width: 80, height: 1 });
    assert_eq!(a.line_numbers, Rect { x: 0, y: 1, width: 3, height: 23 });
    assert_eq!(a.text, Rect { x: 3, y: 1, width: 77, height: 23 });
    // a hundred lines need a three-digit gutter
    let b = Areas::new(100, frame);
    assert_eq!(b.line_numbers.width, 4);
    assert_eq!(b.text.width, 76);
}
