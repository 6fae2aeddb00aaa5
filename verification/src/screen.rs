//! The view mapper: bidirectional translation between buffer byte
//! offsets and terminal cell rectangles, given a vertical scroll line and
//! a target viewport rectangle, plus the layout split of the screen into
//! status bar, line numbers and text area.

use vstd::prelude::*;
use vstd::utf8::{decode_utf8, valid_utf8, is_char_boundary};
use crate::model::{line_of, line_start, line_content_end, line_break_at, line_count,
    lemma_line_of_in_range, lemma_line_bracket, lemma_content_bounds};
use crate::text::{rope_bytes, rope_byte_len, rope_line_of_byte, rope_byte_of_line,
    rope_line_count, rope_line_content_len, rope_slice_string, is_gb};
use crate::graphemes::{floor_gb, floor_grapheme_boundary, next_grapheme_boundary, next_gb, lemma_next_gb};
use crate::columns::{MAX_TEXT, walk_pos, prefix_width_pos, seg_width, gb_step, grapheme_width,
    line_prefix_width, line_column_offset, grapheme_width_exec, lemma_prefix_width_nonneg};

verus! {

/// A cell rectangle on the terminal grid.
#[derive(PartialEq, Eq, Structural, Clone, Copy, Debug)]
pub struct Rect {
    pub x: u16,
    pub y: u16,
    pub width: u16,
    pub height: u16,
}

/// A cell position on the terminal grid.
#[derive(PartialEq, Eq, Structural, Clone, Copy, Debug)]
pub struct Position {
    pub x: u16,
    pub y: u16,
}

/// A rectangle that stays within the terminal grid's coordinate range.
pub open spec fn rect_in_range(r: Rect) -> bool {
    r.x + r.width <= 65535 && r.y + r.height <= 65535
}

/// Whether a position lies inside a rectangle.
pub open spec fn rect_contains(r: Rect, p: Position) -> bool {
    r.x <= p.x < r.x + r.width && r.y <= p.y < r.y + r.height
}

/// The display width of the cell at a boundary: a synthetic single
/// column for the end-of-buffer caret, else the width of the grapheme
/// cluster starting there.
pub open spec fn cell_width_at(s: Seq<u8>, fo: int) -> int {
    if fo == s.len() {
        1
    } else {
        seg_width(s, fo, gb_step(s, fo))
    }
}

/// Where a byte offset renders: `None` out of the buffer, scrolled away,
/// or off the rectangle; otherwise the cell of the grapheme cluster at
/// or before the offset.
pub open spec fn offset_rect_spec(s: Seq<u8>, scroll: int, area: Rect, o: int) -> Option<Rect> {
    if o > s.len() {
        None
    } else {
        let fo = floor_gb(s, o);
        let l = line_of(s, fo);
        if scroll > l {
            None
        } else if l - scroll >= area.height {
            None
        } else {
            let pw = prefix_width_pos(s, line_start(s, l), fo);
            if pw >= area.width {
                None
            } else {
                let w = cell_width_at(s, fo);
                Some(
                    Rect {
                        x: (area.x + pw) as u16,
                        y: (area.y + (l - scroll)) as u16,
                        width: (if w > 65535 {
                            65535int
                        } else {
                            w
                        }) as u16,
                        height: 1u16,
                    },
                )
            }
        }
    }
}

/// Which byte offset a pointer position addresses: `None` outside the
/// rectangle; the buffer's end for rows past the last line; otherwise
/// the cluster of the addressed line covering the clicked column, or the
/// line's content end when the click is past it.
pub open spec fn position_offset_spec(s: Seq<u8>, scroll: int, area: Rect, p: Position) -> Option<
    int,
> {
    if !rect_contains(area, p) {
        None
    } else {
        let row = p.y - area.y + scroll;
        if row >= line_count(s) {
            Some(s.len() as int)
        } else {
            Some(walk_pos(s, line_start(s, row), line_content_end(s, row), 0, p.x - area.x))
        }
    }
}

/// The rendered width of a whole line: its content clusters plus its
/// line-break cluster (a `\r\n` pair is one cluster).
pub open spec fn line_rect_width(s: Seq<u8>, l: int) -> int {
    let en = line_content_end(s, l);
    let brk = line_break_at(s, l);
    let raw_end = if brk < s.len() {
        brk + 1
    } else {
        s.len() as int
    };
    prefix_width_pos(s, line_start(s, l), en) + if en < raw_end {
        grapheme_width(decode_utf8(s.subrange(en, raw_end)))
    } else {
        0
    }
}

/// Where a whole line renders: the full-width rectangle spanning its
/// rendered width, or `None` out of view.
pub open spec fn line_rect_spec(s: Seq<u8>, scroll: int, area: Rect, l: int) -> Option<Rect> {
    if scroll > l || l >= line_count(s) {
        None
    } else if l - scroll >= area.height {
        None
    } else {
        let w = line_rect_width(s, l);
        Some(
            Rect {
                x: area.x,
                y: (area.y + (l - scroll)) as u16,
                width: (if w > 65535 {
                    65535int
                } else {
                    w
                }) as u16,
                height: 1u16,
            },
        )
    }
}

/// The cell rectangle in which the grapheme at or before `byte_offset`
/// renders, if it is visible.
pub fn byte_offset_to_area(
    rope: &crop::Rope,
    vertical_scroll: usize,
    area: Rect,
    byte_offset: usize,
) -> (r: Option<Rect>)
    requires
        valid_utf8(rope_bytes(*rope)),
        rope_bytes(*rope).len() <= MAX_TEXT,
        rect_in_range(area),
    ensures
        r == offset_rect_spec(rope_bytes(*rope), vertical_scroll as int, area, byte_offset as int),
{
    let ghost s = rope_bytes(*rope);
    let len = rope_byte_len(rope);
    if byte_offset > len {
        return None;
    }
    let fo = floor_grapheme_boundary(rope, byte_offset);
    let line_offset = rope_line_of_byte(rope, fo);
    if vertical_scroll > line_offset {
        return None;
    }
    let yrel = line_offset - vertical_scroll;
    if yrel >= area.height as usize {
        return None;
    }
    let y = area.y + yrel as u16;
    proof {
        lemma_line_of_in_range(s, fo as int);
        crate::model::lemma_nl_count_mono(s, 0, fo as int);
        crate::model::lemma_nl_count_nonneg(s, fo as int);
    }
    let line_byte_offset = rope_byte_of_line(rope, line_offset);
    proof {
        lemma_line_bracket(s, fo as int);
        // the line's start is a boundary at or before the offset, so
        // flooring cannot pass it
        if (fo as int) < line_byte_offset as int {
            crate::graphemes::lemma_floor_at_least(s, fo as int, line_byte_offset as int);
        }
        lemma_content_bounds(s, line_offset as int);
    }
    let prefix_width = if fo == line_byte_offset {
        0
    } else {
        proof {
            if line_of(s, fo as int) >= line_count(s) {
                crate::model::lemma_line_index_full(s, fo as int);
                assert(fo as int == line_byte_offset as int);
            }
        }
        line_prefix_width(rope, line_offset, fo)
    };
    if prefix_width >= area.width as usize {
        proof {
            lemma_prefix_width_nonneg(s, line_start(s, line_offset as int), fo as int);
        }
        return None;
    }
    let x = area.x + prefix_width as u16;
    let width: u16 = if fo == len {
        1
    } else {
        match next_grapheme_boundary(rope, fo) {
            Some(q) => {
                let g = rope_slice_string(rope, fo, q);
                let w = grapheme_width_exec(g.as_str());
                proof {
                    vstd::utf8::encode_utf8_decode_utf8(g@);
                    assert(seg_width(s, fo as int, q as int) == crate::columns::grapheme_width(
                        g@,
                    ));
                }
                if w > 65535 {
                    65535
                } else {
                    w as u16
                }
            },
            None => {
                proof {
                    assert(false);
                }
                vstd::pervasive::unreached()
            },
        }
    };
    Some(Rect { x, y, width, height: 1 })
}

/// The full-width rectangle in which a whole line renders, if visible.
pub fn line_index_to_area(
    rope: &crop::Rope,
    vertical_scroll: usize,
    area: Rect,
    line_index: usize,
) -> (r: Option<Rect>)
    requires
        valid_utf8(rope_bytes(*rope)),
        rope_bytes(*rope).len() <= MAX_TEXT,
        rect_in_range(area),
    ensures
        r == line_rect_spec(rope_bytes(*rope), vertical_scroll as int, area, line_index as int),
{
    let ghost s = rope_bytes(*rope);
    if vertical_scroll > line_index {
        return None;
    }
    let lines = rope_line_count(rope);
    if line_index >= lines {
        return None;
    }
    let yrel = line_index - vertical_scroll;
    if yrel >= area.height as usize {
        return None;
    }
    let y = area.y + yrel as u16;
    let st = rope_byte_of_line(rope, line_index);
    let content_len = rope_line_content_len(rope, line_index);
    proof {
        lemma_content_bounds(s, line_index as int);
    }
    let en = st + content_len;
    let content_width = line_prefix_width(rope, line_index, en);
    let len = rope_byte_len(rope);
    let ghost brk = line_break_at(s, line_index as int);
    // The raw end of the line: one past its break, found as the next
    // line's start (or the buffer's end on the final line).
    let raw_end = rope_byte_of_line(rope, line_index + 1);
    proof {
        crate::model::lemma_line_start_props(s, line_index as int);
        crate::model::lemma_next_nl_props(s, line_start(s, line_index as int));
        assert(line_start(s, line_index as int + 1) == (if brk < s.len() {
            brk + 1
        } else {
            s.len() as int
        }));
    }
    let term_width: usize = if en < raw_end {
        let g = rope_slice_string(rope, en, raw_end);
        let w = grapheme_width_exec(g.as_str());
        proof {
            vstd::utf8::encode_utf8_decode_utf8(g@);
        }
        w
    } else {
        0
    };
    let w = content_width + term_width;
    let width: u16 = if w > 65535 {
        65535
    } else {
        w as u16
    };
    proof {
        lemma_prefix_width_nonneg(s, line_start(s, line_index as int), en as int);
        crate::columns::lemma_grapheme_width_nonneg(
            decode_utf8(s.subrange(en as int, raw_end as int)),
        );
    }
    Some(Rect { x: area.x, y, width, height: 1 })
}

/// The byte offset a pointer position addresses, if it is inside the
/// viewport.
pub fn position_to_byte_offset(
    rope: &crop::Rope,
    vertical_scroll: usize,
    area: Rect,
    position: Position,
) -> (r: Option<usize>)
    requires
        valid_utf8(rope_bytes(*rope)),
        rope_bytes(*rope).len() <= MAX_TEXT,
        rect_in_range(area),
    ensures
        ({
            let spec = position_offset_spec(
                rope_bytes(*rope),
                vertical_scroll as int,
                area,
                position,
            );
            match r {
                None => spec is None,
                Some(o) => spec == Some(o as int) && o <= rope_bytes(*rope).len() && is_gb(
                    rope_bytes(*rope),
                    o as int,
                ) && is_char_boundary(rope_bytes(*rope), o as int),
            }
        }),
{
    let ghost s = rope_bytes(*rope);
    let inside = area.x <= position.x && (position.x as usize) < area.x as usize
        + area.width as usize && area.y <= position.y && (position.y as usize) < area.y as usize
        + area.height as usize;
    if !inside {
        return None;
    }
    let target_column = (position.x - area.x) as usize;
    let lines = rope_line_count(rope);
    if vertical_scroll > usize::MAX - 65536 {
        let len = rope_byte_len(rope);
        proof {
            vstd::utf8::is_char_boundary_start_end_of_seq(s);
            crate::model::lemma_nl_count_nonneg(s, s.len() as int);
            crate::model::lemma_nl_count_mono(s, 0, s.len() as int);
        }
        return Some(len);
    }
    let row = (position.y - area.y) as usize + vertical_scroll;
    if row >= lines {
        let len = rope_byte_len(rope);
        proof {
            vstd::utf8::is_char_boundary_start_end_of_seq(s);
        }
        return Some(len);
    }
    let o = line_column_offset(rope, row, target_column);
    Some(o)
}

/// Law: mapping a visible boundary to its cell and clicking that cell's
/// first column addresses the same offset, whenever the cell is at least
/// one column wide and the offset sits in its line's content (or at the
/// very end of the buffer).
pub proof fn lemma_view_round_trip(s: Seq<u8>, scroll: int, area: Rect, o: int)
    requires
        0 <= o <= s.len(),
        0 <= scroll,
        is_gb(s, o),
        o < s.len() ==> o <= line_content_end(s, line_of(s, o)),
        is_gb(s, line_content_end(s, line_of(s, o))),
        offset_rect_spec(s, scroll, area, o) matches Some(rect) && rect.width >= 1,
        rect_in_range(area),
    ensures
        offset_rect_spec(s, scroll, area, o) matches Some(rect) && position_offset_spec(
            s,
            scroll,
            area,
            Position { x: rect.x, y: rect.y },
        ) == Some(o),
{
    let fo = floor_gb(s, o);
    assert(fo == o);
    let l = line_of(s, o);
    let st = line_start(s, l);
    let en = line_content_end(s, l);
    let rect = offset_rect_spec(s, scroll, area, o).unwrap();
    let pw = prefix_width_pos(s, st, o);
    lemma_prefix_width_nonneg(s, st, o);
    crate::model::lemma_nl_count_nonneg(s, o);
    let p = Position { x: rect.x, y: rect.y };
    assert(rect_contains(area, p));
    assert(p.y - area.y + scroll == l);
    assert(p.x - area.x == pw);
    lemma_line_bracket(s, o);
    lemma_line_of_in_range(s, o);
    if l >= line_count(s) {
        // only the very end of a text whose final break closed the last
        // line sits past the last line; the click resolves to the end
        crate::model::lemma_line_index_full(s, o);
        assert(position_offset_spec(s, scroll, area, p) == Some(s.len() as int));
    } else {
        crate::model::lemma_content_bounds(s, l);
        if o == s.len() {
            // the last line is unterminated here, so its content reaches
            // the end of the buffer
            assert(o <= line_break_at(s, l));
            crate::model::lemma_next_nl_props(s, st);
            assert(line_break_at(s, l) <= s.len());
            assert(en == s.len());
            crate::columns::lemma_walk_exact(s, st, en, o, 0);
        } else {
            assert(o <= en);
            assert(rect.width >= 1);
            assert(cell_width_at(s, o) >= 1 || cell_width_at(s, o) > 65535);
            if o < en {
                assert(gb_step(s, o) <= en) by {
                    lemma_next_gb(s, o);
                    if next_gb(s, o) > en {
                        assert(en > o && en < next_gb(s, o));
                        assert(!is_gb(s, en));
                        assert(false);
                    }
                }
            }
            crate::columns::lemma_walk_exact(s, st, en, o, 0);
        }
    }
}


/// How many decimal digits a positive count prints with.
pub open spec fn digits_of(n: int) -> int
    decreases n,
{
    if n < 10 {
        1
    } else {
        1 + digits_of(n / 10)
    }
}

/// Width of the line-number gutter: at least two digit columns, plus one
/// for the separator.
pub open spec fn gutter_width_spec(line_total: int) -> int {
    let digits = digits_of(
        if line_total >= 1 {
            line_total
        } else {
            1
        },
    );
    (if digits >= 2 {
        digits
    } else {
        2
    }) + 1
}

/// The screen split: one status-bar row on top, then a line-number
/// gutter on the left of the text area.
pub open spec fn areas_spec(line_total: int, area: Rect) -> (Rect, Rect, Rect) {
    let status_h = if area.height >= 1 {
        1int
    } else {
        0int
    };
    let main_y = area.y + status_h;
    let main_h = area.height - status_h;
    let lnw = (if gutter_width_spec(line_total) <= area.width {
        gutter_width_spec(line_total)
    } else {
        area.width as int
    });
    (
        Rect { x: area.x, y: area.y, width: area.width, height: status_h as u16 },
        Rect { x: area.x, y: main_y as u16, width: lnw as u16, height: main_h as u16 },
        Rect {
            x: (area.x + lnw) as u16,
            y: main_y as u16,
            width: (area.width - lnw) as u16,
            height: main_h as u16,
        },
    )
}

/// The three regions the screen splits into.
pub struct Areas {
    pub status_bar: Rect,
    pub line_numbers: Rect,
    pub text: Rect,
}

impl Areas {
    /// Split the frame: one status-bar row, then a gutter sized for the
    /// buffer's line numbers beside the text area.
    pub fn new(line_total: usize, area: Rect) -> (r: Areas)
        requires
            rect_in_range(area),
        ensures
            (r.status_bar, r.line_numbers, r.text) == areas_spec(line_total as int, area),
            rect_in_range(r.text),
    {
        let mut m: usize = if line_total >= 1 {
            line_total
        } else {
            1
        };
        let ghost m0 = m as int;
        let mut digits: usize = 1;
        while m >= 10
            invariant
                m >= 1,
                digits >= 1,
                m0 <= usize::MAX,
                digits_of(m0) == digits - 1 + digits_of(m as int),
                9 * (digits - 1) + m <= m0,
            decreases m,
        {
            proof {
                assert(m as int - m as int / 10 >= 9) by (nonlinear_arith)
                    requires
                        m >= 10,
                ;
            }
            m = m / 10;
            digits = digits + 1;
        }
        proof {
            assert(9 * (digits - 1) + 1 <= m0);
        }
        let gutter = (if digits >= 2 {
            digits
        } else {
            2
        }) + 1;
        let lnw: u16 = if gutter <= area.width as usize {
            gutter as u16
        } else {
            area.width
        };
        let status_h: u16 = if area.height >= 1 {
            1
        } else {
            0
        };
        let status_bar = Rect { x: area.x, y: area.y, width: area.width, height: status_h };
        let main_y = area.y + status_h;
        let main_h = area.height - status_h;
        let line_numbers = Rect { x: area.x, y: main_y, width: lnw, height: main_h };
        let text = Rect { x: area.x + lnw, y: main_y, width: area.width - lnw, height: main_h };
        Areas { status_bar, line_numbers, text }
    }
}

} // verus!
