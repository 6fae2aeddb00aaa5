//! The editor state and its operations: an anchor/head selection over a
//! text buffer, the input mode, the command-line sub-editor, the cached
//! desired column for vertical movement, and the viewport scroll.

use vstd::prelude::*;
use vstd::utf8::{encode_utf8, is_char_boundary, valid_utf8};
use crate::model::{splice_insert, splice_delete, line_count, line_of, line_start, line_break_at,
    line_content_end, lemma_line_of_in_range, lemma_line_bracket, lemma_line_start_props,
    lemma_next_nl_props, lemma_splice_insert_wf, lemma_splice_delete_wf,
    lemma_splice_delete_keeps_prefix};
use crate::text::{rope_bytes, rope_new, rope_from_str, rope_byte_len, rope_insert, rope_delete,
    rope_line_of_byte, rope_byte_of_line, rope_line_count, rope_line_content_len, rope_bytes_vec,
    is_gb};
use crate::graphemes::{prev_gb, next_gb, prev_grapheme_boundary, next_grapheme_boundary,
    ceil_grapheme_boundary, ceil_gb};
use crate::columns::{MAX_TEXT, line_prefix_width};

verus! {

/// The input mode of the finite-state dispatcher.
#[derive(PartialEq, Eq, Structural, Clone, Copy, Debug)]
pub enum Mode {
    Normal,
    Goto,
    Insert,
    Command,
}

/// The I/O work a confirmed command asks the caller to perform: the
/// editing core never touches the file system itself.
#[derive(PartialEq, Eq, Structural, Clone, Copy, Debug)]
pub enum CommandAction {
    /// No persistence needed.
    Nothing,
    /// Persist the buffer, then report back with `mark_saved`.
    Write,
    /// Persist the buffer, then `mark_saved` and `set_exit` with the code.
    WriteAndQuit(u8),
}

pub struct Editor {
    /// Working directory, used only to render paths relative.
    pub pwd: Option<String>,
    /// Path associated with the buffer, if any.
    pub path: Option<String>,
    /// Whether the buffer changed since it was last saved.
    pub modified: bool,
    /// The text buffer.
    pub text: crop::Rope,
    /// The fixed end of the selection.
    pub anchor: usize,
    /// The end of the selection moved by navigation.
    pub head: usize,
    /// Cached display column that vertical movement preserves.
    pub desired_column: Option<usize>,
    /// First visible line of the viewport.
    pub vertical_scroll: usize,
    /// Current input mode.
    pub mode: Mode,
    /// The command-line sub-editor's buffer.
    pub command: crop::Rope,
    /// The command-line sub-editor's cursor, a byte offset into `command`.
    pub command_cursor: usize,
    /// Status message shown after a command ran: success or error text.
    pub message: Option<Result<String, String>>,
    /// Pending exit signal; its presence ends the main loop.
    pub exit_code: Option<u8>,
}

/// Where `extend_to` puts the head: a backward selection lands exactly
/// on the offset; a forward one covers the offset's whole cluster.
pub open spec fn extend_to_target(s: Seq<u8>, anchor: int, head: int, o: int) -> int {
    if anchor > head {
        o
    } else {
        ceil_gb(s, o + 1)
    }
}

/// One leftward step of the head: to the previous grapheme boundary,
/// stopping at the buffer's start, clamping from past its end.
pub open spec fn step_left1(s: Seq<u8>, h: int) -> int {
    if h <= 0 {
        0
    } else if h > s.len() {
        s.len() as int
    } else {
        prev_gb(s, h)
    }
}

/// `n` leftward steps.
pub open spec fn step_left_n(s: Seq<u8>, h: int, n: int) -> int
    decreases n,
{
    if n <= 0 {
        h
    } else {
        step_left_n(s, step_left1(s, h), n - 1)
    }
}

/// One rightward step of the head: to the next grapheme boundary,
/// stopping at the buffer's end.
pub open spec fn step_right1(s: Seq<u8>, h: int) -> int {
    if h >= s.len() {
        h
    } else {
        next_gb(s, h)
    }
}

/// `n` rightward steps.
pub open spec fn step_right_n(s: Seq<u8>, h: int, n: int) -> int
    decreases n,
{
    if n <= 0 {
        h
    } else {
        step_right_n(s, step_right1(s, h), n - 1)
    }
}

pub proof fn lemma_step_left_n(s: Seq<u8>, h: int, n: int)
    requires
        0 <= h <= s.len(),
        n >= 0,
    ensures
        0 <= step_left_n(s, h, n) <= h,
        n >= 1 || is_gb(s, h) ==> is_gb(s, step_left_n(s, h, n)),
    decreases n,
{
    if n > 0 {
        if h > 0 {
            crate::graphemes::lemma_prev_gb(s, h);
        }
        lemma_step_left_n(s, step_left1(s, h), n - 1);
    }
}

pub proof fn lemma_step_right_n(s: Seq<u8>, h: int, n: int)
    requires
        0 <= h <= s.len(),
        n >= 0,
    ensures
        h <= step_right_n(s, h, n) <= s.len(),
        n >= 1 || is_gb(s, h) ==> is_gb(s, step_right_n(s, h, n)),
    decreases n,
{
    if n > 0 {
        if h < s.len() {
            crate::graphemes::lemma_next_gb(s, h);
        } else {
            assert(is_gb(s, h));
        }
        lemma_step_right_n(s, step_right1(s, h), n - 1);
    }
}

/// Once the head reached the buffer's start, further left steps hold it there.
pub proof fn lemma_step_left_stuck(s: Seq<u8>, n: int)
    ensures
        step_left_n(s, 0, n) == 0,
    decreases n,
{
    if n > 0 {
        lemma_step_left_stuck(s, n - 1);
    }
}

/// Once the head reached the buffer's end, further right steps hold it there.
pub proof fn lemma_step_right_stuck(s: Seq<u8>, h: int, n: int)
    requires
        h >= s.len(),
    ensures
        step_right_n(s, h, n) == h,
    decreases n,
{
    if n > 0 {
        lemma_step_right_stuck(s, h, n - 1);
    }
}

impl Editor {
    /// Basic well-formedness: the buffers hold valid UTF-8 within the
    /// size limit, and all cursor offsets sit on `char` boundaries.
    pub open spec fn wf(self) -> bool {
        let s = rope_bytes(self.text);
        let c = rope_bytes(self.command);
        &&& valid_utf8(s)
        &&& s.len() <= MAX_TEXT
        &&& self.anchor <= s.len()
        &&& is_char_boundary(s, self.anchor as int)
        &&& self.head <= s.len()
        &&& is_char_boundary(s, self.head as int)
        &&& valid_utf8(c)
        &&& c.len() <= MAX_TEXT
        &&& self.command_cursor <= c.len()
        &&& is_char_boundary(c, self.command_cursor as int)
    }

    /// Both selection ends are grapheme boundaries (the invariant that
    /// every movement operation re-establishes for the offsets it moves).
    pub open spec fn selection_on_boundaries(self) -> bool {
        is_gb(rope_bytes(self.text), self.anchor as int) && is_gb(
            rope_bytes(self.text),
            self.head as int,
        )
    }

    /// Everything except the buffer, the modified flag and the selection
    /// is unchanged between two states.
    pub open spec fn same_but_edit(self, o: Editor) -> bool {
        &&& self.pwd == o.pwd
        &&& self.path == o.path
        &&& self.vertical_scroll == o.vertical_scroll
        &&& self.mode == o.mode
        &&& self.command == o.command
        &&& self.command_cursor == o.command_cursor
        &&& self.message == o.message
        &&& self.exit_code == o.exit_code
    }

    /// Everything except the selection (anchor, head, desired column) is
    /// unchanged between two states.
    pub open spec fn same_but_selection(self, o: Editor) -> bool {
        &&& self.pwd == o.pwd
        &&& self.path == o.path
        &&& self.modified == o.modified
        &&& self.text == o.text
        &&& self.vertical_scroll == o.vertical_scroll
        &&& self.mode == o.mode
        &&& self.command == o.command
        &&& self.command_cursor == o.command_cursor
        &&& self.message == o.message
        &&& self.exit_code == o.exit_code
    }

    /// A fresh editor over an empty scratch buffer.
    pub fn new() -> (e: Editor)
        ensures
            e.wf(),
            rope_bytes(e.text).len() == 0,
            e.anchor == 0 && e.head == 0,
            e.desired_column is None,
            e.vertical_scroll == 0,
            e.mode == Mode::Normal,
            e.path is None,
            e.pwd is None,
            !e.modified,
            e.message is None,
            e.exit_code is None,
            rope_bytes(e.command).len() == 0 && e.command_cursor == 0,
    {
        let e = Editor {
            pwd: None,
            path: None,
            modified: false,
            text: rope_new(),
            anchor: 0,
            head: 0,
            desired_column: None,
            vertical_scroll: 0,
            mode: Mode::Normal,
            command: rope_new(),
            command_cursor: 0,
            message: None,
            exit_code: None,
        };
        proof {
            vstd::utf8::is_char_boundary_start_end_of_seq(rope_bytes(e.text));
            vstd::utf8::is_char_boundary_start_end_of_seq(rope_bytes(e.command));
            assert(valid_utf8(rope_bytes(e.text))) by {
                vstd::utf8::encode_utf8_valid_utf8(Seq::<char>::empty());
                assert(encode_utf8(Seq::<char>::empty()) =~= Seq::<u8>::empty());
            }
            assert(valid_utf8(rope_bytes(e.command)));
        }
        e
    }

    /// An editor over the given text, remembering an optional path.
    pub fn from_text(text: &str, path: Option<String>) -> (e: Editor)
        requires
            encode_utf8(text@).len() <= MAX_TEXT,
        ensures
            e.wf(),
            rope_bytes(e.text) == encode_utf8(text@),
            e.anchor == 0 && e.head == 0,
            e.desired_column is None,
            e.vertical_scroll == 0,
            e.mode == Mode::Normal,
            e.path == path,
            e.pwd is None,
            !e.modified,
            e.message is None,
            e.exit_code is None,
            rope_bytes(e.command).len() == 0 && e.command_cursor == 0,
    {
        let mut e = Editor::new();
        e.text = rope_from_str(text);
        e.path = path;
        proof {
            vstd::utf8::encode_utf8_valid_utf8(text@);
            vstd::utf8::is_char_boundary_start_end_of_seq(rope_bytes(e.text));
        }
        e
    }

    /// The buffer's content, as the bytes a save must persist.
    pub fn save_payload(&self) -> (v: Vec<u8>)
        ensures
            v@ == rope_bytes(self.text),
    {
        rope_bytes_vec(&self.text)
    }

    /// Record that the buffer was successfully persisted.
    pub fn mark_saved(&mut self)
        ensures
            *final(self) == (Editor { modified: false, ..*old(self) }),
    {
        self.modified = false;
    }

    /// Record the exit signal that ends the main loop.
    pub fn set_exit(&mut self, code: u8)
        ensures
            *final(self) == (Editor { exit_code: Some(code), ..*old(self) }),
    {
        self.exit_code = Some(code);
    }

    /// Whether the selection points forward (anchor at or before head).
    pub fn is_forward(&self) -> (r: bool)
        ensures
            r == (self.anchor <= self.head),
    {
        self.anchor <= self.head
    }

    /// Whether the selection points backward.
    pub fn is_backward(&self) -> (r: bool)
        ensures
            r == (self.anchor > self.head),
    {
        !self.is_forward()
    }

    /// Swap anchor and head.
    pub fn flip(&mut self)
        ensures
            *final(self) == (Editor {
                anchor: old(self).head,
                head: old(self).anchor,
                ..*old(self)
            }),
    {
        let a = self.anchor;
        self.anchor = self.head;
        self.head = a;
    }

    /// Make the selection forward, flipping it only when backward.
    pub fn flip_forward(&mut self)
        ensures
            final(self).anchor == vstd::math::min(old(self).anchor as int, old(self).head as int),
            final(self).head == vstd::math::max(old(self).anchor as int, old(self).head as int),
            final(self).desired_column == old(self).desired_column,
            final(self).same_but_selection(*old(self)),
    {
        if !self.is_forward() {
            self.flip();
        }
    }

    /// Collapse the selection to a caret at the head.
    pub fn reduce(&mut self)
        ensures
            *final(self) == (Editor { anchor: old(self).head, ..*old(self) }),
    {
        self.anchor = self.head;
    }

    /// Scroll the viewport up by `distance` lines, stopping at the top.
    pub fn scroll_up(&mut self, distance: usize)
        ensures
            final(self).vertical_scroll == if old(self).vertical_scroll >= distance {
                old(self).vertical_scroll - distance
            } else {
                0
            },
            *final(self) == (Editor { vertical_scroll: final(self).vertical_scroll, ..*old(self) }),
    {
        self.vertical_scroll = if self.vertical_scroll >= distance {
            self.vertical_scroll - distance
        } else {
            0
        };
    }

    /// Scroll the viewport down by `distance` lines, stopping at the
    /// last line.
    pub fn scroll_down(&mut self, distance: usize)
        ensures
            final(self).vertical_scroll as int == vstd::math::min(
                vstd::math::max(line_count(rope_bytes(old(self).text)) - 1, 0),
                old(self).vertical_scroll + distance,
            ),
            *final(self) == (Editor { vertical_scroll: final(self).vertical_scroll, ..*old(self) }),
    {
        let lines = rope_line_count(&self.text);
        let limit = if lines >= 1 {
            lines - 1
        } else {
            0
        };
        let sum = if distance <= usize::MAX - self.vertical_scroll {
            self.vertical_scroll + distance
        } else {
            usize::MAX
        };
        self.vertical_scroll = if limit <= sum {
            limit
        } else {
            sum
        };
    }

    /// Extend the selection's head `count` graphemes to the left,
    /// stopping silently at the buffer's start.
    pub fn extend_left(&mut self, count: usize)
        requires
            old(self).wf(),
        ensures
            final(self).wf(),
            final(self).same_but_selection(*old(self)),
            final(self).anchor == old(self).anchor,
            final(self).head as int == step_left_n(
                rope_bytes(old(self).text),
                old(self).head as int,
                count as int,
            ),
            final(self).desired_column is None,
            count >= 1 ==> is_gb(rope_bytes(final(self).text), final(self).head as int),
    {
        let ghost s = rope_bytes(self.text);
        let ghost h0 = self.head as int;
        let mut n: usize = 0;
        proof {
            lemma_step_left_n(s, h0, count as int);
        }
        while n < count
            invariant
                self.wf(),
                self.same_but_selection(*old(self)),
                self.anchor == old(self).anchor,
                self.desired_column == old(self).desired_column,
                s == rope_bytes(self.text),
                n <= count,
                self.head as int == step_left_n(s, h0, n as int),
                h0 == old(self).head as int,
                0 <= h0 <= s.len(),
                self.head <= s.len(),
                n >= 1 ==> is_gb(s, self.head as int),
            decreases count - n,
        {
            proof {
                lemma_step_left_n(s, self.head as int, 1);
            }
            match prev_grapheme_boundary(&self.text, self.head) {
                Some(prev) if prev != self.head => {
                    proof {
                        lemma_step_chain_left(s, h0, n as int);
                    }
                    self.head = prev;
                },
                _ => {
                    proof {
                        if self.head >= 1 {
                            crate::graphemes::lemma_prev_gb(s, self.head as int);
                        }
                        assert(self.head == 0);
                        lemma_step_left_chain_absorb(s, h0, n as int, count as int);
                    }
                    self.desired_column = None;
                    return ;
                },
            }
            n = n + 1;
        }
        self.desired_column = None;
    }

    /// Extend the selection's head `count` graphemes to the right,
    /// stopping silently at the buffer's end.
    pub fn extend_right(&mut self, count: usize)
        requires
            old(self).wf(),
        ensures
            final(self).wf(),
            final(self).same_but_selection(*old(self)),
            final(self).anchor == old(self).anchor,
            final(self).head as int == step_right_n(
                rope_bytes(old(self).text),
                old(self).head as int,
                count as int,
            ),
            final(self).desired_column is None,
            count >= 1 ==> is_gb(rope_bytes(final(self).text), final(self).head as int),
    {
        let ghost s = rope_bytes(self.text);
        let ghost h0 = self.head as int;
        let mut n: usize = 0;
        proof {
            lemma_step_right_n(s, h0, count as int);
        }
        while n < count
            invariant
                self.wf(),
                self.same_but_selection(*old(self)),
                self.anchor == old(self).anchor,
                self.desired_column == old(self).desired_column,
                s == rope_bytes(self.text),
                n <= count,
                self.head as int == step_right_n(s, h0, n as int),
                h0 == old(self).head as int,
                0 <= h0 <= s.len(),
                self.head <= s.len(),
                n >= 1 ==> is_gb(s, self.head as int),
            decreases count - n,
        {
            proof {
                lemma_step_right_n(s, self.head as int, 1);
            }
            match next_grapheme_boundary(&self.text, self.head) {
                Some(next) if next != self.head => {
                    proof {
                        lemma_step_chain_right(s, h0, n as int);
                    }
                    self.head = next;
                },
                _ => {
                    proof {
                        assert(self.head >= s.len());
                        lemma_step_right_chain_absorb(s, h0, n as int, count as int);
                    }
                    self.desired_column = None;
                    return ;
                },
            }
            n = n + 1;
        }
        self.desired_column = None;
    }

    /// Extend the head to cover the grapheme at `byte_offset`: a backward
    /// selection puts the head exactly there; a forward selection covers
    /// the whole cluster at the offset.
    pub fn extend_to(&mut self, byte_offset: usize)
        requires
            old(self).wf(),
            byte_offset <= rope_bytes(old(self).text).len(),
            is_gb(rope_bytes(old(self).text), byte_offset as int),
            is_char_boundary(rope_bytes(old(self).text), byte_offset as int),
        ensures
            final(self).wf(),
            final(self).same_but_selection(*old(self)),
            final(self).anchor == old(self).anchor,
            final(self).desired_column is None,
            final(self).head as int == extend_to_target(
                rope_bytes(old(self).text),
                old(self).anchor as int,
                old(self).head as int,
                byte_offset as int,
            ),
            is_gb(rope_bytes(final(self).text), final(self).head as int),
    {
        if self.is_backward() {
            self.head = byte_offset;
        } else {
            self.head = ceil_grapheme_boundary(&self.text, byte_offset + 1);
        }
        self.desired_column = None;
    }

    /// Place a fresh forward caret at `byte_offset`: extend there, reduce,
    /// step one grapheme back, and flip forward, so the visible caret cell
    /// lands exactly on the addressed grapheme.
    pub fn move_to(&mut self, byte_offset: usize)
        requires
            old(self).wf(),
            byte_offset <= rope_bytes(old(self).text).len(),
            is_gb(rope_bytes(old(self).text), byte_offset as int),
            is_char_boundary(rope_bytes(old(self).text), byte_offset as int),
        ensures
            final(self).wf(),
            final(self).same_but_selection(*old(self)),
            final(self).desired_column is None,
            final(self).head as int == extend_to_target(
                rope_bytes(old(self).text),
                old(self).anchor as int,
                old(self).head as int,
                byte_offset as int,
            ),
            final(self).anchor as int == step_left_n(
                rope_bytes(old(self).text),
                final(self).head as int,
                1,
            ),
            final(self).selection_on_boundaries(),
    {
        let ghost s = rope_bytes(self.text);
        self.extend_to(byte_offset);
        self.reduce();
        let ghost h1 = self.head as int;
        self.extend_left(1);
        proof {
            lemma_step_left_n(s, h1, 1);
        }
        self.flip_forward();
        proof {
            lemma_step_left_n(s, h1, 1);
        }
    }

    /// Move the caret `count` graphemes left.
    pub fn move_left(&mut self, count: usize)
        requires
            old(self).wf(),
        ensures
            final(self).wf(),
            final(self).same_but_selection(*old(self)),
            final(self).head as int == step_left_n(
                rope_bytes(old(self).text),
                old(self).head as int,
                count as int,
            ),
            final(self).anchor == final(self).head,
            final(self).desired_column is None,
            count >= 1 ==> final(self).selection_on_boundaries(),
    {
        self.extend_left(count);
        self.reduce();
    }

    /// Move the caret `count` graphemes right.
    pub fn move_right(&mut self, count: usize)
        requires
            old(self).wf(),
        ensures
            final(self).wf(),
            final(self).same_but_selection(*old(self)),
            final(self).head as int == step_right_n(
                rope_bytes(old(self).text),
                old(self).head as int,
                count as int,
            ),
            final(self).anchor == final(self).head,
            final(self).desired_column is None,
            count >= 1 ==> final(self).selection_on_boundaries(),
    {
        self.extend_right(count);
        self.reduce();
    }

    /// Splice `text` in at the head, advance the head past it, collapse
    /// the selection, and mark the buffer modified.
    pub fn insert(&mut self, text: &str)
        requires
            old(self).wf(),
            rope_bytes(old(self).text).len() + encode_utf8(text@).len() <= MAX_TEXT,
        ensures
            final(self).wf(),
            rope_bytes(final(self).text) == splice_insert(
                rope_bytes(old(self).text),
                old(self).head as int,
                encode_utf8(text@),
            ),
            final(self).head == old(self).head + encode_utf8(text@).len(),
            final(self).anchor == final(self).head,
            final(self).modified,
            final(self).desired_column is None,
            final(self).same_but_edit(*old(self)),
    {
        let ghost s0 = rope_bytes(self.text);
        proof {
            lemma_splice_insert_wf(s0, self.head as int, text@);
        }
        rope_insert(&mut self.text, self.head, text);
        self.head = self.head + text.len();
        self.reduce();
        self.modified = true;
        self.desired_column = None;
    }

    /// Remove the selected range, collapse both ends to its start, and
    /// mark the buffer modified.
    pub fn delete(&mut self)
        requires
            old(self).wf(),
        ensures
            final(self).wf(),
            rope_bytes(final(self).text) == splice_delete(
                rope_bytes(old(self).text),
                vstd::math::min(old(self).anchor as int, old(self).head as int),
                vstd::math::max(old(self).anchor as int, old(self).head as int),
            ),
            final(self).head as int == vstd::math::min(
                old(self).anchor as int,
                old(self).head as int,
            ),
            final(self).anchor == final(self).head,
            final(self).modified,
            final(self).desired_column is None,
            final(self).same_but_edit(*old(self)),
    {
        let ghost s0 = rope_bytes(self.text);
        let start = if self.anchor <= self.head {
            self.anchor
        } else {
            self.head
        };
        let end = if self.anchor <= self.head {
            self.head
        } else {
            self.anchor
        };
        proof {
            lemma_splice_delete_wf(s0, start as int, end as int);
        }
        rope_delete(&mut self.text, start, end);
        self.head = start;
        self.anchor = start;
        self.modified = true;
        self.desired_column = None;
    }

    /// Remove the grapheme cluster just before the head, move the head to
    /// its start, and collapse the selection; a no-op at the buffer's start.
    pub fn delete_before(&mut self)
        requires
            old(self).wf(),
        ensures
            final(self).wf(),
            old(self).head == 0 ==> *final(self) == *old(self),
            old(self).head >= 1 ==> rope_bytes(final(self).text) == splice_delete(
                rope_bytes(old(self).text),
                prev_gb(rope_bytes(old(self).text), old(self).head as int),
                old(self).head as int,
            ),
            old(self).head >= 1 ==> final(self).head as int == prev_gb(
                rope_bytes(old(self).text),
                old(self).head as int,
            ) && final(self).anchor == final(self).head && final(self).modified && (final(self).desired_column is None),
            old(self).head >= 1 ==> final(self).same_but_edit(*old(self)),
    {
        let ghost s0 = rope_bytes(self.text);
        match prev_grapheme_boundary(&self.text, self.head) {
            Some(p) => {
                proof {
                    lemma_splice_delete_wf(s0, p as int, self.head as int);
                }
                rope_delete(&mut self.text, p, self.head);
                self.head = p;
                self.anchor = p;
                self.modified = true;
                self.desired_column = None;
            },
            None => {},
        }
    }

    /// Remove the grapheme cluster just after the head, leaving both
    /// selection ends in place; a no-op at the buffer's end.  The anchor
    /// must not lie past the head, or it could be left beyond the buffer.
    pub fn delete_after(&mut self)
        requires
            old(self).wf(),
            old(self).anchor <= old(self).head,
        ensures
            final(self).wf(),
            old(self).head == rope_bytes(old(self).text).len() ==> *final(self) == *old(self),
            old(self).head < rope_bytes(old(self).text).len() ==> rope_bytes(final(self).text)
                == splice_delete(
                rope_bytes(old(self).text),
                old(self).head as int,
                next_gb(rope_bytes(old(self).text), old(self).head as int),
            ),
            final(self).head == old(self).head,
            final(self).anchor == old(self).anchor,
            old(self).head < rope_bytes(old(self).text).len() ==> final(self).modified && (final(self).desired_column is None) && final(self).same_but_edit(*old(self)),
    {
        let ghost s0 = rope_bytes(self.text);
        match next_grapheme_boundary(&self.text, self.head) {
            Some(q) => {
                proof {
                    lemma_splice_delete_wf(s0, self.head as int, q as int);
                    lemma_splice_delete_keeps_prefix(
                        s0,
                        self.head as int,
                        q as int,
                        self.anchor as int,
                    );
                }
                rope_delete(&mut self.text, self.head, q);
                self.modified = true;
                self.desired_column = None;
            },
            None => {},
        }
    }

    /// Extend the head to the current line's start; a forward selection
    /// then nudges one grapheme right, keeping the caret cell visible.
    pub fn extend_line_start(&mut self)
        requires
            old(self).wf(),
        ensures
            final(self).wf(),
            final(self).same_but_selection(*old(self)),
            final(self).anchor == old(self).anchor,
            final(self).desired_column is None,
            final(self).head as int == ({
                let s = rope_bytes(old(self).text);
                let st = line_start(s, line_of(s, old(self).head as int));
                if old(self).anchor as int <= st {
                    step_right_n(s, st, 1)
                } else {
                    st
                }
            }),
            is_gb(rope_bytes(final(self).text), final(self).head as int),
    {
        let ghost s = rope_bytes(self.text);
        proof {
            lemma_line_of_in_range(s, self.head as int);
        }
        let line_index = rope_line_of_byte(&self.text, self.head);
        let st = rope_byte_of_line(&self.text, line_index);
        proof {
            crate::model::lemma_line_start_props(s, line_index as int);
        }
        self.head = st;
        if self.is_forward() {
            self.extend_right(1);
            proof {
                lemma_step_right_n(s, st as int, 1);
            }
        } else {
            proof {
                lemma_step_right_n(s, st as int, 1);
            }
        }
        self.desired_column = None;
    }

    /// Extend the head to the current line's end (excluding the
    /// terminator); a backward selection then nudges one grapheme left.
    /// A no-op with the head at the buffer's end.
    pub fn extend_line_end(&mut self)
        requires
            old(self).wf(),
        ensures
            final(self).wf(),
            final(self).same_but_selection(*old(self)),
            final(self).anchor == old(self).anchor,
            old(self).head >= rope_bytes(old(self).text).len() ==> *final(self) == *old(self),
            old(self).head < rope_bytes(old(self).text).len() ==> (final(self).desired_column
                is None) && final(self).head as int == ({
                let s = rope_bytes(old(self).text);
                let en = line_content_end(s, line_of(s, old(self).head as int));
                if old(self).anchor as int > en {
                    step_left_n(s, en, 1)
                } else {
                    en
                }
            }) && is_gb(rope_bytes(final(self).text), final(self).head as int),
    {
        let ghost s = rope_bytes(self.text);
        let len = rope_byte_len(&self.text);
        if self.head >= len {
            return ;
        }
        proof {
            lemma_line_of_in_range(s, self.head as int);
        }
        let line_index = rope_line_of_byte(&self.text, self.head);
        let st = rope_byte_of_line(&self.text, line_index);
        let content_len = rope_line_content_len(&self.text, line_index);
        proof {
            crate::model::lemma_content_bounds(s, line_index as int);
        }
        let en = st + content_len;
        self.head = en;
        if self.is_backward() {
            self.extend_left(1);
            proof {
                lemma_step_left_n(s, en as int, 1);
            }
        } else {
            proof {
                lemma_step_left_n(s, en as int, 1);
            }
        }
        self.desired_column = None;
    }

    /// Move the caret to the current line's start.
    pub fn move_line_start(&mut self)
        requires
            old(self).wf(),
        ensures
            final(self).wf(),
            final(self).same_but_selection(*old(self)),
            final(self).anchor == final(self).head,
            final(self).desired_column is None,
            final(self).selection_on_boundaries(),
            final(self).head as int == ({
                let s = rope_bytes(old(self).text);
                let st = line_start(s, line_of(s, old(self).head as int));
                if old(self).anchor as int <= st {
                    step_right_n(s, st, 1)
                } else {
                    st
                }
            }),
    {
        self.extend_line_start();
        self.reduce();
    }

    /// Move the caret to the current line's end.
    pub fn move_line_end(&mut self)
        requires
            old(self).wf(),
        ensures
            final(self).wf(),
            final(self).same_but_selection(*old(self)),
            final(self).anchor == final(self).head,
            old(self).head >= rope_bytes(old(self).text).len() ==> final(self).head == old(self).head && final(self).desired_column == old(self).desired_column,
            old(self).head < rope_bytes(old(self).text).len() ==> (final(self).desired_column
                is None) && final(self).selection_on_boundaries() && final(self).head as int == ({
                let s = rope_bytes(old(self).text);
                let en = line_content_end(s, line_of(s, old(self).head as int));
                if old(self).anchor as int > en {
                    step_left_n(s, en, 1)
                } else {
                    en
                }
            }),
    {
        self.extend_line_end();
        self.reduce();
    }

    /// Extend the head `count` lines down, keeping the desired display
    /// column; past the last line the head lands at the buffer's end.
    pub fn extend_down(&mut self, count: usize)
        requires
            old(self).wf(),
        ensures
            final(self).wf(),
            final(self).same_but_selection(*old(self)),
            final(self).anchor == old(self).anchor,
            final(self).head as int == vdown_n(
                rope_bytes(old(self).text),
                old(self).head as int,
                opt_col(old(self).desired_column),
                count as int,
            ).0,
            opt_col(final(self).desired_column) == vdown_n(
                rope_bytes(old(self).text),
                old(self).head as int,
                opt_col(old(self).desired_column),
                count as int,
            ).1,
            count >= 1 ==> is_gb(rope_bytes(final(self).text), final(self).head as int),
    {
        let ghost s = rope_bytes(self.text);
        let ghost h0 = self.head as int;
        let ghost d0 = opt_col(self.desired_column);
        let mut n: usize = 0;
        while n < count
            invariant
                self.wf(),
                self.same_but_selection(*old(self)),
                self.anchor == old(self).anchor,
                s == rope_bytes(self.text),
                h0 == old(self).head as int,
                d0 == opt_col(old(self).desired_column),
                n <= count,
                self.head as int == vdown_n(s, h0, d0, n as int).0,
                opt_col(self.desired_column) == vdown_n(s, h0, d0, n as int).1,
                n >= 1 ==> is_gb(s, self.head as int),
            decreases count - n,
        {
            let ghost hc = self.head as int;
            let ghost dc = opt_col(self.desired_column);
            proof {
                crate::model::lemma_nl_count_mono(s, 0, self.head as int);
                lemma_line_of_in_range(s, self.head as int);
                crate::model::lemma_nl_count_nonneg(s, self.head as int);
            }
            let current_line = rope_line_of_byte(&self.text, self.head);
            let lines = rope_line_count(&self.text);
            if current_line + 1 >= lines {
                self.head = rope_byte_len(&self.text);
                proof {
                    vstd::utf8::is_char_boundary_start_end_of_seq(s);
                    lemma_vdown_chain(s, h0, d0, n as int);
                    assert(vdown1(s, hc, dc) == (s.len() as int, dc));
                    crate::model::lemma_nl_count_nonneg(s, s.len() as int);
                    lemma_line_of_in_range(s, s.len() as int);
                    assert(vdown1(s, s.len() as int, dc) == (s.len() as int, dc));
                    lemma_vdown_absorb(s, h0, d0, n as int + 1, count as int);
                }
                return ;
            }
            proof {
                lemma_line_bracket(s, self.head as int);
            }
            let st = rope_byte_of_line(&self.text, current_line);
            let d = match self.desired_column {
                Some(v) => v,
                None => line_prefix_width(&self.text, current_line, self.head),
            };
            self.desired_column = Some(d);
            let target = current_line + 1;
            let dest = crate::columns::line_column_offset(&self.text, target, d);
            proof {
                assert(d as int == desired_or_width(s, hc, dc));
                assert(vdown1(s, hc, dc) == (dest as int, Some(d as int)));
                lemma_vdown_chain(s, h0, d0, n as int);
            }
            self.head = dest;
            n = n + 1;
        }
    }

    /// Extend the head `count` lines up, keeping the desired display
    /// column; at the first line nothing moves.
    pub fn extend_up(&mut self, count: usize)
        requires
            old(self).wf(),
        ensures
            final(self).wf(),
            final(self).same_but_selection(*old(self)),
            final(self).anchor == old(self).anchor,
            final(self).head as int == vup_n(
                rope_bytes(old(self).text),
                old(self).head as int,
                opt_col(old(self).desired_column),
                count as int,
            ).0,
            opt_col(final(self).desired_column) == vup_n(
                rope_bytes(old(self).text),
                old(self).head as int,
                opt_col(old(self).desired_column),
                count as int,
            ).1,
    {
        let ghost s = rope_bytes(self.text);
        let ghost h0 = self.head as int;
        let ghost d0 = opt_col(self.desired_column);
        let mut n: usize = 0;
        while n < count
            invariant
                self.wf(),
                self.same_but_selection(*old(self)),
                self.anchor == old(self).anchor,
                s == rope_bytes(self.text),
                h0 == old(self).head as int,
                d0 == opt_col(old(self).desired_column),
                n <= count,
                self.head as int == vup_n(s, h0, d0, n as int).0,
                opt_col(self.desired_column) == vup_n(s, h0, d0, n as int).1,
            decreases count - n,
        {
            let ghost hc = self.head as int;
            let ghost dc = opt_col(self.desired_column);
            proof {
                crate::model::lemma_nl_count_mono(s, 0, self.head as int);
                lemma_line_of_in_range(s, self.head as int);
                crate::model::lemma_nl_count_nonneg(s, self.head as int);
            }
            let current_line = rope_line_of_byte(&self.text, self.head);
            if current_line == 0 {
                proof {
                    assert(vup1(s, hc, dc) == (hc, dc));
                    lemma_vup_absorb(s, h0, d0, n as int, count as int);
                }
                return ;
            }
            proof {
                lemma_line_bracket(s, self.head as int);
            }
            let st = rope_byte_of_line(&self.text, current_line);
            let d = match self.desired_column {
                Some(v) => v,
                None => if st == self.head {
                    0
                } else {
                    proof {
                        if line_of(s, self.head as int) >= line_count(s) {
                            crate::model::lemma_line_index_full(s, self.head as int);
                        }
                    }
                    line_prefix_width(&self.text, current_line, self.head)
                },
            };
            self.desired_column = Some(d);
            let target = current_line - 1;
            let dest = crate::columns::line_column_offset(&self.text, target, d);
            proof {
                assert(d as int == desired_or_width(s, hc, dc));
                assert(vup1(s, hc, dc) == (dest as int, Some(d as int)));
                lemma_vup_chain(s, h0, d0, n as int);
            }
            self.head = dest;
            n = n + 1;
        }
    }

    /// Move the caret `count` lines down.
    pub fn move_down(&mut self, count: usize)
        requires
            old(self).wf(),
        ensures
            final(self).wf(),
            final(self).same_but_selection(*old(self)),
            final(self).anchor == final(self).head,
            final(self).head as int == vdown_n(
                rope_bytes(old(self).text),
                old(self).head as int,
                opt_col(old(self).desired_column),
                count as int,
            ).0,
            opt_col(final(self).desired_column) == vdown_n(
                rope_bytes(old(self).text),
                old(self).head as int,
                opt_col(old(self).desired_column),
                count as int,
            ).1,
    {
        self.extend_down(count);
        self.reduce();
    }

    /// Move the caret `count` lines up.
    pub fn move_up(&mut self, count: usize)
        requires
            old(self).wf(),
        ensures
            final(self).wf(),
            final(self).same_but_selection(*old(self)),
            final(self).anchor == final(self).head,
            final(self).head as int == vup_n(
                rope_bytes(old(self).text),
                old(self).head as int,
                opt_col(old(self).desired_column),
                count as int,
            ).0,
            opt_col(final(self).desired_column) == vup_n(
                rope_bytes(old(self).text),
                old(self).head as int,
                opt_col(old(self).desired_column),
                count as int,
            ).1,
    {
        self.extend_up(count);
        self.reduce();
    }

    /// Move the command-line cursor `count` graphemes left.
    pub fn command_mode_move_left(&mut self, count: usize)
        requires
            old(self).wf(),
        ensures
            final(self).wf(),
            *final(self) == (Editor { command_cursor: final(self).command_cursor, ..*old(self) }),
            final(self).command_cursor as int == step_left_n(
                rope_bytes(old(self).command),
                old(self).command_cursor as int,
                count as int,
            ),
    {
        let ghost c = rope_bytes(self.command);
        let ghost h0 = self.command_cursor as int;
        let mut n: usize = 0;
        while n < count
            invariant
                self.wf(),
                *self == (Editor { command_cursor: self.command_cursor, ..*old(self) }),
                c == rope_bytes(self.command),
                h0 == old(self).command_cursor as int,
                n <= count,
                self.command_cursor as int == step_left_n(c, h0, n as int),
                0 <= h0 <= c.len(),
                self.command_cursor <= c.len(),
            decreases count - n,
        {
            match prev_grapheme_boundary(&self.command, self.command_cursor) {
                Some(prev) if prev != self.command_cursor => {
                    proof {
                        lemma_step_chain_left(c, h0, n as int);
                    }
                    self.command_cursor = prev;
                },
                _ => {
                    proof {
                        if self.command_cursor >= 1 {
                            crate::graphemes::lemma_prev_gb(c, self.command_cursor as int);
                        }
                        assert(self.command_cursor == 0);
                        lemma_step_left_chain_absorb(c, h0, n as int, count as int);
                    }
                    self.command_cursor = 0;
                    return ;
                },
            }
            n = n + 1;
        }
    }

    /// Move the command-line cursor `count` graphemes right.
    pub fn command_mode_move_right(&mut self, count: usize)
        requires
            old(self).wf(),
        ensures
            final(self).wf(),
            *final(self) == (Editor { command_cursor: final(self).command_cursor, ..*old(self) }),
            final(self).command_cursor as int == step_right_n(
                rope_bytes(old(self).command),
                old(self).command_cursor as int,
                count as int,
            ),
    {
        let ghost c = rope_bytes(self.command);
        let ghost h0 = self.command_cursor as int;
        let mut n: usize = 0;
        while n < count
            invariant
                self.wf(),
                *self == (Editor { command_cursor: self.command_cursor, ..*old(self) }),
                c == rope_bytes(self.command),
                h0 == old(self).command_cursor as int,
                n <= count,
                self.command_cursor as int == step_right_n(c, h0, n as int),
                0 <= h0 <= c.len(),
                self.command_cursor <= c.len(),
            decreases count - n,
        {
            match next_grapheme_boundary(&self.command, self.command_cursor) {
                Some(next) if next != self.command_cursor => {
                    proof {
                        lemma_step_chain_right(c, h0, n as int);
                    }
                    self.command_cursor = next;
                },
                _ => {
                    let end = rope_byte_len(&self.command);
                    proof {
                        assert(self.command_cursor >= c.len());
                        lemma_step_right_chain_absorb(c, h0, n as int, count as int);
                    }
                    self.command_cursor = end;
                    return ;
                },
            }
            n = n + 1;
        }
    }

    /// Remove everything before the command-line cursor.
    pub fn command_mode_delete_before(&mut self)
        requires
            old(self).wf(),
        ensures
            final(self).wf(),
            rope_bytes(final(self).command) == rope_bytes(old(self).command).skip(
                old(self).command_cursor as int,
            ),
            final(self).command_cursor == 0,
            *final(self) == (Editor {
                command: final(self).command,
                command_cursor: 0,
                ..*old(self)
            }),
    {
        let ghost c = rope_bytes(self.command);
        proof {
            vstd::utf8::is_char_boundary_start_end_of_seq(c);
            lemma_splice_delete_wf(c, 0, self.command_cursor as int);
            assert(splice_delete(c, 0, self.command_cursor as int) =~= c.skip(
                self.command_cursor as int,
            ));
        }
        if self.command_cursor > 0 {
            rope_delete(&mut self.command, 0, self.command_cursor);
            self.command_cursor = 0;
        } else {
            proof {
                assert(c.skip(0) =~= c);
            }
        }
    }

    /// Remove everything from the command-line cursor to the end.
    pub fn command_mode_delete_after(&mut self)
        requires
            old(self).wf(),
        ensures
            final(self).wf(),
            rope_bytes(final(self).command) == rope_bytes(old(self).command).take(
                old(self).command_cursor as int,
            ),
            final(self).command_cursor == old(self).command_cursor,
            *final(self) == (Editor { command: final(self).command, ..*old(self) }),
    {
        let ghost c = rope_bytes(self.command);
        let end = rope_byte_len(&self.command);
        proof {
            vstd::utf8::is_char_boundary_start_end_of_seq(c);
            lemma_splice_delete_wf(c, self.command_cursor as int, c.len() as int);
            lemma_splice_delete_keeps_prefix(
                c,
                self.command_cursor as int,
                c.len() as int,
                self.command_cursor as int,
            );
            assert(splice_delete(c, self.command_cursor as int, c.len() as int) =~= c.take(
                self.command_cursor as int,
            ));
        }
        if self.command_cursor < end {
            rope_delete(&mut self.command, self.command_cursor, end);
        } else {
            proof {
                assert(c.take(c.len() as int) =~= c);
            }
        }
    }
}


/// An editor's cached desired column, as a mathematical value.
pub open spec fn opt_col(d: Option<usize>) -> Option<int> {
    match d {
        Some(v) => Some(v as int),
        None => None,
    }
}

/// The desired column a vertical move works with: the cached value, or
/// the display width of the current line's prefix before the head.
pub open spec fn desired_or_width(s: Seq<u8>, h: int, d: Option<int>) -> int {
    match d {
        Some(v) => v,
        None => crate::columns::prefix_width_pos(s, line_start(s, line_of(s, h)), h),
    }
}

/// One downward transition of (head, desired column): past the last line
/// the head clamps to the buffer's end; otherwise the head resolves the
/// desired column on the next line.
pub open spec fn vdown1(s: Seq<u8>, h: int, d: Option<int>) -> (int, Option<int>) {
    let l = line_of(s, h);
    if l + 1 >= line_count(s) {
        (s.len() as int, d)
    } else {
        let dv = desired_or_width(s, h, d);
        (
            crate::columns::walk_pos(
                s,
                line_start(s, l + 1),
                line_content_end(s, l + 1),
                0,
                dv,
            ),
            Some(dv),
        )
    }
}

/// `n` downward transitions.
pub open spec fn vdown_n(s: Seq<u8>, h: int, d: Option<int>, n: int) -> (int, Option<int>)
    decreases n,
{
    if n <= 0 {
        (h, d)
    } else {
        let t = vdown1(s, h, d);
        vdown_n(s, t.0, t.1, n - 1)
    }
}

/// One upward transition of (head, desired column): at the first line
/// nothing moves; otherwise the head resolves the desired column on the
/// previous line.
pub open spec fn vup1(s: Seq<u8>, h: int, d: Option<int>) -> (int, Option<int>) {
    let l = line_of(s, h);
    if l == 0 {
        (h, d)
    } else {
        let dv = desired_or_width(s, h, d);
        (
            crate::columns::walk_pos(
                s,
                line_start(s, l - 1),
                line_content_end(s, l - 1),
                0,
                dv,
            ),
            Some(dv),
        )
    }
}

/// `n` upward transitions.
pub open spec fn vup_n(s: Seq<u8>, h: int, d: Option<int>, n: int) -> (int, Option<int>)
    decreases n,
{
    if n <= 0 {
        (h, d)
    } else {
        let t = vup1(s, h, d);
        vup_n(s, t.0, t.1, n - 1)
    }
}

/// A state a single transition leaves unchanged stays fixed forever.
proof fn lemma_vdown_frozen(s: Seq<u8>, h: int, d: Option<int>, n: int)
    requires
        vdown1(s, h, d) == (h, d),
    ensures
        vdown_n(s, h, d, n) == (h, d),
    decreases n,
{
    if n > 0 {
        lemma_vdown_frozen(s, h, d, n - 1);
    }
}

proof fn lemma_vup_frozen(s: Seq<u8>, h: int, d: Option<int>, n: int)
    requires
        vup1(s, h, d) == (h, d),
    ensures
        vup_n(s, h, d, n) == (h, d),
    decreases n,
{
    if n > 0 {
        lemma_vup_frozen(s, h, d, n - 1);
    }
}

/// One more downward transition after `n` equals `n + 1` transitions.
proof fn lemma_vdown_chain(s: Seq<u8>, h: int, d: Option<int>, n: int)
    requires
        n >= 0,
    ensures
        vdown1(s, vdown_n(s, h, d, n).0, vdown_n(s, h, d, n).1) == vdown_n(s, h, d, n + 1),
    decreases n,
{
    let t = vdown1(s, h, d);
    if n == 0 {
        assert(vdown_n(s, h, d, 1) == vdown_n(s, t.0, t.1, 0));
    } else {
        lemma_vdown_chain(s, t.0, t.1, n - 1);
        assert(vdown_n(s, h, d, n) == vdown_n(s, t.0, t.1, n - 1));
        assert(vdown_n(s, h, d, n + 1) == vdown_n(s, t.0, t.1, n));
    }
}

proof fn lemma_vup_chain(s: Seq<u8>, h: int, d: Option<int>, n: int)
    requires
        n >= 0,
    ensures
        vup1(s, vup_n(s, h, d, n).0, vup_n(s, h, d, n).1) == vup_n(s, h, d, n + 1),
    decreases n,
{
    let t = vup1(s, h, d);
    if n == 0 {
        assert(vup_n(s, h, d, 1) == vup_n(s, t.0, t.1, 0));
    } else {
        lemma_vup_chain(s, t.0, t.1, n - 1);
        assert(vup_n(s, h, d, n) == vup_n(s, t.0, t.1, n - 1));
        assert(vup_n(s, h, d, n + 1) == vup_n(s, t.0, t.1, n));
    }
}

/// The frozen transition after `n` of `m` transitions absorbs the rest.
proof fn lemma_vdown_absorb(s: Seq<u8>, h: int, d: Option<int>, n: int, m: int)
    requires
        0 <= n <= m,
        vdown1(s, vdown_n(s, h, d, n).0, vdown_n(s, h, d, n).1) == vdown_n(s, h, d, n),
    ensures
        vdown_n(s, h, d, m) == vdown_n(s, h, d, n),
    decreases m - n,
{
    if n < m {
        lemma_vdown_chain(s, h, d, n);
        let t = vdown_n(s, h, d, n);
        assert(vdown_n(s, h, d, n + 1) == t);
        lemma_vdown_absorb(s, h, d, n + 1, m);
    }
}

proof fn lemma_vup_absorb(s: Seq<u8>, h: int, d: Option<int>, n: int, m: int)
    requires
        0 <= n <= m,
        vup1(s, vup_n(s, h, d, n).0, vup_n(s, h, d, n).1) == vup_n(s, h, d, n),
    ensures
        vup_n(s, h, d, m) == vup_n(s, h, d, n),
    decreases m - n,
{
    if n < m {
        lemma_vup_chain(s, h, d, n);
        let t = vup_n(s, h, d, n);
        assert(vup_n(s, h, d, n + 1) == t);
        lemma_vup_absorb(s, h, d, n + 1, m);
    }
}


/// The head's landing offset when a vertical move resolves desired
/// column `dv` on line `m`.
pub open spec fn vtarget_on(s: Seq<u8>, m: int, dv: int) -> int {
    crate::columns::walk_pos(s, line_start(s, m), line_content_end(s, m), 0, dv)
}

/// An offset between a line's start and its break lies on that line.
proof fn lemma_line_of_within(s: Seq<u8>, m: int, x: int)
    requires
        0 <= m <= crate::model::total_breaks(s),
        line_start(s, m) <= x <= line_break_at(s, m),
        x <= s.len(),
    ensures
        line_of(s, x) == m,
{
    lemma_line_start_props(s, m);
    lemma_next_nl_props(s, line_start(s, m));
    crate::model::lemma_nl_count_flat(s, line_start(s, m), x);
}

/// A vertical-move landing offset lies on the targeted line.
proof fn lemma_vtarget_on_line(s: Seq<u8>, m: int, dv: int)
    requires
        0 <= m <= crate::model::total_breaks(s),
    ensures
        line_start(s, m) <= vtarget_on(s, m, dv) <= line_content_end(s, m),
        vtarget_on(s, m, dv) <= s.len(),
        line_of(s, vtarget_on(s, m, dv)) == m,
{
    crate::model::lemma_content_bounds(s, m);
    crate::columns::lemma_walk_bounds(s, line_start(s, m), line_content_end(s, m), 0, dv);
    lemma_line_of_within(s, m, vtarget_on(s, m, dv));
}

/// Downward transitions with a cached column hop line by line.
proof fn lemma_vdown_cached(s: Seq<u8>, h: int, dv: int, j: int)
    requires
        0 <= h <= s.len(),
        j >= 1,
        line_of(s, h) + j < line_count(s),
    ensures
        vdown_n(s, h, Some(dv), j) == (vtarget_on(s, line_of(s, h) + j, dv), Some(dv)),
    decreases j,
{
    let l = line_of(s, h);
    crate::model::lemma_nl_count_nonneg(s, h);
    crate::model::lemma_nl_count_mono(s, h, s.len() as int);
    assert(l + 1 <= crate::model::total_breaks(s)) by {
        crate::model::lemma_line_of_in_range(s, s.len() as int);
        if s.len() > 0 && s[s.len() - 1] == crate::model::nl() {
        }
    }
    let h1 = vtarget_on(s, l + 1, dv);
    lemma_vtarget_on_line(s, l + 1, dv);
    assert(vdown1(s, h, Some(dv)) == (h1, Some(dv)));
    if j == 1 {
        assert(vdown_n(s, h, Some(dv), 1) == vdown_n(s, h1, Some(dv), 0));
    } else {
        lemma_vdown_cached(s, h1, dv, j - 1);
        assert(vdown_n(s, h, Some(dv), j) == vdown_n(s, h1, Some(dv), j - 1));
    }
}

/// Upward transitions with a cached column hop line by line.
proof fn lemma_vup_cached(s: Seq<u8>, h: int, dv: int, j: int)
    requires
        0 <= h <= s.len(),
        j >= 1,
        line_of(s, h) >= j,
        line_of(s, h) <= crate::model::total_breaks(s),
    ensures
        vup_n(s, h, Some(dv), j) == (vtarget_on(s, line_of(s, h) - j, dv), Some(dv)),
    decreases j,
{
    let l = line_of(s, h);
    crate::model::lemma_nl_count_nonneg(s, h);
    let h1 = vtarget_on(s, l - 1, dv);
    lemma_vtarget_on_line(s, l - 1, dv);
    assert(vup1(s, h, Some(dv)) == (h1, Some(dv)));
    if j == 1 {
        assert(vup_n(s, h, Some(dv), 1) == vup_n(s, h1, Some(dv), 0));
    } else {
        lemma_vup_cached(s, h1, dv, j - 1);
        assert(vup_n(s, h, Some(dv), j) == vup_n(s, h1, Some(dv), j - 1));
    }
}

/// Law: with no cached column, moving `n` lines down and then `n` lines
/// up returns the head to its offset, as long as the downward moves stay
/// above the last line and the cluster at the head is visibly wide.
pub proof fn lemma_vertical_round_trip(s: Seq<u8>, h: int, n: int)
    requires
        0 <= h <= s.len(),
        n >= 0,
        is_gb(s, h),
        h <= line_content_end(s, line_of(s, h)),
        line_of(s, h) + n < line_count(s),
        h < line_content_end(s, line_of(s, h)) ==> crate::columns::seg_width(
            s,
            h,
            crate::columns::cell_step(s, h, line_content_end(s, line_of(s, h))),
        ) >= 1,
    ensures
        ({
            let down = vdown_n(s, h, None, n);
            vup_n(s, down.0, down.1, n).0 == h
        }),
{
    if n == 0 {
        return ;
    }
    let l = line_of(s, h);
    let st = line_start(s, l);
    let en = line_content_end(s, l);
    crate::model::lemma_nl_count_nonneg(s, h);
    crate::model::lemma_line_of_in_range(s, h);
    crate::model::lemma_line_bracket(s, h);
    let dv = crate::columns::prefix_width_pos(s, st, h);
    assert(desired_or_width(s, h, None) == dv);
    // first step down caches the column and lands on the next line
    let h1 = vtarget_on(s, l + 1, dv);
    assert(vdown1(s, h, None) == (h1, Some(dv)));
    assert(l + 1 <= crate::model::total_breaks(s)) by {
        if line_count(s) <= crate::model::total_breaks(s) + 1 {
        }
    }
    lemma_vtarget_on_line(s, l + 1, dv);
    let down = vdown_n(s, h, None, n);
    assert(down == vdown_n(s, h1, Some(dv), n - 1));
    if n == 1 {
        assert(down == (h1, Some(dv)));
    } else {
        lemma_vdown_cached(s, h1, dv, n - 1);
        lemma_vtarget_on_line(s, l + n, dv);
    }
    assert(down.0 == vtarget_on(s, l + n, dv) && down.1 == Some(dv));
    assert(line_of(s, down.0) == l + n) by {
        lemma_vtarget_on_line(s, l + n, dv);
    }
    // coming back up resolves the same cached column on the original line
    lemma_vup_cached(s, down.0, dv, n);
    assert(vup_n(s, down.0, Some(dv), n) == (vtarget_on(s, l, dv), Some(dv)));
    // and resolving the head's own prefix width walks back exactly to it
    crate::model::lemma_content_bounds(s, l);
    crate::columns::lemma_walk_exact(s, st, en, h, 0);
}

/// The selection made forward: the smaller offset becomes the anchor.
pub open spec fn flip_fwd(a: int, h: int) -> (int, int) {
    if a <= h {
        (a, h)
    } else {
        (h, a)
    }
}

/// Law: making the selection forward twice is the same as doing it once.
pub proof fn lemma_flip_forward_idempotent(a: int, h: int)
    ensures
        flip_fwd(flip_fwd(a, h).0, flip_fwd(a, h).1) == flip_fwd(a, h),
{
}

/// Law: deleting a non-empty selection and then inserting the removed
/// text at the resulting caret restores the original buffer content (and
/// hence its length).  The states are those the `delete` and `insert`
/// operations leave behind, per their postconditions.
pub proof fn lemma_delete_insert_restores(e0: Editor, e1: Editor, e2: Editor, t: Seq<char>)
    requires
        e0.anchor <= rope_bytes(e0.text).len(),
        e0.head <= rope_bytes(e0.text).len(),
        rope_bytes(e1.text) == splice_delete(
            rope_bytes(e0.text),
            vstd::math::min(e0.anchor as int, e0.head as int),
            vstd::math::max(e0.anchor as int, e0.head as int),
        ),
        e1.head as int == vstd::math::min(e0.anchor as int, e0.head as int),
        encode_utf8(t) == rope_bytes(e0.text).subrange(
            vstd::math::min(e0.anchor as int, e0.head as int),
            vstd::math::max(e0.anchor as int, e0.head as int),
        ),
        rope_bytes(e2.text) == splice_insert(
            rope_bytes(e1.text),
            e1.head as int,
            encode_utf8(t),
        ),
    ensures
        rope_bytes(e2.text) == rope_bytes(e0.text),
{
    let s = rope_bytes(e0.text);
    let a = vstd::math::min(e0.anchor as int, e0.head as int);
    let b = vstd::math::max(e0.anchor as int, e0.head as int);
    let s1 = rope_bytes(e1.text);
    assert(s1.take(a) =~= s.take(a));
    assert(s1.skip(a) =~= s.skip(b));
    assert(rope_bytes(e2.text) =~= s);
}

/// Taking one more left step after `n` steps equals `n + 1` steps.
proof fn lemma_step_chain_left(s: Seq<u8>, h: int, n: int)
    requires
        n >= 0,
    ensures
        step_left1(s, step_left_n(s, h, n)) == step_left_n(s, h, n + 1),
    decreases n,
{
    if n == 0 {
        assert(step_left_n(s, h, 1) == step_left_n(s, step_left1(s, h), 0));
    } else {
        lemma_step_chain_left(s, step_left1(s, h), n - 1);
        assert(step_left_n(s, h, n) == step_left_n(s, step_left1(s, h), n - 1));
        assert(step_left_n(s, h, n + 1) == step_left_n(s, step_left1(s, h), n));
    }
}

/// Taking one more right step after `n` steps equals `n + 1` steps.
proof fn lemma_step_chain_right(s: Seq<u8>, h: int, n: int)
    requires
        n >= 0,
    ensures
        step_right1(s, step_right_n(s, h, n)) == step_right_n(s, h, n + 1),
    decreases n,
{
    if n == 0 {
        assert(step_right_n(s, h, 1) == step_right_n(s, step_right1(s, h), 0));
    } else {
        lemma_step_chain_right(s, step_right1(s, h), n - 1);
        assert(step_right_n(s, h, n) == step_right_n(s, step_right1(s, h), n - 1));
        assert(step_right_n(s, h, n + 1) == step_right_n(s, step_right1(s, h), n));
    }
}

/// When the head is stuck at the start after `n` of `m` steps, the full
/// `m` steps land there too.
proof fn lemma_step_left_chain_absorb(s: Seq<u8>, h: int, n: int, m: int)
    requires
        0 <= n <= m,
        step_left_n(s, h, n) == 0,
    ensures
        step_left_n(s, h, m) == 0,
    decreases n,
{
    if n == 0 {
        lemma_step_left_stuck(s, m);
        assert(h == 0);
    } else {
        lemma_step_left_chain_absorb(s, step_left1(s, h), n - 1, m - 1);
    }
}

/// When the head is stuck at the end after `n` of `m` steps, the full
/// `m` steps land there too.
proof fn lemma_step_right_chain_absorb(s: Seq<u8>, h: int, n: int, m: int)
    requires
        0 <= n <= m,
        step_right_n(s, h, n) >= s.len(),
    ensures
        step_right_n(s, h, m) == step_right_n(s, h, n),
    decreases n,
{
    if n == 0 {
        lemma_step_right_stuck(s, h, m);
    } else {
        lemma_step_right_chain_absorb(s, step_right1(s, h), n - 1, m - 1);
    }
}

} // verus!
