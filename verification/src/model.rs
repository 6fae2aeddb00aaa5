//! Mathematical model of the text buffer: line structure over the raw
//! UTF-8 byte sequence, and the splice operations performed by edits.
//!
//! A line break is a `\n` byte (0x0A).  A `\r\n` pair counts as a single
//! break, terminated by its `\n`; the line's content excludes the pair.
//! The final break is optional: text that ends with `\n` has no extra
//! empty last line.

use vstd::prelude::*;
use vstd::utf8::{valid_utf8, is_char_boundary, encode_utf8,
    valid_utf8_split, valid_utf8_concat, encode_utf8_valid_utf8, is_char_boundary_start_end_of_seq,
    is_char_boundary_iff_not_is_continuation_byte};

verus! {

/// The byte value of `\n`.
pub open spec fn nl() -> u8 {
    10u8
}

/// The byte value of `\r`.
pub open spec fn cr() -> u8 {
    13u8
}

/// Number of line-break bytes strictly before `end`.
pub open spec fn nl_count(s: Seq<u8>, end: int) -> int
    decreases end,
{
    if end <= 0 {
        0
    } else {
        nl_count(s, end - 1) + if s[end - 1] == nl() {
            1int
        } else {
            0int
        }
    }
}

/// Number of line-break bytes in the whole text.
pub open spec fn total_breaks(s: Seq<u8>) -> int {
    nl_count(s, s.len() as int)
}

/// Number of lines: one more than the break count, except that an empty
/// text has no lines and a final break opens no additional line.
pub open spec fn line_count(s: Seq<u8>) -> int {
    if s.len() == 0 {
        0
    } else {
        total_breaks(s) + 1 - if s[s.len() - 1] == nl() {
            1int
        } else {
            0int
        }
    }
}

/// The index of a byte offset's line: the number of breaks before it.
pub open spec fn line_of(s: Seq<u8>, o: int) -> int {
    nl_count(s, o)
}

/// Offset of the first line-break byte at or after `from` (`s.len()` if none).
pub open spec fn next_nl(s: Seq<u8>, from: int) -> int
    decreases s.len() - from,
{
    if from < 0 || from >= s.len() {
        s.len() as int
    } else if s[from] == nl() {
        from
    } else {
        next_nl(s, from + 1)
    }
}

/// Byte offset where line `l` starts: 0 for line 0, else one past the
/// l-th break; `s.len()` when fewer than `l` breaks exist.
pub open spec fn line_start(s: Seq<u8>, l: int) -> int
    decreases l,
{
    if l <= 0 {
        0
    } else {
        let p = line_start(s, l - 1);
        let e = next_nl(s, p);
        if e < s.len() {
            e + 1
        } else {
            s.len() as int
        }
    }
}

/// Offset of the line-break byte that ends line `l` (`s.len()` if unterminated).
pub open spec fn line_break_at(s: Seq<u8>, l: int) -> int {
    next_nl(s, line_start(s, l))
}

/// End of line `l`'s content, excluding its terminator: a terminating
/// `\n` is excluded, together with a `\r` immediately before it.
pub open spec fn line_content_end(s: Seq<u8>, l: int) -> int {
    let st = line_start(s, l);
    let e = line_break_at(s, l);
    if e < s.len() && e - 1 >= st && s[e - 1] == cr() {
        e - 1
    } else {
        e
    }
}

/// The bytes after inserting `t` at offset `at`.
pub open spec fn splice_insert(s: Seq<u8>, at: int, t: Seq<u8>) -> Seq<u8> {
    s.take(at) + t + s.skip(at)
}

/// The bytes after removing the range `[a, b)`.
pub open spec fn splice_delete(s: Seq<u8>, a: int, b: int) -> Seq<u8> {
    s.take(a) + s.skip(b)
}

pub proof fn lemma_nl_count_mono(s: Seq<u8>, a: int, b: int)
    requires
        a <= b,
    ensures
        nl_count(s, a) <= nl_count(s, b),
        nl_count(s, b) <= nl_count(s, a) + (b - a),
    decreases b - a,
{
    if a < b {
        lemma_nl_count_mono(s, a, b - 1);
    }
}

pub proof fn lemma_nl_count_nonneg(s: Seq<u8>, a: int)
    ensures
        nl_count(s, a) >= 0,
{
    lemma_nl_count_mono(s, 0, if a >= 0 { a } else { 0 });
}

pub proof fn lemma_next_nl_props(s: Seq<u8>, from: int)
    requires
        0 <= from <= s.len(),
    ensures
        from <= next_nl(s, from) <= s.len(),
        next_nl(s, from) < s.len() ==> s[next_nl(s, from)] == nl(),
        forall|j: int| from <= j < next_nl(s, from) ==> s[j] != nl(),
    decreases s.len() - from,
{
    if from < s.len() && s[from] != nl() {
        lemma_next_nl_props(s, from + 1);
    }
}

/// There are no breaks in `[from, e)`, and counting is flat there.
pub proof fn lemma_nl_count_flat(s: Seq<u8>, from: int, to: int)
    requires
        0 <= from <= to,
        to <= next_nl(s, from),
        to <= s.len(),
    ensures
        nl_count(s, to) == nl_count(s, from),
    decreases to - from,
{
    lemma_next_nl_props(s, from);
    if to > from {
        lemma_nl_count_flat(s, from, to - 1);
    }
}

pub proof fn lemma_line_start_props(s: Seq<u8>, l: int)
    requires
        l >= 0,
    ensures
        0 <= line_start(s, l) <= s.len(),
        nl_count(s, line_start(s, l)) == if l <= total_breaks(s) {
            l
        } else {
            total_breaks(s)
        },
        l >= 1 && l <= total_breaks(s) ==> line_start(s, l) >= 1 && s[line_start(s, l) - 1]
            == nl() && nl_count(s, line_start(s, l) - 1) == l - 1,
    decreases l,
{
    lemma_nl_count_nonneg(s, s.len() as int);
    if l > 0 {
        lemma_line_start_props(s, l - 1);
        let p = line_start(s, l - 1);
        let e = next_nl(s, p);
        lemma_next_nl_props(s, p);
        lemma_nl_count_flat(s, p, e);
        if e < s.len() {
            assert(nl_count(s, e + 1) == nl_count(s, e) + 1);
            lemma_nl_count_mono(s, e + 1, s.len() as int);
        } else {
            lemma_nl_count_flat(s, p, s.len() as int);
        }
    }
}

/// Every offset lies between its line's start and that line's break.
pub proof fn lemma_line_bracket(s: Seq<u8>, o: int)
    requires
        0 <= o <= s.len(),
    ensures
        line_start(s, line_of(s, o)) <= o,
        o <= line_break_at(s, line_of(s, o)),
{
    let l = line_of(s, o);
    lemma_nl_count_nonneg(s, o);
    lemma_nl_count_mono(s, o, s.len() as int);
    lemma_line_start_props(s, l);
    let st = line_start(s, l);
    // line_start(s, l) <= o: the byte before the start is the l-th break,
    // which would otherwise have been counted before o already.
    if st > o {
        assert(l >= 1);
        lemma_nl_count_mono(s, o, st - 1);
        assert(false);
    }
    // o <= line_break_at: a break before o would be counted at o.
    let e = line_break_at(s, l);
    lemma_next_nl_props(s, st);
    if o > e {
        assert(s[e] == nl());
        lemma_nl_count_flat(s, st, e);
        assert(nl_count(s, e + 1) == nl_count(s, e) + 1);
        lemma_nl_count_mono(s, e + 1, o);
        assert(false);
    }
}

/// Inserting encoded characters at a character boundary keeps the text
/// valid UTF-8, and both ends of the inserted range are boundaries.
pub proof fn lemma_splice_insert_wf(s: Seq<u8>, at: int, t: Seq<char>)
    requires
        valid_utf8(s),
        0 <= at <= s.len(),
        is_char_boundary(s, at),
    ensures
        valid_utf8(splice_insert(s, at, encode_utf8(t))),
        is_char_boundary(splice_insert(s, at, encode_utf8(t)), at + encode_utf8(t).len()),
        is_char_boundary(splice_insert(s, at, encode_utf8(t)), at),
{
    let a = s.subrange(0, at);
    let b = s.subrange(at, s.len() as int);
    let e = encode_utf8(t);
    let r = splice_insert(s, at, e);
    valid_utf8_split(s, at);
    encode_utf8_valid_utf8(t);
    valid_utf8_concat(a, e);
    valid_utf8_concat(a + e, b);
    assert(r =~= (a + e) + b);
    is_char_boundary_start_end_of_seq(r);
    if at + e.len() < r.len() {
        assert(r[at + e.len()] == s[at]);
        assert(at < s.len());
        is_char_boundary_iff_not_is_continuation_byte(s, at);
        is_char_boundary_iff_not_is_continuation_byte(r, at + e.len());
    }
    if at < r.len() {
        if e.len() > 0 {
            is_char_boundary_start_end_of_seq(e);
            is_char_boundary_iff_not_is_continuation_byte(e, 0);
            assert(r[at] == e[0]);
        } else {
            assert(r[at] == s[at]);
            is_char_boundary_iff_not_is_continuation_byte(s, at);
        }
        is_char_boundary_iff_not_is_continuation_byte(r, at);
    }
}

/// Deleting a range between character boundaries keeps the text valid
/// UTF-8, and the cut point is a boundary of the result.
pub proof fn lemma_splice_delete_wf(s: Seq<u8>, a: int, b: int)
    requires
        valid_utf8(s),
        0 <= a <= b <= s.len(),
        is_char_boundary(s, a),
        is_char_boundary(s, b),
    ensures
        valid_utf8(splice_delete(s, a, b)),
        is_char_boundary(splice_delete(s, a, b), a),
{
    let p = s.subrange(0, a);
    let q = s.subrange(b, s.len() as int);
    let r = splice_delete(s, a, b);
    valid_utf8_split(s, a);
    valid_utf8_split(s, b);
    valid_utf8_concat(p, q);
    assert(r =~= p + q);
    is_char_boundary_start_end_of_seq(r);
    if a < r.len() {
        assert(r[a] == s[b]);
        assert(b < s.len());
        is_char_boundary_iff_not_is_continuation_byte(s, b);
        is_char_boundary_iff_not_is_continuation_byte(r, a);
    }
}

/// Deleting a range keeps every character boundary at or before the cut.
pub proof fn lemma_splice_delete_keeps_prefix(s: Seq<u8>, a: int, b: int, x: int)
    requires
        valid_utf8(s),
        0 <= a <= b <= s.len(),
        is_char_boundary(s, a),
        is_char_boundary(s, b),
        0 <= x <= a,
        is_char_boundary(s, x),
    ensures
        is_char_boundary(splice_delete(s, a, b), x),
{
    lemma_splice_delete_wf(s, a, b);
    let r = splice_delete(s, a, b);
    is_char_boundary_start_end_of_seq(r);
    if x < a {
        assert(r[x] == s[x]);
        assert(x < s.len());
        is_char_boundary_iff_not_is_continuation_byte(s, x);
        is_char_boundary_iff_not_is_continuation_byte(r, x);
    }
}

/// One character encodes to at most four bytes.
pub proof fn lemma_encode_char_len(c: char)
    ensures
        1 <= encode_utf8(seq![c]).len() <= 4,
{
    let s = seq![c];
    assert(s.drop_first() =~= Seq::<char>::empty());
    assert(encode_utf8(s) == vstd::utf8::encode_scalar(c as u32) + encode_utf8(s.drop_first()));
}

/// A line's content ends before its break, which lies inside the text.
pub proof fn lemma_content_bounds(s: Seq<u8>, l: int)
    requires
        l >= 0,
    ensures
        0 <= line_start(s, l) <= line_content_end(s, l),
        line_content_end(s, l) <= line_break_at(s, l) <= s.len(),
{
    lemma_line_start_props(s, l);
    lemma_next_nl_props(s, line_start(s, l));
}

/// An offset whose line index reaches the line count is the very end of
/// a text whose final break closed the last line.
pub proof fn lemma_line_index_full(s: Seq<u8>, o: int)
    requires
        0 <= o <= s.len(),
        line_of(s, o) >= line_count(s),
    ensures
        o == s.len(),
        line_start(s, line_of(s, o)) == s.len(),
{
    lemma_line_of_in_range(s, o);
    assert(o == s.len());
    let l = line_of(s, o);
    lemma_line_start_props(s, l);
    let st = line_start(s, l);
    if st < s.len() {
        assert(s.len() > 0);
        assert(s[s.len() - 1] == nl());
        lemma_nl_count_mono(s, st, s.len() - 1);
        assert(nl_count(s, s.len() as int) == nl_count(s, s.len() - 1) + 1);
        assert(l <= total_breaks(s));
        assert(false);
    }
}

/// Offsets strictly inside the text sit on a line with a valid index.
pub proof fn lemma_line_of_in_range(s: Seq<u8>, o: int)
    requires
        0 <= o <= s.len(),
    ensures
        0 <= line_of(s, o),
        o < s.len() ==> line_of(s, o) < line_count(s),
        line_of(s, o) <= total_breaks(s),
        line_of(s, o) <= line_count(s),
    decreases o,
{
    lemma_nl_count_nonneg(s, o);
    lemma_nl_count_mono(s, o, s.len() as int);
    if o < s.len() {
        if s[s.len() - 1] == nl() {
            lemma_nl_count_mono(s, o, s.len() - 1);
            assert(nl_count(s, s.len() as int) == nl_count(s, s.len() - 1) + 1);
        }
    }
}

} // verus!
