//! Boundary-scanning primitives: nearest grapheme-cluster boundary
//! strictly before or after an offset, and the floor/ceil variants that
//! leave an offset unchanged when it already is a boundary.  Offsets past
//! the end of the buffer clamp to its length.

use vstd::prelude::*;
use vstd::pervasive::unreached;
use vstd::utf8::{is_char_boundary, valid_utf8};
use crate::text::{is_gb, rope_bytes, rope_byte_len, rope_is_boundary};

verus! {

/// The greatest boundary strictly below `o` (total, since 0 is a boundary).
pub open spec fn prev_gb(s: Seq<u8>, o: int) -> int
    decreases o,
{
    if o <= 1 {
        0
    } else if is_gb(s, o - 1) {
        o - 1
    } else {
        prev_gb(s, o - 1)
    }
}

/// The least boundary strictly above `o` (at most `s.len()`).
pub open spec fn next_gb(s: Seq<u8>, o: int) -> int
    decreases s.len() - o,
{
    if o + 1 >= s.len() {
        s.len() as int
    } else if is_gb(s, o + 1) {
        o + 1
    } else {
        next_gb(s, o + 1)
    }
}

/// `o` itself when on a boundary, else the nearest boundary below;
/// clamps to the length.
pub open spec fn floor_gb(s: Seq<u8>, o: int) -> int {
    if o > s.len() {
        s.len() as int
    } else if is_gb(s, o) {
        o
    } else {
        prev_gb(s, o)
    }
}

/// `o` itself when on a boundary, else the nearest boundary above;
/// clamps to the length.
pub open spec fn ceil_gb(s: Seq<u8>, o: int) -> int {
    if o > s.len() {
        s.len() as int
    } else if is_gb(s, o) {
        o
    } else {
        next_gb(s, o)
    }
}

pub proof fn lemma_prev_gb(s: Seq<u8>, o: int)
    requires
        1 <= o,
    ensures
        0 <= prev_gb(s, o) < o,
        is_gb(s, prev_gb(s, o)),
        forall|j: int| prev_gb(s, o) < j < o ==> !is_gb(s, j),
    decreases o,
{
    if o > 1 && !is_gb(s, o - 1) {
        lemma_prev_gb(s, o - 1);
    }
}

pub proof fn lemma_prev_gb_unique(s: Seq<u8>, o: int, p: int)
    requires
        0 <= p < o,
        is_gb(s, p),
        forall|j: int| p < j < o ==> !is_gb(s, j),
    ensures
        prev_gb(s, o) == p,
    decreases o,
{
    if o - 1 > p {
        lemma_prev_gb_unique(s, o - 1, p);
    }
}

pub proof fn lemma_next_gb(s: Seq<u8>, o: int)
    requires
        0 <= o < s.len(),
    ensures
        o < next_gb(s, o) <= s.len(),
        is_gb(s, next_gb(s, o)),
        forall|j: int| o < j < next_gb(s, o) ==> !is_gb(s, j),
    decreases s.len() - o,
{
    if o + 1 < s.len() && !is_gb(s, o + 1) {
        lemma_next_gb(s, o + 1);
    }
}

pub proof fn lemma_next_gb_unique(s: Seq<u8>, o: int, p: int)
    requires
        o < p <= s.len(),
        is_gb(s, p),
        forall|j: int| o < j < p ==> !is_gb(s, j),
    ensures
        next_gb(s, o) == p,
    decreases p - o,
{
    if o + 1 < p {
        lemma_next_gb_unique(s, o + 1, p);
    }
}

/// The nearest boundary strictly before `byte_offset`: `None` at the very
/// start, the buffer length when the offset is out of bounds.
pub fn prev_grapheme_boundary(rope: &crop::Rope, byte_offset: usize) -> (r: Option<usize>)
    ensures
        r is None <==> byte_offset == 0,
        byte_offset > rope_bytes(*rope).len() ==> (r matches Some(p) && p == rope_bytes(
            *rope,
        ).len()),
        1 <= byte_offset <= rope_bytes(*rope).len() ==> (r matches Some(p) && p as int == prev_gb(
            rope_bytes(*rope),
            byte_offset as int,
        )),
        r matches Some(p) ==> is_gb(rope_bytes(*rope), p as int) && p < byte_offset + 1,
        r matches Some(p) ==> (valid_utf8(rope_bytes(*rope)) ==> is_char_boundary(
            rope_bytes(*rope),
            p as int,
        )),
{
    let ghost s = rope_bytes(*rope);
    let length = rope_byte_len(rope);
    if byte_offset == 0 {
        return None;
    }
    if byte_offset > length {
        proof {
            if valid_utf8(s) {
                vstd::utf8::is_char_boundary_start_end_of_seq(s);
            }
        }
        return Some(length);
    }
    let mut i = byte_offset;
    while i > 0
        invariant
            1 <= byte_offset <= s.len(),
            i <= byte_offset,
            s == rope_bytes(*rope),
            forall|j: int| i <= j < byte_offset ==> !is_gb(s, j),
        decreases i,
    {
        i = i - 1;
        if rope_is_boundary(rope, i) {
            proof {
                lemma_prev_gb_unique(s, byte_offset as int, i as int);
            }
            return Some(i);
        }
    }
    proof {
        assert(is_gb(s, 0));
        assert(false);
    }
    unreached()
}

/// The nearest boundary strictly after `byte_offset`: `None` at or past
/// the end of the buffer.
pub fn next_grapheme_boundary(rope: &crop::Rope, byte_offset: usize) -> (r: Option<usize>)
    ensures
        r is None <==> byte_offset >= rope_bytes(*rope).len(),
        byte_offset < rope_bytes(*rope).len() ==> (r matches Some(p) && p as int == next_gb(
            rope_bytes(*rope),
            byte_offset as int,
        )),
        r matches Some(p) ==> is_gb(rope_bytes(*rope), p as int) && byte_offset < p
            <= rope_bytes(*rope).len(),
        r matches Some(p) ==> (valid_utf8(rope_bytes(*rope)) ==> is_char_boundary(
            rope_bytes(*rope),
            p as int,
        )),
{
    let ghost s = rope_bytes(*rope);
    let length = rope_byte_len(rope);
    if byte_offset >= length {
        return None;
    }
    let mut i = byte_offset;
    while i < length
        invariant
            byte_offset < s.len(),
            byte_offset <= i <= s.len(),
            length == s.len(),
            s == rope_bytes(*rope),
            forall|j: int| byte_offset < j <= i ==> !is_gb(s, j),
        decreases s.len() - i,
    {
        i = i + 1;
        if rope_is_boundary(rope, i) {
            proof {
                lemma_next_gb_unique(s, byte_offset as int, i as int);
            }
            return Some(i);
        }
    }
    proof {
        assert(is_gb(s, s.len() as int));
        assert(false);
    }
    unreached()
}

/// `byte_offset` when already a boundary, else the nearest one below;
/// clamps past the end of the buffer.
pub fn floor_grapheme_boundary(rope: &crop::Rope, byte_offset: usize) -> (r: usize)
    ensures
        r as int == floor_gb(rope_bytes(*rope), byte_offset as int),
        is_gb(rope_bytes(*rope), r as int),
        r <= byte_offset,
        valid_utf8(rope_bytes(*rope)) ==> is_char_boundary(rope_bytes(*rope), r as int),
{
    let ghost s = rope_bytes(*rope);
    let length = rope_byte_len(rope);
    if byte_offset > length {
        proof {
            if valid_utf8(s) {
                vstd::utf8::is_char_boundary_start_end_of_seq(s);
            }
        }
        return length;
    }
    if rope_is_boundary(rope, byte_offset) {
        return byte_offset;
    }
    match prev_grapheme_boundary(rope, byte_offset) {
        Some(p) => p,
        None => {
            proof {
                assert(is_gb(s, 0));
                assert(false);
            }
            unreached()
        },
    }
}

/// `byte_offset` when already a boundary, else the nearest one above;
/// clamps past the end of the buffer.
pub fn ceil_grapheme_boundary(rope: &crop::Rope, byte_offset: usize) -> (r: usize)
    ensures
        r as int == ceil_gb(rope_bytes(*rope), byte_offset as int),
        is_gb(rope_bytes(*rope), r as int),
        byte_offset <= rope_bytes(*rope).len() ==> byte_offset <= r,
        r <= rope_bytes(*rope).len(),
        valid_utf8(rope_bytes(*rope)) ==> is_char_boundary(rope_bytes(*rope), r as int),
{
    let ghost s = rope_bytes(*rope);
    let length = rope_byte_len(rope);
    if byte_offset > length {
        proof {
            if valid_utf8(s) {
                vstd::utf8::is_char_boundary_start_end_of_seq(s);
            }
        }
        return length;
    }
    if rope_is_boundary(rope, byte_offset) {
        return byte_offset;
    }
    match next_grapheme_boundary(rope, byte_offset) {
        Some(p) => {
            proof {
                lemma_next_gb(s, byte_offset as int);
            }
            p
        },
        None => {
            proof {
                assert(is_gb(s, s.len() as int));
                assert(false);
            }
            unreached()
        },
    }
}

/// Flooring never passes a boundary that sits at or before the offset.
pub proof fn lemma_floor_at_least(s: Seq<u8>, o: int, p: int)
    requires
        0 <= p <= o <= s.len(),
        is_gb(s, p),
    ensures
        p <= floor_gb(s, o),
{
    if !is_gb(s, o) {
        lemma_prev_gb(s, o);
        if p > prev_gb(s, o) {
            assert(!is_gb(s, p));
        }
    }
}

/// Floor and ceil bracket every in-range offset, fix boundaries, and
/// flooring is idempotent.
pub proof fn lemma_floor_ceil_bracket(s: Seq<u8>, x: int)
    requires
        0 <= x <= s.len(),
    ensures
        floor_gb(s, x) <= x <= ceil_gb(s, x),
        is_gb(s, x) ==> floor_gb(s, x) == x && ceil_gb(s, x) == x,
        floor_gb(s, floor_gb(s, x)) == floor_gb(s, x),
        is_gb(s, floor_gb(s, x)),
        is_gb(s, ceil_gb(s, x)),
{
    if !is_gb(s, x) {
        assert(x != 0 && x != s.len());
        lemma_prev_gb(s, x);
        lemma_next_gb(s, x);
    }
}

} // verus!
