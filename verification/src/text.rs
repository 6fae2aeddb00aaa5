//! Trusted interface to the text-storage collaborator (`crop::Rope`) and
//! to the display-width collaborator (`unicode_width`).
//!
//! The rope's contents are modelled as a sequence of UTF-8 bytes,
//! `rope_bytes`.  Grapheme-cluster segmentation (UAX #29) and rendered
//! column widths are pure functions of the text that take pages to state,
//! so they are given names (`seg_boundary`, `ustr_width`) rather than
//! definitions; every contract below states only what the collaborators'
//! sources and documentation show.

use vstd::prelude::*;
use vstd::utf8::{encode_utf8, is_char_boundary, valid_utf8};
use crate::model::{line_start, line_content_end, line_count, nl_count, splice_insert,
    splice_delete};

verus! {

#[verifier::external_type_specification]
#[verifier::external_body]
pub struct ExRope(crop::Rope);

/// The UTF-8 bytes held by a rope.
pub uninterp spec fn rope_bytes(r: crop::Rope) -> Seq<u8>;

/// Whether an interior byte offset of a text is a grapheme-cluster
/// boundary under UAX #29 extended segmentation.
pub uninterp spec fn seg_boundary(s: Seq<u8>, i: int) -> bool;

/// The rendered terminal column width of a string, per the
/// `unicode_width` crate's policy.
pub uninterp spec fn ustr_width(s: Seq<char>) -> nat;

/// Grapheme-cluster boundaries of a text: segmentation always breaks at
/// the very start and the very end; interior offsets follow `seg_boundary`.
pub open spec fn is_gb(s: Seq<u8>, i: int) -> bool {
    0 <= i <= s.len() && (i == 0 || i == s.len() || seg_boundary(s, i))
}

/// Relies on `crop::Rope::new`: an empty rope.
#[verifier::external_body]
pub(crate) fn rope_new() -> (r: crop::Rope)
    ensures
        rope_bytes(r) == Seq::<u8>::empty(),
{
    crop::Rope::new()
}

/// Relies on `crop::Rope::from(&str)`: a rope holding exactly the
/// string's UTF-8 bytes.
#[verifier::external_body]
pub(crate) fn rope_from_str(s: &str) -> (r: crop::Rope)
    ensures
        rope_bytes(r) == encode_utf8(s@),
{
    crop::Rope::from(s)
}

/// Relies on `crop::Rope::byte_len`: the length of the rope in bytes.
#[verifier::external_body]
pub(crate) fn rope_byte_len(r: &crop::Rope) -> (n: usize)
    ensures
        n == rope_bytes(*r).len(),
{
    r.byte_len()
}

/// Relies on `crop::Rope::is_grapheme_boundary`: whether a byte offset
/// lies on an extended grapheme cluster boundary.  Offsets 0 and
/// `byte_len` always do, and every grapheme boundary lies on a `char`
/// boundary.  Panics above `byte_len`, which the precondition excludes.
#[verifier::external_body]
pub(crate) fn rope_is_boundary(r: &crop::Rope, i: usize) -> (b: bool)
    requires
        i <= rope_bytes(*r).len(),
    ensures
        b == is_gb(rope_bytes(*r), i as int),
        0 < i < rope_bytes(*r).len() ==> b == seg_boundary(rope_bytes(*r), i as int),
        b && valid_utf8(rope_bytes(*r)) ==> is_char_boundary(rope_bytes(*r), i as int),
{
    r.is_grapheme_boundary(i)
}

/// Relies on `crop::Rope::insert`: splices the string's bytes in at the
/// offset.  Panics when the offset is out of bounds or not on a `char`
/// boundary, which the preconditions exclude.
#[verifier::external_body]
pub(crate) fn rope_insert(r: &mut crop::Rope, at: usize, text: &str)
    requires
        at <= rope_bytes(*old(r)).len(),
        valid_utf8(rope_bytes(*old(r))),
        is_char_boundary(rope_bytes(*old(r)), at as int),
    ensures
        rope_bytes(*final(r)) == splice_insert(rope_bytes(*old(r)), at as int, encode_utf8(text@)),
{
    r.insert(at, text);
}

/// Relies on `crop::Rope::delete`: removes the byte range `[a, b)`.
/// Panics when the range is out of bounds, reversed, or off `char`
/// boundaries, which the preconditions exclude.
#[verifier::external_body]
pub(crate) fn rope_delete(r: &mut crop::Rope, a: usize, b: usize)
    requires
        a <= b <= rope_bytes(*old(r)).len(),
        valid_utf8(rope_bytes(*old(r))),
        is_char_boundary(rope_bytes(*old(r)), a as int),
        is_char_boundary(rope_bytes(*old(r)), b as int),
    ensures
        rope_bytes(*final(r)) == splice_delete(rope_bytes(*old(r)), a as int, b as int),
{
    r.delete(a..b);
}

/// Relies on `crop::Rope::line_of_byte`: the number of line breaks
/// before the offset.  Panics above `byte_len` or off a `char`
/// boundary, which the preconditions exclude.
#[verifier::external_body]
pub(crate) fn rope_line_of_byte(r: &crop::Rope, o: usize) -> (l: usize)
    requires
        o <= rope_bytes(*r).len(),
        valid_utf8(rope_bytes(*r)),
        is_char_boundary(rope_bytes(*r), o as int),
    ensures
        l == nl_count(rope_bytes(*r), o as int),
{
    r.line_of_byte(o)
}

/// Relies on `crop::Rope::byte_of_line`: the byte offset where a line
/// starts, or `byte_len` for the index one past a final unterminated
/// line.  A line starts right after a break, so segmentation breaks
/// there: the offset is a grapheme (hence `char`) boundary.  Panics
/// above `line_len`, excluded here.
#[verifier::external_body]
pub(crate) fn rope_byte_of_line(r: &crop::Rope, l: usize) -> (o: usize)
    requires
        l <= line_count(rope_bytes(*r)),
    ensures
        o == line_start(rope_bytes(*r), l as int),
        is_gb(rope_bytes(*r), o as int),
        valid_utf8(rope_bytes(*r)) ==> is_char_boundary(rope_bytes(*r), o as int),
{
    r.byte_of_line(l)
}

/// Relies on `crop::Rope::line` and `RopeSlice::byte_len`: the byte
/// length of one line's content, its terminator excluded.  Segmentation
/// breaks before a line terminator, so the content's end is a grapheme
/// (hence `char`) boundary.  Panics at or above `line_len`, excluded
/// here.
#[verifier::external_body]
pub(crate) fn rope_line_content_len(r: &crop::Rope, l: usize) -> (n: usize)
    requires
        l < line_count(rope_bytes(*r)),
    ensures
        n == line_content_end(rope_bytes(*r), l as int) - line_start(rope_bytes(*r), l as int),
        is_gb(rope_bytes(*r), line_start(rope_bytes(*r), l as int) + n),
        valid_utf8(rope_bytes(*r)) ==> is_char_boundary(
            rope_bytes(*r),
            line_start(rope_bytes(*r), l as int) + n,
        ),
{
    r.line(l).byte_len()
}

/// Relies on `crop::Rope::byte_slice` and its `Display` implementation:
/// the bytes of the range `[a, b)` as a string.  Panics when the range
/// is reversed, out of bounds, or off `char` boundaries, which the
/// preconditions exclude.
#[verifier::external_body]
pub(crate) fn rope_slice_string(r: &crop::Rope, a: usize, b: usize) -> (s: String)
    requires
        a <= b <= rope_bytes(*r).len(),
        valid_utf8(rope_bytes(*r)),
        is_char_boundary(rope_bytes(*r), a as int),
        is_char_boundary(rope_bytes(*r), b as int),
    ensures
        encode_utf8(s@) == rope_bytes(*r).subrange(a as int, b as int),
{
    r.byte_slice(a..b).to_string()
}

/// Relies on `crop::Rope::line_len`: the number of lines, a final line
/// break opening no extra empty line.
#[verifier::external_body]
pub(crate) fn rope_line_count(r: &crop::Rope) -> (n: usize)
    ensures
        n == line_count(rope_bytes(*r)),
{
    r.line_len()
}

/// Byte length of a prefix of a grapheme sequence.
pub open spec fn graphemes_prefix_len(gs: Seq<Seq<char>>, k: int) -> int
    decreases k,
{
    if k <= 0 {
        0
    } else {
        graphemes_prefix_len(gs, k - 1) + encode_utf8(gs[k - 1]).len()
    }
}

/// What segmenting one line of text `s` into grapheme clusters yields:
/// non-empty clusters whose bytes tile the line's content exactly, whose
/// ends fall on the text's grapheme boundaries, and which contain no
/// boundary strictly inside any cluster.
#[verifier::opaque]
pub open spec fn line_graphemes_spec(s: Seq<u8>, l: int, g: Seq<Seq<char>>) -> bool {
    let st = line_start(s, l);
    let en = line_content_end(s, l);
    &&& graphemes_prefix_len(g, g.len() as int) == en - st
    &&& forall|k: int| 0 <= k < g.len() ==> (#[trigger] g[k]).len() >= 1
    &&& forall|k: int|
        0 <= k < g.len() ==> encode_utf8(#[trigger] g[k]) == s.subrange(
            st + graphemes_prefix_len(g, k),
            st + graphemes_prefix_len(g, k + 1),
        )
    &&& forall|k: int| 0 <= k <= g.len() ==> is_gb(s, st + #[trigger] graphemes_prefix_len(g, k))
    &&& forall|k: int|
        0 <= k <= g.len() && valid_utf8(s) ==> is_char_boundary(
            s,
            st + #[trigger] graphemes_prefix_len(g, k),
        )
    &&& forall|k: int, j: int|
        #![trigger graphemes_prefix_len(g, k), is_gb(s, j)]
        0 <= k < g.len() && st + graphemes_prefix_len(g, k) < j < st + graphemes_prefix_len(
            g,
            k + 1,
        ) ==> !is_gb(s, j)
    &&& forall|j: int| en < j <= crate::model::line_break_at(s, l) ==> !is_gb(s, j)
}

/// Relies on `crop::Rope::line` and the `graphemes` iterator of the
/// resulting slice: the extended grapheme clusters of one line's content
/// (terminator excluded), in order.  A line break ends a cluster, so the
/// line-local segmentation agrees with the whole text's boundaries.
/// Panics when the index is at or above `line_len`, excluded here.
#[verifier::external_body]
pub(crate) fn rope_line_graphemes(r: &crop::Rope, l: usize) -> (gs: Vec<String>)
    requires
        l < line_count(rope_bytes(*r)),
    ensures
        line_graphemes_spec(rope_bytes(*r), l as int, gs.deep_view()),
{
    r.line(l).graphemes().map(|g| g.into_owned()).collect()
}

/// Relies on `crop::Rope`'s `Display` implementation: the rope's content
/// as a string, exactly its bytes.
#[verifier::external_body]
pub(crate) fn rope_to_string(r: &crop::Rope) -> (s: String)
    ensures
        encode_utf8(s@) == rope_bytes(*r),
{
    r.to_string()
}

/// Relies on `crop::Rope::bytes`: iterates the rope's bytes in order.
#[verifier::external_body]
pub(crate) fn rope_bytes_vec(r: &crop::Rope) -> (v: Vec<u8>)
    ensures
        v@ == rope_bytes(*r),
{
    r.bytes().collect()
}

/// Relies on `char::to_string`: the string holding exactly the one
/// character.
#[verifier::external_body]
pub(crate) fn char_to_string(c: char) -> (s: String)
    ensures
        s@ == seq![c],
{
    c.to_string()
}

/// Relies on `unicode_width::UnicodeWidthStr::width`: the rendered
/// column width of a string, a pure function of its characters; each
/// character contributes at most three columns, and an empty string has
/// width zero.
#[verifier::external_body]
pub(crate) fn display_width_str(s: &str) -> (w: usize)
    ensures
        w == ustr_width(s@),
        w <= 3 * s@.len(),
        s@.len() == 0 ==> w == 0,
{
    unicode_width::UnicodeWidthStr::width(s)
}

} // verus!
