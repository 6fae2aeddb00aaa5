//! Display-column arithmetic: the width policy for grapheme clusters, the
//! width of a line prefix (used to seed the desired column), and the
//! greedy walk that turns a desired column back into a byte offset.
//!
//! Width policy: a tab cluster occupies a fixed eight columns (matching
//! the renderer, which expands tabs to eight spaces); every other cluster
//! has its `unicode_width` column count.

use vstd::prelude::*;
use vstd::utf8::{decode_utf8, encode_utf8, valid_utf8, is_char_boundary};
use crate::model::{line_start, line_content_end, line_break_at, line_count};
use crate::text::{is_gb, ustr_width, rope_bytes, rope_byte_of_line, rope_line_graphemes,
    graphemes_prefix_len, line_graphemes_spec};
use crate::graphemes::{next_gb, lemma_next_gb, lemma_next_gb_unique};
use vstd::string::StrSliceExecFns;

verus! {

/// The number of columns a tab cluster occupies.
pub const TAB_WIDTH: usize = 8;

/// Longest text the editor accepts, so that column sums stay far from
/// the integer limit.
pub const MAX_TEXT: usize = 0x0fff_ffff;

/// Display width of one grapheme cluster.
pub open spec fn grapheme_width(g: Seq<char>) -> int {
    if g == seq!['\t'] {
        TAB_WIDTH as int
    } else {
        ustr_width(g) as int
    }
}

/// Display width of the cluster stored in the byte range `[p, q)`.
pub open spec fn seg_width(s: Seq<u8>, p: int, q: int) -> int {
    grapheme_width(decode_utf8(s.subrange(p, q)))
}

/// The boundary step used by the column walks: the next grapheme
/// boundary, forced forward so the recursion always advances.
pub open spec fn gb_step(s: Seq<u8>, p: int) -> int {
    let q = next_gb(s, p);
    if q <= p {
        p + 1
    } else {
        q
    }
}

/// Byte offset reached by walking the clusters of `[p, en)` from column
/// `col`, taking a cluster only while the column after it stays at or
/// below `target`.
pub open spec fn walk_pos(s: Seq<u8>, p: int, en: int, col: int, target: int) -> int
    decreases en - p,
{
    if p >= en {
        p
    } else {
        let q = if gb_step(s, p) > en {
            en
        } else {
            gb_step(s, p)
        };
        let w = seg_width(s, p, q);
        if col + w > target {
            p
        } else {
            walk_pos(s, q, en, col + w, target)
        }
    }
}

/// Total width of the clusters of `[p, upto)` that lie fully inside it.
pub open spec fn prefix_width_pos(s: Seq<u8>, p: int, upto: int) -> int
    decreases upto - p,
{
    if p >= upto {
        0
    } else {
        let q = gb_step(s, p);
        if q > upto {
            0
        } else {
            seg_width(s, p, q) + prefix_width_pos(s, q, upto)
        }
    }
}

/// Each character encodes to at least one byte.
pub proof fn lemma_encode_len_ge(chars: Seq<char>)
    ensures
        encode_utf8(chars).len() >= chars.len(),
    decreases chars.len(),
{
    if chars.len() > 0 {
        lemma_encode_len_ge(chars.drop_first());
    }
}

/// Display width of one cluster, given as a string.
pub(crate) fn grapheme_width_exec(g: &str) -> (w: usize)
    ensures
        w as int == grapheme_width(g@),
        w as int <= 8 * encode_utf8(g@).len() || g@.len() == 0,
{
    let n = g.unicode_len();
    proof {
        lemma_encode_len_ge(g@);
    }
    if n == 1 && g.get_char(0) == '\t' {
        proof {
            assert(g@ =~= seq!['\t']);
        }
        TAB_WIDTH
    } else {
        proof {
            if g@ =~= seq!['\t'] {
                assert(g@.len() == 1 && g@[0] == '\t');
            }
        }
        crate::text::display_width_str(g)
    }
}


/// Endpoint facts of a segmented line: the empty prefix, the full
/// prefix, and that both line ends are boundaries.
proof fn lemma_cluster_ends(s: Seq<u8>, l: int, g: Seq<Seq<char>>)
    requires
        line_graphemes_spec(s, l, g),
    ensures
        graphemes_prefix_len(g, 0) == 0,
        graphemes_prefix_len(g, g.len() as int) == line_content_end(s, l) - line_start(s, l),
        is_gb(s, line_start(s, l)),
        is_gb(s, line_content_end(s, l)),
        valid_utf8(s) ==> is_char_boundary(s, line_start(s, l)),
        valid_utf8(s) ==> is_char_boundary(s, line_content_end(s, l)),
        forall|j: int|
            line_content_end(s, l) < j <= line_break_at(s, l) ==> !is_gb(s, j),
{
    reveal(crate::text::line_graphemes_spec);
    assert(is_gb(s, line_start(s, l) + graphemes_prefix_len(g, 0)));
    assert(is_gb(s, line_start(s, l) + graphemes_prefix_len(g, g.len() as int)));
}

/// Everything the column walks need about cluster `k` of a segmented
/// line: its byte range, that the walk's boundary step lands exactly on
/// its end, and that its width matches the cluster's characters.
proof fn lemma_cluster_step(s: Seq<u8>, l: int, g: Seq<Seq<char>>, k: int)
    requires
        line_graphemes_spec(s, l, g),
        0 <= k < g.len(),
    ensures
        graphemes_prefix_len(g, k) + encode_utf8(g[k]).len() == graphemes_prefix_len(g, k + 1),
        encode_utf8(g[k]).len() >= 1,
        0 <= graphemes_prefix_len(g, k),
        graphemes_prefix_len(g, k + 1) <= line_content_end(s, l) - line_start(s, l),
        gb_step(s, line_start(s, l) + graphemes_prefix_len(g, k)) == line_start(s, l)
            + graphemes_prefix_len(g, k + 1),
        seg_width(
            s,
            line_start(s, l) + graphemes_prefix_len(g, k),
            line_start(s, l) + graphemes_prefix_len(g, k + 1),
        ) == grapheme_width(g[k]),
        is_gb(s, line_start(s, l) + graphemes_prefix_len(g, k + 1)),
        valid_utf8(s) ==> is_char_boundary(s, line_start(s, l) + graphemes_prefix_len(g, k + 1)),
{
    reveal(crate::text::line_graphemes_spec);
    let st = line_start(s, l);
    let p = st + graphemes_prefix_len(g, k);
    let q = st + graphemes_prefix_len(g, k + 1);
    lemma_prefix_len_bounds(g, k);
    lemma_prefix_len_mono(g, k + 1, g.len() as int);
    lemma_encode_len_ge(g[k]);
    assert(encode_utf8(g[k]) == s.subrange(p, q));
    assert(graphemes_prefix_len(g, k + 1) == graphemes_prefix_len(g, k) + encode_utf8(
        g[k],
    ).len());
    assert(is_gb(s, q));
    assert(is_gb(s, p));
    assert forall|j: int| p < j < q implies !is_gb(s, j) by {
        assert(st + graphemes_prefix_len(g, k) < j < st + graphemes_prefix_len(g, k + 1));
    }
    lemma_next_gb_unique(s, p, q);
    assert(decode_utf8(s.subrange(p, q)) == g[k]) by {
        vstd::utf8::encode_utf8_decode_utf8(g[k]);
    }
}

/// Resolves `target` display columns into a byte offset on `line`: the
/// start of the first cluster whose width would push the column past the
/// target, or the end of the line's content.  The result is always a
/// grapheme boundary of the text.
#[verifier::rlimit(100)]
#[verifier::spinoff_prover]
pub(crate) fn line_column_offset(text: &crop::Rope, line: usize, target: usize) -> (r: usize)
    requires
        line < line_count(rope_bytes(*text)),
        rope_bytes(*text).len() <= MAX_TEXT,
    ensures
        r as int == walk_pos(
            rope_bytes(*text),
            line_start(rope_bytes(*text), line as int),
            line_content_end(rope_bytes(*text), line as int),
            0,
            target as int,
        ),
        is_gb(rope_bytes(*text), r as int),
        valid_utf8(rope_bytes(*text)) ==> is_char_boundary(rope_bytes(*text), r as int),
        line_start(rope_bytes(*text), line as int) <= r as int <= line_content_end(
            rope_bytes(*text),
            line as int,
        ),
        r <= rope_bytes(*text).len(),
{
    let ghost s = rope_bytes(*text);
    let ghost st = line_start(s, line as int);
    let ghost en = line_content_end(s, line as int);
    let line_begin = rope_byte_of_line(text, line);
    let gs = rope_line_graphemes(text, line);
    let ghost g = gs.deep_view();
    proof {
        crate::model::lemma_line_start_props(s, line as int);
        crate::model::lemma_next_nl_props(s, st);
        lemma_prefix_len_bounds(g, g.len() as int);
        lemma_cluster_ends(s, line as int, g);
    }
    let mut k: usize = 0;
    let mut col: usize = 0;
    let mut consumed: usize = 0;
    while k < gs.len()
        invariant
            line_graphemes_spec(s, line as int, g),
            g == gs.deep_view(),
            s == rope_bytes(*text),
            line_begin == st,
            st == line_start(s, line as int),
            en == line_content_end(s, line as int),
            0 <= st <= en <= s.len(),
            s.len() <= MAX_TEXT,
            k <= gs.len(),
            consumed as int == graphemes_prefix_len(g, k as int),
            consumed <= en - st,
            col as int <= 8 * consumed as int,
            walk_pos(s, st, en, 0, target as int) == walk_pos(
                s,
                st + consumed,
                en,
                col as int,
                target as int,
            ),
            is_gb(s, st + consumed),
            valid_utf8(s) ==> is_char_boundary(s, st + consumed),
        decreases gs.len() - k,
    {
        let ghost p = st + consumed as int;
        let ghost q = st + graphemes_prefix_len(g, k as int + 1);
        proof {
            lemma_cluster_step(s, line as int, g, k as int);
        }
        let glen = gs[k].as_str().len();
        let w = grapheme_width_exec(gs[k].as_str());
        proof {
            assert(gs[k as int].deep_view() == g[k as int]);
            assert(w as int == seg_width(s, p, q));
            assert(glen as int == q - p);
        }
        if col + w > target {
            proof {
                assert(walk_pos(s, p, en, col as int, target as int) == p);
            }
            return line_begin + consumed;
        }
        col = col + w;
        consumed = consumed + glen;
        k = k + 1;
    }
    proof {
        assert(consumed as int == graphemes_prefix_len(g, g.len() as int));
        assert(st + consumed == en);
        assert(walk_pos(s, en, en, col as int, target as int) == en);
    }
    line_begin + consumed
}

/// Width of the clusters of `line` that lie fully before `upto`.
#[verifier::rlimit(40)]
pub(crate) fn line_prefix_width(text: &crop::Rope, line: usize, upto: usize) -> (w: usize)
    requires
        line < line_count(rope_bytes(*text)),
        rope_bytes(*text).len() <= MAX_TEXT,
        line_start(rope_bytes(*text), line as int) <= upto as int <= line_break_at(
            rope_bytes(*text),
            line as int,
        ),
        upto <= rope_bytes(*text).len(),
    ensures
        w as int == prefix_width_pos(
            rope_bytes(*text),
            line_start(rope_bytes(*text), line as int),
            upto as int,
        ),
        w as int <= 8 * (upto as int - line_start(rope_bytes(*text), line as int)),
{
    let ghost s = rope_bytes(*text);
    let ghost st = line_start(s, line as int);
    let ghost en = line_content_end(s, line as int);
    let ghost brk = line_break_at(s, line as int);
    let line_begin = rope_byte_of_line(text, line);
    let gs = rope_line_graphemes(text, line);
    let ghost g = gs.deep_view();
    proof {
        crate::model::lemma_line_start_props(s, line as int);
        crate::model::lemma_next_nl_props(s, st);
        lemma_prefix_len_bounds(g, g.len() as int);
        lemma_cluster_ends(s, line as int, g);
    }
    let mut k: usize = 0;
    let mut col: usize = 0;
    let mut consumed: usize = 0;
    while k < gs.len()
        invariant
            line_graphemes_spec(s, line as int, g),
            g == gs.deep_view(),
            s == rope_bytes(*text),
            line_begin == st,
            st == line_start(s, line as int),
            en == line_content_end(s, line as int),
            brk == line_break_at(s, line as int),
            0 <= st <= en <= s.len(),
            st <= upto as int <= brk,
            s.len() <= MAX_TEXT,
            k <= gs.len(),
            consumed as int == graphemes_prefix_len(g, k as int),
            consumed <= en - st,
            consumed as int <= upto as int - st,
            col as int <= 8 * consumed as int,
            prefix_width_pos(s, st, upto as int) == col + prefix_width_pos(
                s,
                st + consumed,
                upto as int,
            ),
        decreases gs.len() - k,
    {
        let ghost p = st + consumed as int;
        let ghost q = st + graphemes_prefix_len(g, k as int + 1);
        proof {
            lemma_cluster_step(s, line as int, g, k as int);
        }
        let glen = gs[k].as_str().len();
        let w = grapheme_width_exec(gs[k].as_str());
        proof {
            assert(gs[k as int].deep_view() == g[k as int]);
            assert(w as int == seg_width(s, p, q));
            assert(glen as int == q - p);
        }
        if consumed + glen > upto - line_begin {
            proof {
                assert(q > upto as int);
                assert(prefix_width_pos(s, p, upto as int) == 0);
            }
            return col;
        }
        col = col + w;
        consumed = consumed + glen;
        k = k + 1;
    }
    proof {
        assert(st + consumed == en);
        lemma_prefix_width_stops(s, en, upto as int, brk, line as int, g);
    }
    col
}

/// Past the content's end there is no further cluster inside the line's
/// terminator, so the remaining prefix width is zero.
proof fn lemma_prefix_width_stops(s: Seq<u8>, en: int, upto: int, brk: int, l: int, g: Seq<Seq<char>>)
    requires
        line_graphemes_spec(s, l, g),
        en == line_content_end(s, l),
        brk == line_break_at(s, l),
        en <= upto <= brk,
        en <= s.len(),
    ensures
        prefix_width_pos(s, en, upto) == 0,
{
    reveal(crate::text::line_graphemes_spec);
    if en < upto {
        // The next boundary after the content end lies past the break.
        assert(forall|j: int| en < j <= brk ==> !is_gb(s, j));
        if en < s.len() {
            lemma_next_gb(s, en);
            if next_gb(s, en) <= upto {
                assert(is_gb(s, next_gb(s, en)));
                assert(false);
            }
        }
    }
}

/// Cluster widths are never negative.
pub proof fn lemma_grapheme_width_nonneg(g: Seq<char>)
    ensures
        grapheme_width(g) >= 0,
{
}

pub proof fn lemma_prefix_width_nonneg(s: Seq<u8>, p: int, upto: int)
    ensures
        prefix_width_pos(s, p, upto) >= 0,
    decreases upto - p,
{
    if p < upto {
        let q = gb_step(s, p);
        if q <= upto {
            lemma_prefix_width_nonneg(s, q, upto);
        }
    }
}

/// The column walk never leaves the range it walks.
pub proof fn lemma_walk_bounds(s: Seq<u8>, p: int, en: int, col: int, target: int)
    requires
        p <= en,
    ensures
        p <= walk_pos(s, p, en, col, target) <= en,
    decreases en - p,
{
    if p < en {
        let q = if gb_step(s, p) > en {
            en
        } else {
            gb_step(s, p)
        };
        let w = seg_width(s, p, q);
        if !(col + w > target) {
            lemma_walk_bounds(s, q, en, col + w, target);
        }
    }
}

/// The walk's cluster step, clamped to the end of the walked range.
pub open spec fn cell_step(s: Seq<u8>, p: int, en: int) -> int {
    if gb_step(s, p) > en {
        en
    } else {
        gb_step(s, p)
    }
}

/// Resolving the width of a prefix that ends on a boundary walks back to
/// exactly that prefix's end, as long as the cluster there (if any) is
/// visibly wide.
pub proof fn lemma_walk_exact(s: Seq<u8>, p: int, en: int, o: int, col: int)
    requires
        0 <= p <= o <= en <= s.len(),
        is_gb(s, o),
        o < en ==> seg_width(s, o, cell_step(s, o, en)) >= 1,
    ensures
        walk_pos(s, p, en, col, col + prefix_width_pos(s, p, o)) == o,
    decreases o - p,
{
    if p == o {
        if p < en {
            assert(prefix_width_pos(s, p, o) == 0);
        }
    } else {
        lemma_next_gb(s, p);
        let q = next_gb(s, p);
        assert(q <= o) by {
            if q > o {
                assert(!is_gb(s, o));
            }
        }
        assert(gb_step(s, p) == q);
        let w = seg_width(s, p, q);
        lemma_grapheme_width_nonneg(decode_utf8(s.subrange(p, q)));
        lemma_prefix_width_nonneg(s, q, o);
        assert(prefix_width_pos(s, p, o) == w + prefix_width_pos(s, q, o));
        lemma_walk_exact(s, q, en, o, col + w);
    }
}

pub proof fn lemma_prefix_len_bounds(g: Seq<Seq<char>>, k: int)
    ensures
        graphemes_prefix_len(g, k) >= 0,
    decreases k,
{
    if k > 0 {
        lemma_prefix_len_bounds(g, k - 1);
    }
}

pub proof fn lemma_prefix_len_mono(g: Seq<Seq<char>>, a: int, b: int)
    requires
        0 <= a <= b,
    ensures
        graphemes_prefix_len(g, a) <= graphemes_prefix_len(g, b),
    decreases b - a,
{
    if a < b {
        lemma_prefix_len_mono(g, a, b - 1);
        lemma_prefix_len_bounds(g, b - 1);
        assert(graphemes_prefix_len(g, b) == graphemes_prefix_len(g, b - 1) + encode_utf8(
            g[b - 1],
        ).len());
    }
}

} // verus!
