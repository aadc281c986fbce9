//! Text-painting helpers that do not depend on the renderer: snapping byte
//! offsets to character boundaries, the whitespace "ghost" layer, the
//! pieces a line is painted in, and the painter's whitespace settings.

use vstd::prelude::*;
use vstd::string::StringSliceAdditionalSpecFns;
use vstd::utf8::*;

use crate::syntax::{LineSpan, SyntaxKind};
use crate::text::push_char;
use crate::utf8_offsets::{byte_offset, char_starts, lemma_offset_mono, lemma_offset_zero};

verus! {

broadcast use vstd::utf8::group_utf8_lib;

/// The EOL glyph used when the configured codepoint is not a `char`: `¶`.
pub const PILCROW_GLYPH: char = '\u{00b6}';

/// Whether `cp` is a Unicode scalar value, i.e. a valid `char`.
pub open spec fn is_scalar_value(cp: u32) -> bool {
    cp <= 0xD7FF || (0xE000 <= cp && cp <= 0x10FFFF)
}

/// Calls `char::from_u32`, which gives the `char` with codepoint `cp`
/// exactly when `cp` is a scalar value.
#[verifier::external_body]
fn char_from_u32(cp: u32) -> (r: Option<char>)
    ensures
        r is Some <==> is_scalar_value(cp),
        r matches Some(c) ==> c as u32 == cp,
{
    char::from_u32(cp)
}

/// The painter's whitespace settings: whether whitespace is shown as
/// visible glyphs, and the codepoint of the end-of-line glyph.
#[derive(Clone, Copy, Debug)]
pub struct GlyphSettings {
    pub show_ws: bool,
    pub eol_codepoint: u32,
}

impl GlyphSettings {
    /// Whitespace hidden, end of line shown as `⏎` (U+23CE).
    pub fn new() -> (g: Self)
        ensures
            !g.show_ws,
            g.eol_codepoint == 0x23ce,
    {
        GlyphSettings { show_ws: false, eol_codepoint: 0x23ce }
    }

    pub fn set_show_whitespace(&mut self, on: bool)
        ensures
            final(self).show_ws == on,
            final(self).eol_codepoint == old(self).eol_codepoint,
    {
        self.show_ws = on;
    }

    pub fn show_whitespace_enabled(&self) -> (on: bool)
        ensures
            on == self.show_ws,
    {
        self.show_ws
    }

    pub fn set_eol_glyph(&mut self, cp: u32)
        ensures
            final(self).eol_codepoint == cp,
            final(self).show_ws == old(self).show_ws,
    {
        self.eol_codepoint = cp;
    }

    /// The configured end-of-line glyph, or `¶` when the codepoint is not a
    /// `char`.
    pub fn eol_glyph(&self) -> (c: char)
        ensures
            is_scalar_value(self.eol_codepoint) ==> c as u32 == self.eol_codepoint,
            !is_scalar_value(self.eol_codepoint) ==> c == PILCROW_GLYPH,
    {
        match char_from_u32(self.eol_codepoint) {
            Some(c) => c,
            None => PILCROW_GLYPH,
        }
    }
}

/// The ghost cell drawn for one character: `·` for a space, `→` for a tab,
/// a blank for anything else.
pub open spec fn ghost_char(c: char) -> char {
    if c == ' ' {
        '\u{00b7}'
    } else if c == '\t' {
        '\u{2192}'
    } else {
        ' '
    }
}

/// The ghost layer of a line: one cell per character, then the EOL glyph.
pub open spec fn ghost_line(line: Seq<char>, eol: char) -> Seq<char> {
    line.map_values(|c: char| ghost_char(c)).push(eol)
}

/// The ghost layer has one cell per character and then the EOL glyph; a
/// cell is `·` exactly under a space, `→` exactly under a tab, and blank
/// under everything else, so the real text drawn over it hides the rest.
pub proof fn lemma_ghost_cells(line: Seq<char>, eol: char)
    ensures
        ghost_line(line, eol).len() == line.len() + 1,
        ghost_line(line, eol)[line.len() as int] == eol,
        forall|i: int|
            0 <= i < line.len() ==> (#[trigger] ghost_line(line, eol)[i]) == if line[i] == ' ' {
                '\u{00b7}'
            } else if line[i] == '\t' {
                '\u{2192}'
            } else {
                ' '
            },
{
}

/// Build the whitespace ghost of `line`: spaces become `·`, tabs `→`, every
/// other character a space, followed by `eol` for the line break.
pub fn whitespace_ghost(line: &str, eol: char) -> (out: String)
    ensures
        out@ == ghost_line(line@, eol),
{
    let mut out = String::new();
    for ch in it: line.chars()
        invariant
            out@ == it.seq().take(it.index() as int).map_values(|c: char| ghost_char(c)),
    {
        proof {
            assert(it.seq().take(it.index() + 1) =~= it.seq().take(it.index() as int).push(ch));
        }
        let g = if ch == ' ' {
            '\u{00b7}'
        } else if ch == '\t' {
            '\u{2192}'
        } else {
            ' '
        };
        push_char(&mut out, g);
        proof {
            assert(out@ =~= it.seq().take(it.index() + 1).map_values(|c: char| ghost_char(c)));
        }
    }
    push_char(&mut out, eol);
    proof {
        assert(line@.take(line@.len() as int) =~= line@);
    }
    out
}

/// The last character boundary of `bytes` at or before `min(offset, len)`.
pub open spec fn snapped(bytes: Seq<u8>, offset: int, r: int) -> bool {
    let limit = if offset < bytes.len() { offset } else { bytes.len() as int };
    &&& 0 <= r <= limit
    &&& is_char_boundary(bytes, r)
    &&& forall|j: int| r < j <= limit ==> !is_char_boundary(bytes, j)
}

/// Snap a byte offset to the nearest preceding char boundary in `s`; an
/// offset past the end snaps to the end.
pub fn snap_to_char_boundary(s: &str, byte_offset: usize) -> (r: usize)
    requires
        s.spec_bytes().len() <= usize::MAX,
    ensures
        snapped(s.spec_bytes(), byte_offset as int, r as int),
{
    let len = s.len();
    let clamped = if byte_offset < len { byte_offset } else { len };
    let mut snap = clamped;
    while snap > 0 && !s.is_char_boundary(snap)
        invariant
            snap <= clamped,
            clamped <= s.spec_bytes().len(),
            clamped == (if byte_offset < s.spec_bytes().len() { byte_offset as int } else { s.spec_bytes().len() as int }),
            forall|j: int| snap < j <= clamped ==> !is_char_boundary(s.spec_bytes(), j),
        decreases snap,
    {
        snap -= 1;
    }
    proof {
        is_char_boundary_start_end_of_seq(s.spec_bytes());
    }
    snap
}


/// Snapping is idempotent: a snapped offset snaps to itself.
pub proof fn lemma_snap_idempotent(bytes: Seq<u8>, offset: int, r: int)
    requires
        snapped(bytes, offset, r),
    ensures
        snapped(bytes, r, r),
{
}

/// A piece of a line painted in one color: its byte range, and the kind of
/// the span it belongs to (`None` for text outside every span).
#[derive(Clone, Copy, Debug, PartialEq, Eq, Structural)]
pub struct TextChunk {
    pub start_byte: usize,
    pub end_byte: usize,
    pub kind: Option<SyntaxKind>,
}

/// The pieces, in character columns, that a line of `n` characters is
/// painted in, from span `k` on with the columns before `cursor` done: for
/// each span that is not empty once cut at the line's end, the uncolored
/// gap from `cursor` up to it (when it starts after `cursor`) and the span
/// itself, after which `cursor` moves to its end; last, the uncolored rest
/// of the line.
pub open spec fn paint_pieces(spans: Seq<LineSpan>, n: int, k: int, cursor: int) -> Seq<
    (int, int, Option<SyntaxKind>),
>
    decreases spans.len() - k,
{
    if k >= spans.len() || k < 0 {
        if cursor < n {
            seq![(cursor, n, None)]
        } else {
            Seq::empty()
        }
    } else {
        let s = spans[k].start_col as int;
        let e = if (spans[k].end_col as int) < n {
            spans[k].end_col as int
        } else {
            n
        };
        if e <= s {
            paint_pieces(spans, n, k + 1, cursor)
        } else {
            (if s > cursor {
                seq![(cursor, s, None::<SyntaxKind>)]
            } else {
                Seq::empty()
            }) + seq![(s, e, Some(spans[k].kind))] + paint_pieces(spans, n, k + 1, e)
        }
    }
}

/// `c` is piece `p` of `line`, its columns turned into byte offsets.
pub open spec fn chunk_of(line: Seq<char>, p: (int, int, Option<SyntaxKind>), c: TextChunk) -> bool {
    &&& c.start_byte == byte_offset(line, p.0)
    &&& c.end_byte == byte_offset(line, p.1)
    &&& c.kind == p.2
}

/// The pieces `line_text` is painted in under `spans`, left to right as the
/// spans come: uncolored gaps, the spans cut at the line's end, and the
/// uncolored tail. An empty line has none; a line without spans is one
/// uncolored piece. For spans in order and apart, as the highlighter gives
/// them, the pieces cover the line's bytes exactly.
pub fn line_paint_chunks(line_text: &str, spans: &[LineSpan]) -> (r: Vec<TextChunk>)
    requires
        line_text.spec_bytes().len() <= usize::MAX,
    ensures
        ({
            let pieces = paint_pieces(spans@, line_text@.len() as int, 0, 0);
            &&& r@.len() == pieces.len()
            &&& forall|i: int| 0 <= i < r@.len() ==> chunk_of(line_text@, pieces[i], #[trigger] r@[i])
        }),
        spans_apart(spans@) ==> chunks_cover(r@, line_text.spec_bytes().len() as int),
{
    let starts = char_starts(line_text);
    let n = starts.len() - 1;
    let ghost line = line_text@;
    let ghost whole = paint_pieces(spans@, n as int, 0, 0);
    let mut out: Vec<TextChunk> = Vec::new();
    let mut cursor: usize = 0;
    let mut k: usize = 0;
    while k < spans.len()
        invariant
            k <= spans.len(),
            n == line.len(),
            starts@.len() == n + 1,
            forall|x: int| 0 <= x <= n ==> #[trigger] starts@[x] == byte_offset(line, x),
            cursor <= n,
            out@.len() + paint_pieces(spans@, n as int, k as int, cursor as int).len() == whole.len(),
            forall|i: int| 0 <= i < out@.len() ==> chunk_of(line, whole[i], #[trigger] out@[i]),
            forall|i: int|
                0 <= i < paint_pieces(spans@, n as int, k as int, cursor as int).len() ==> whole[out@.len()
                    + i] == #[trigger] paint_pieces(spans@, n as int, k as int, cursor as int)[i],
        decreases spans.len() - k,
    {
        let sp = spans[k];
        let s = sp.start_col;
        let e = if sp.end_col < n {
            sp.end_col
        } else {
            n
        };
        let ghost rest = paint_pieces(spans@, n as int, k as int, cursor as int);
        let ghost next_cursor: int = if e <= s { cursor as int } else { e as int };
        let ghost tail = paint_pieces(spans@, n as int, k + 1, next_cursor);
        if e > s {
            let ghost before_len = out@.len();
            if s > cursor {
                out.push(TextChunk { start_byte: starts[cursor], end_byte: starts[s], kind: None });
            }
            out.push(TextChunk { start_byte: starts[s], end_byte: starts[e], kind: Some(sp.kind) });
            proof {
                let head: Seq<(int, int, Option<SyntaxKind>)> = if s > cursor {
                    seq![(cursor as int, s as int, None::<SyntaxKind>)]
                } else {
                    Seq::empty()
                };
                assert(rest == head + seq![(s as int, e as int, Some(sp.kind))] + tail);
                assert(out@.len() == before_len + head.len() + 1);
                assert forall|i: int| 0 <= i < out@.len() implies chunk_of(line, whole[i], #[trigger] out@[i]) by {
                    if i >= before_len {
                        assert(whole[i] == rest[i - before_len]);
                    }
                }
                assert forall|i: int| 0 <= i < tail.len() implies whole[out@.len() + i] == #[trigger] tail[i] by {
                    assert(rest[head.len() + 1 + i] == tail[i]);
                    assert(whole[before_len + (head.len() + 1 + i)] == rest[head.len() + 1 + i]);
                }
            }
            cursor = e;
        }
        k += 1;
    }
    let ghost rest = paint_pieces(spans@, n as int, k as int, cursor as int);
    let total = starts[n];
    if cursor < n {
        let ghost before_len = out@.len();
        out.push(TextChunk { start_byte: starts[cursor], end_byte: starts[n], kind: None });
        proof {
            assert(rest == seq![(cursor as int, n as int, None::<SyntaxKind>)]);
            assert forall|i: int| 0 <= i < out@.len() implies chunk_of(line, whole[i], #[trigger] out@[i]) by {
                if i >= before_len {
                    assert(whole[i] == rest[i - before_len]);
                }
            }
        }
    }
    proof {
        if spans_apart(spans@) {
            lemma_chunk_bytes(line, spans@, out@, total as int);
        }
    }
    out
}

/// Chunks that cover the bytes `0..len` left to right, each non-empty,
/// each starting where the one before ends.
pub open spec fn chunks_cover(cs: Seq<TextChunk>, len: int) -> bool {
    if cs.len() == 0 {
        len == 0
    } else {
        &&& cs[0].start_byte == 0
        &&& cs.last().end_byte == len
        &&& forall|i: int| 0 <= i < cs.len() ==> (#[trigger] cs[i]).start_byte < cs[i].end_byte
        &&& forall|i: int| 0 <= i < cs.len() - 1 ==> (#[trigger] cs[i]).end_byte == cs[i + 1].start_byte
    }
}

proof fn lemma_chunk_bytes(line: Seq<char>, spans: Seq<LineSpan>, cs: Seq<TextChunk>, total: int)
    requires
        spans_apart(spans),
        total == byte_offset(line, line.len() as int),
        cs.len() == paint_pieces(spans, line.len() as int, 0, 0).len(),
        forall|i: int|
            0 <= i < cs.len() ==> chunk_of(line, paint_pieces(spans, line.len() as int, 0, 0)[i], #[trigger] cs[i]),
    ensures
        chunks_cover(cs, total),
{
    let n = line.len() as int;
    let ps = paint_pieces(spans, n, 0, 0);
    lemma_pieces_tile(spans, n, 0, 0);
    lemma_offset_zero(line);
    if cs.len() > 0 {
        assert(chunk_of(line, ps[0], cs[0]));
        assert(chunk_of(line, ps[cs.len() - 1], cs[cs.len() - 1]));
        assert forall|i: int| 0 <= i < cs.len() implies (#[trigger] cs[i]).start_byte < cs[i].end_byte by {
            assert(chunk_of(line, ps[i], cs[i]));
            assert(0 <= ps[i].0 && ps[i].1 <= n);
            lemma_offset_mono(line, ps[i].0, ps[i].1);
        }
        assert forall|i: int| 0 <= i < cs.len() - 1 implies (#[trigger] cs[i]).end_byte == cs[i + 1].start_byte by {
            assert(chunk_of(line, ps[i], cs[i]));
            assert(chunk_of(line, ps[i + 1], cs[i + 1]));
            assert(ps[i].1 == ps[i + 1].0);
        }
    }
}

/// Pieces that cover the columns `from..to` left to right, each non-empty,
/// each starting where the one before ends.
pub open spec fn tiles(ps: Seq<(int, int, Option<SyntaxKind>)>, from: int, to: int) -> bool {
    if ps.len() == 0 {
        from == to
    } else {
        &&& ps[0].0 == from
        &&& ps.last().1 == to
        &&& forall|i: int| 0 <= i < ps.len() ==> (#[trigger] ps[i]).0 < ps[i].1
        &&& forall|i: int| 0 <= i < ps.len() - 1 ==> (#[trigger] ps[i]).1 == ps[i + 1].0
    }
}

/// Spans in order and apart: each ends no later than the next starts.
pub open spec fn spans_apart(spans: Seq<LineSpan>) -> bool {
    &&& forall|i: int| 0 <= i < spans.len() ==> (#[trigger] spans[i]).start_col <= spans[i].end_col
    &&& forall|i: int, j: int| 0 <= i < j < spans.len() ==> (#[trigger] spans[i]).end_col <= (
    #[trigger] spans[j]).start_col
}

proof fn lemma_tiles_join(a: Seq<(int, int, Option<SyntaxKind>)>, b: Seq<(int, int, Option<SyntaxKind>)>, x: int, y: int, z: int)
    requires
        tiles(a, x, y),
        tiles(b, y, z),
    ensures
        tiles(a + b, x, z),
{
    if a.len() == 0 {
        assert(a + b =~= b);
    } else if b.len() == 0 {
        assert(a + b =~= a);
    } else {
        let c = a + b;
        assert forall|i: int| 0 <= i < c.len() implies (#[trigger] c[i]).0 < c[i].1 by {
            if i < a.len() {
                assert(c[i] == a[i]);
            } else {
                assert(c[i] == b[i - a.len()]);
            }
        }
        assert forall|i: int| 0 <= i < c.len() - 1 implies (#[trigger] c[i]).1 == c[i + 1].0 by {
            if i < a.len() - 1 {
                assert(c[i] == a[i] && c[i + 1] == a[i + 1]);
            } else if i == a.len() - 1 {
                assert(c[i] == a.last() && c[i + 1] == b[0]);
            } else {
                assert(c[i] == b[i - a.len()] && c[i + 1] == b[i - a.len() + 1]);
            }
        }
        assert(c[0] == a[0]);
        assert(c.last() == b.last());
    }
}

proof fn lemma_pieces_tile(spans: Seq<LineSpan>, n: int, k: int, cursor: int)
    requires
        0 <= cursor <= n,
        0 <= k,
        spans_apart(spans),
        forall|j: int| k <= j < spans.len() ==> cursor <= (#[trigger] spans[j]).start_col,
    ensures
        tiles(paint_pieces(spans, n, k, cursor), cursor, n),
        forall|i: int|
            0 <= i < paint_pieces(spans, n, k, cursor).len() ==> cursor <= (#[trigger] paint_pieces(
                spans,
                n,
                k,
                cursor,
            )[i]).0 && paint_pieces(spans, n, k, cursor)[i].1 <= n,
    decreases spans.len() - k,
{
    if k >= spans.len() {
        if cursor < n {
            let ps = seq![(cursor, n, None::<SyntaxKind>)];
            assert(ps.last() == (cursor, n, None::<SyntaxKind>));
        }
    } else {
        let sp = spans[k];
        let s = sp.start_col as int;
        let e = if (sp.end_col as int) < n { sp.end_col as int } else { n };
        if e <= s {
            lemma_pieces_tile(spans, n, k + 1, cursor);
        } else {
            assert forall|j: int| k + 1 <= j < spans.len() implies e <= (#[trigger] spans[j]).start_col by {
                assert(spans[k].end_col <= spans[j].start_col);
            }
            lemma_pieces_tile(spans, n, k + 1, e);
            let mid = seq![(s, e, Some(sp.kind))];
            assert(mid.last() == (s, e, Some(sp.kind)));
            assert(tiles(mid, s, e));
            let head: Seq<(int, int, Option<SyntaxKind>)> = if s > cursor {
                seq![(cursor, s, None::<SyntaxKind>)]
            } else {
                Seq::empty()
            };
            if s > cursor {
                assert(head.last() == (cursor, s, None::<SyntaxKind>));
            }
            assert(tiles(head, cursor, s));
            lemma_tiles_join(head, mid, cursor, s, e);
            let rest = paint_pieces(spans, n, k + 1, e);
            lemma_tiles_join(head + mid, rest, cursor, e, n);
            let all = head + mid + rest;
            assert(paint_pieces(spans, n, k, cursor) == all);
            assert forall|i: int| 0 <= i < all.len() implies cursor <= (#[trigger] all[i]).0
                && all[i].1 <= n by {
                if i >= head.len() + 1 {
                    assert(all[i] == rest[i - head.len() - 1]);
                } else if i == head.len() {
                    assert(all[i] == mid[0]);
                } else {
                    assert(all[i] == head[i]);
                }
            }
        }
    }
}

} // verus!
