//! Syntax-highlight spans: mapping byte ranges of a source text onto per-line
//! character-column spans, rainbow bracket coloring, and picking a language
//! from a file name.

use vstd::prelude::*;

use crate::text::{chars_eq, chars_of, last_index_of};

verus! {

/// Coarse category a piece of source is painted as.
#[derive(Clone, Copy, Debug, PartialEq, Eq, Structural)]
pub enum SyntaxKind {
    Keyword,
    Type,
    String,
    Number,
    Comment,
    Function,
    Preproc,
    Constant,
    /// A bracket, colored by nesting depth modulo the palette size.
    Bracket(u8),
}

/// Which row/highlight background sits under a piece of text.
#[derive(Clone, Copy, Debug, PartialEq, Eq, Structural)]
pub enum HlBg {
    /// No row tint.
    Plain,
    DeleteRow,
    DeleteHl,
    InsertRow,
    InsertHl,
}

/// A colored run within a line; columns count characters, not bytes.
#[derive(Clone, Copy, Debug, PartialEq, Eq, Structural)]
pub struct LineSpan {
    pub start_col: usize,
    pub end_col: usize,
    pub kind: SyntaxKind,
}

/// Number of bracket colors; depths wrap around it.
pub const BRACKET_PALETTE_LEN: usize = 7;

// ---------------------------------------------------------------------------
// Lines and columns of a byte text
// ---------------------------------------------------------------------------

/// Byte offsets at which each line of `bytes` starts: 0, and one past every `'\n'`.
pub open spec fn line_starts_spec(bytes: Seq<u8>) -> Seq<usize>
    decreases bytes.len(),
{
    if bytes.len() == 0 {
        seq![0usize]
    } else if bytes.last() == 10u8 {
        line_starts_spec(bytes.drop_last()).push(bytes.len() as usize)
    } else {
        line_starts_spec(bytes.drop_last())
    }
}

pub fn compute_line_starts(bytes: &[u8]) -> (v: Vec<usize>)
    ensures
        v@ == line_starts_spec(bytes@),
{
    let mut v: Vec<usize> = Vec::new();
    v.push(0);
    let mut i: usize = 0;
    proof {
        assert(bytes@.take(0) =~= Seq::<u8>::empty());
        assert(v@ =~= line_starts_spec(bytes@.take(0)));
    }
    while i < bytes.len()
        invariant
            i <= bytes.len(),
            v@ == line_starts_spec(bytes@.take(i as int)),
        decreases bytes.len() - i,
    {
        proof {
            assert(bytes@.take(i + 1).drop_last() =~= bytes@.take(i as int));
        }
        if bytes[i] == 10u8 {
            v.push(i + 1);
        }
        i += 1;
    }
    proof {
        assert(bytes@.take(bytes.len() as int) =~= bytes@);
    }
    v
}

/// Line starts usable for a text of `n` bytes: the first is 0, they never
/// decrease, and none is past the end.
pub open spec fn starts_ok(ls: Seq<usize>, n: int) -> bool {
    &&& ls.len() > 0
    &&& ls[0] == 0
    &&& forall|i: int, j: int| 0 <= i <= j < ls.len() ==> ls[i] <= ls[j]
    &&& forall|i: int| 0 <= i < ls.len() ==> ls[i] <= n
}

proof fn lemma_line_starts_ok(bytes: Seq<u8>)
    requires
        bytes.len() <= usize::MAX,
    ensures
        starts_ok(line_starts_spec(bytes), bytes.len() as int),
        line_starts_spec(bytes).len() <= bytes.len() + 1,
    decreases bytes.len(),
{
    if bytes.len() > 0 {
        lemma_line_starts_ok(bytes.drop_last());
        let p = line_starts_spec(bytes.drop_last());
        let q = line_starts_spec(bytes);
        if bytes.last() == 10u8 {
            assert forall|i: int, j: int| 0 <= i <= j < q.len() implies q[i] <= q[j] by {
                if j < p.len() {
                    assert(q[i] == p[i] && q[j] == p[j]);
                } else if i < p.len() {
                    assert(q[i] == p[i]);
                    assert(p[i] <= bytes.len() - 1);
                    assert(q[j] == bytes.len());
                }
            }
        }
    }
}

/// The line starts of every text are usable for it.
pub proof fn lemma_computed_starts_ok(bytes: Seq<u8>)
    requires
        bytes.len() <= usize::MAX,
    ensures
        starts_ok(line_starts_spec(bytes), bytes.len() as int),
{
    lemma_line_starts_ok(bytes);
}

/// Index of the last of `ls[0..=k]` that is at most `b` (0 if none).
pub open spec fn last_le(ls: Seq<usize>, b: int, k: int) -> int
    decreases k,
{
    if k <= 0 {
        0
    } else if ls[k] <= b {
        k
    } else {
        last_le(ls, b, k - 1)
    }
}

/// The line holding byte `b`: the last line starting at or before it.
pub open spec fn line_of(ls: Seq<usize>, b: int) -> int {
    last_le(ls, b, ls.len() - 1)
}

/// Characters (non-continuation bytes) in a UTF-8 byte range.
pub open spec fn count_chars(bytes: Seq<u8>) -> nat
    decreases bytes.len(),
{
    if bytes.len() == 0 {
        0
    } else {
        count_chars(bytes.drop_last()) + if (bytes.last() & 0xC0u8) != 0x80u8 {
            1nat
        } else {
            0nat
        }
    }
}

pub open spec fn min_int(a: int, b: int) -> int {
    if a <= b {
        a
    } else {
        b
    }
}

/// Character column of byte `b` within its line.
pub open spec fn col_of(ls: Seq<usize>, bytes: Seq<u8>, b: int) -> int {
    count_chars(bytes.subrange(ls[line_of(ls, b)] as int, min_int(b, bytes.len() as int))) as int
}

proof fn lemma_last_le(ls: Seq<usize>, b: int, k: int, p: int)
    requires
        0 < p <= k + 1,
        k < ls.len(),
        ls[p - 1] <= b,
        forall|x: int| p <= x <= k ==> ls[x] > b,
    ensures
        last_le(ls, b, k) == p - 1,
    decreases k,
{
    if k > p - 1 {
        lemma_last_le(ls, b, k - 1, p);
    }
}

proof fn lemma_last_le_range(ls: Seq<usize>, b: int, k: int)
    requires
        0 <= k,
    ensures
        0 <= last_le(ls, b, k) <= k,
    decreases k,
{
    if k > 0 {
        lemma_last_le_range(ls, b, k - 1);
    }
}

/// Number of leading line starts that are at most `b` (a partition point).
fn partition_le(ls: &[usize], b: usize) -> (p: usize)
    requires
        ls.len() > 0,
        ls[0] == 0,
        forall|i: int, j: int| 0 <= i <= j < ls.len() ==> ls[i] <= ls[j],
    ensures
        1 <= p <= ls.len(),
        ls[p - 1] <= b,
        forall|x: int| p <= x < ls.len() ==> ls[x] > b,
        forall|x: int| 0 <= x < p ==> ls[x] <= b,
{
    let mut lo: usize = 1;
    let mut hi: usize = ls.len();
    while lo < hi
        invariant
            1 <= lo <= hi <= ls.len(),
            forall|i: int, j: int| 0 <= i <= j < ls.len() ==> ls[i] <= ls[j],
            forall|x: int| 0 <= x < lo ==> ls[x] <= b,
            forall|x: int| hi <= x < ls.len() ==> ls[x] > b,
        decreases hi - lo,
    {
        let mid = lo + (hi - lo) / 2;
        if ls[mid] <= b {
            lo = mid + 1;
        } else {
            hi = mid;
        }
    }
    lo
}

proof fn lemma_count_chars_bound(bytes: Seq<u8>)
    ensures
        count_chars(bytes) <= bytes.len(),
    decreases bytes.len(),
{
    if bytes.len() > 0 {
        lemma_count_chars_bound(bytes.drop_last());
    }
}

/// Number of characters in `bytes[from..to]`.
fn count_chars_range(bytes: &[u8], from: usize, to: usize) -> (n: usize)
    requires
        from <= to <= bytes.len(),
    ensures
        n == count_chars(bytes@.subrange(from as int, to as int)),
{
    let mut n: usize = 0;
    let mut k = from;
    proof {
        assert(bytes@.subrange(from as int, from as int) =~= Seq::<u8>::empty());
    }
    while k < to
        invariant
            from <= k <= to,
            to <= bytes.len(),
            n == count_chars(bytes@.subrange(from as int, k as int)),
            n <= k - from,
        decreases to - k,
    {
        proof {
            assert(bytes@.subrange(from as int, k + 1).drop_last() =~= bytes@.subrange(
                from as int,
                k as int,
            ));
        }
        if (bytes[k] & 0xC0u8) != 0x80u8 {
            n += 1;
        }
        k += 1;
    }
    n
}

/// The line holding byte `byte` and its character column there. A byte past
/// the end counts the characters up to the end of the text.
pub fn byte_to_line_col(byte: usize, line_starts: &[usize], bytes: &[u8]) -> (r: (usize, usize))
    requires
        starts_ok(line_starts@, bytes@.len() as int),
    ensures
        r.0 == line_of(line_starts@, byte as int),
        r.1 == col_of(line_starts@, bytes@, byte as int),
        r.0 < line_starts@.len(),
        r.1 <= bytes@.len(),
{
    let p = partition_le(line_starts, byte);
    let line = p - 1;
    proof {
        lemma_last_le(line_starts@, byte as int, line_starts@.len() - 1, p as int);
    }
    let line_start = line_starts[line];
    let end = if byte <= bytes.len() {
        byte
    } else {
        bytes.len()
    };
    let col = count_chars_range(bytes, line_start, end);
    proof {
        lemma_count_chars_bound(bytes@.subrange(line_start as int, end as int));
    }
    (line, col)
}

/// End (exclusive) of line `line`'s content: the next line's start, or the
/// end of the text, less a trailing `'\n'`.
pub open spec fn line_content_end(ls: Seq<usize>, bytes: Seq<u8>, line: int) -> int {
    let start = ls[line] as int;
    let end = if line + 1 < ls.len() {
        ls[line + 1] as int
    } else {
        bytes.len() as int
    };
    if end > start && bytes[end - 1] == 10u8 {
        end - 1
    } else {
        end
    }
}

/// Number of characters on line `line`, without its line break.
pub open spec fn line_width(ls: Seq<usize>, bytes: Seq<u8>, line: int) -> int {
    count_chars(bytes.subrange(ls[line] as int, line_content_end(ls, bytes, line))) as int
}

pub fn chars_to_eol(line: usize, line_starts: &[usize], bytes: &[u8]) -> (n: usize)
    requires
        starts_ok(line_starts@, bytes@.len() as int),
        line < line_starts@.len(),
    ensures
        n == line_width(line_starts@, bytes@, line as int),
{
    let start = line_starts[line];
    let end0 = if line + 1 < line_starts.len() {
        line_starts[line + 1]
    } else {
        bytes.len()
    };
    let end = if end0 > start && bytes[end0 - 1] == 10u8 {
        end0 - 1
    } else {
        end0
    };
    count_chars_range(bytes, start, end)
}

// ---------------------------------------------------------------------------
// Spans of a byte range
// ---------------------------------------------------------------------------

/// Each line's spans are the old ones followed by `extra(l)`.
pub open spec fn appended(
    before: Seq<Vec<LineSpan>>,
    after: Seq<Vec<LineSpan>>,
    extra: spec_fn(int) -> Seq<LineSpan>,
) -> bool {
    &&& after.len() == before.len()
    &&& forall|l: int| 0 <= l < before.len() ==> (#[trigger] after[l])@ == before[l]@ + extra(l)
}

pub open spec fn max_int(a: int, b: int) -> int {
    if a >= b {
        a
    } else {
        b
    }
}

/// The span that byte range `[start, end)` of kind `kind` puts on line `l`:
/// from its column on its first line (0 on later lines) to the end of each
/// line it crosses, and up to its end column on its last line.
pub open spec fn range_span(
    ls: Seq<usize>,
    bytes: Seq<u8>,
    start: int,
    end: int,
    kind: SyntaxKind,
    l: int,
) -> Seq<LineSpan> {
    let sl = line_of(ls, start);
    let sc = col_of(ls, bytes, start);
    let el = line_of(ls, end);
    let ec = col_of(ls, bytes, end);
    let last = max_int(sl, el);
    let last_col = if el > sl {
        0
    } else {
        sc
    };
    if start >= end {
        Seq::empty()
    } else if sl <= l < last {
        let col = if l == sl {
            sc
        } else {
            0
        };
        let eol = line_width(ls, bytes, l);
        if eol > col {
            seq![LineSpan { start_col: col as usize, end_col: eol as usize, kind }]
        } else {
            Seq::empty()
        }
    } else if l == last && ec > last_col {
        seq![LineSpan { start_col: last_col as usize, end_col: ec as usize, kind }]
    } else {
        Seq::empty()
    }
}

/// Record the byte range `[start_byte, end_byte)` as spans of `kind`, one per
/// line it overlaps.
pub fn emit_spans(
    start_byte: usize,
    end_byte: usize,
    kind: SyntaxKind,
    out: &mut [Vec<LineSpan>],
    line_starts: &[usize],
    bytes: &[u8],
)
    requires
        starts_ok(line_starts@, bytes@.len() as int),
    ensures
        appended(
            old(out)@,
            final(out)@,
            |l: int| range_span(line_starts@, bytes@, start_byte as int, end_byte as int, kind, l),
        ),
{
    if start_byte >= end_byte || out.len() == 0 {
        proof {
            assert forall|l: int| 0 <= l < out@.len() implies (#[trigger] out@[l])@ == old(
                out,
            )@[l]@ + range_span(
                line_starts@,
                bytes@,
                start_byte as int,
                end_byte as int,
                kind,
                l,
            ) by {
                if start_byte < end_byte {
                    assert(false);
                }
                assert(out@[l]@ =~= old(out)@[l]@ + Seq::<LineSpan>::empty());
            }
        }
        return;
    }
    let (mut line, mut col) = byte_to_line_col(start_byte, line_starts, bytes);
    let (end_line, end_col) = byte_to_line_col(end_byte, line_starts, bytes);
    let ghost sl = line as int;
    let ghost sc = col as int;
    proof {
        lemma_last_le_range(line_starts@, end_byte as int, line_starts@.len() - 1);
    }
    while line < end_line
        invariant
            sl <= line,
            line <= end_line || line == sl,
            end_line < line_starts@.len(),
            sl == line_of(line_starts@, start_byte as int),
            sc == col_of(line_starts@, bytes@, start_byte as int),
            end_line == line_of(line_starts@, end_byte as int),
            end_col == col_of(line_starts@, bytes@, end_byte as int),
            starts_ok(line_starts@, bytes@.len() as int),
            start_byte < end_byte,
            col == if line == sl {
                sc
            } else {
                0
            },
            out@.len() == old(out)@.len(),
            forall|l: int|
                0 <= l < out@.len() ==> (#[trigger] out@[l])@ == old(out)@[l]@ + if sl <= l
                    < line {
                    range_span(line_starts@, bytes@, start_byte as int, end_byte as int, kind, l)
                } else {
                    Seq::empty()
                },
        decreases end_line - line,
    {
        if line < out.len() {
            let line_end_col = chars_to_eol(line, line_starts, bytes);
            if line_end_col > col {
                out[line].push(LineSpan { start_col: col, end_col: line_end_col, kind });
            }
        }
        proof {
            assert forall|l: int| 0 <= l < out@.len() implies (#[trigger] out@[l])@ == old(
                out,
            )@[l]@ + if sl <= l < line + 1 {
                range_span(line_starts@, bytes@, start_byte as int, end_byte as int, kind, l)
            } else {
                Seq::empty()
            } by {
                if l == line {
                    assert(old(out)@[l]@ + Seq::<LineSpan>::empty() =~= old(out)@[l]@);
                } else {
                    assert(out@[l] == out@[l]);
                }
            }
        }
        line += 1;
        col = 0;
    }
    let ghost mid = out@;
    if line < out.len() && end_col > col {
        out[line].push(LineSpan { start_col: col, end_col, kind });
    }
    proof {
        assert forall|l: int| 0 <= l < out@.len() implies (#[trigger] out@[l])@ == old(out)@[l]@
            + range_span(line_starts@, bytes@, start_byte as int, end_byte as int, kind, l) by {
            if l == line {
            } else {
                assert(out@[l] == mid[l]);
                assert(mid[l]@ == old(out)@[l]@ + if sl <= l < line {
                    range_span(line_starts@, bytes@, start_byte as int, end_byte as int, kind, l)
                } else {
                    Seq::empty()
                });
                if !(sl <= l < line) {
                    assert(mid[l]@ =~= old(out)@[l]@ + range_span(
                        line_starts@,
                        bytes@,
                        start_byte as int,
                        end_byte as int,
                        kind,
                        l,
                    ));
                }
            }
        }
    }
}

// ---------------------------------------------------------------------------
// Rainbow brackets
// ---------------------------------------------------------------------------

/// The one-character bracket span at byte `byte`, on its own line only.
pub open spec fn bracket_span(ls: Seq<usize>, bytes: Seq<u8>, byte: int, d: u8, l: int) -> Seq<
    LineSpan,
> {
    if line_of(ls, byte) == l {
        seq![
            LineSpan {
                start_col: col_of(ls, bytes, byte) as usize,
                end_col: (col_of(ls, bytes, byte) + 1) as usize,
                kind: SyntaxKind::Bracket(d),
            },
        ]
    } else {
        Seq::empty()
    }
}

pub fn emit_bracket(
    byte: usize,
    d: u8,
    line_starts: &[usize],
    bytes: &[u8],
    out: &mut [Vec<LineSpan>],
)
    requires
        starts_ok(line_starts@, bytes@.len() as int),
        bytes@.len() < usize::MAX,
    ensures
        appended(old(out)@, final(out)@, |l: int| bracket_span(line_starts@, bytes@, byte as int, d, l)),
{
    let (line, col) = byte_to_line_col(byte, line_starts, bytes);
    if line < out.len() {
        out[line].push(LineSpan { start_col: col, end_col: col + 1, kind: SyntaxKind::Bracket(d) });
    }
    proof {
        assert forall|l: int| 0 <= l < out@.len() implies (#[trigger] out@[l])@ == old(out)@[l]@
            + bracket_span(line_starts@, bytes@, byte as int, d, l) by {
            if l != line {
                assert(out@[l]@ =~= old(out)@[l]@ + Seq::<LineSpan>::empty());
            }
        }
    }
}

/// Byte `i` lies in one of the string/comment ranges.
pub open spec fn masked_at(masked: Seq<(usize, usize)>, i: int) -> bool {
    exists|k: int| 0 <= k < masked.len() && masked[k].0 <= i < (#[trigger] masked[k]).1
}

pub open spec fn is_open_bracket(b: u8) -> bool {
    b == 40u8 || b == 91u8 || b == 123u8
}

pub open spec fn is_close_bracket(b: u8) -> bool {
    b == 41u8 || b == 93u8 || b == 125u8
}

/// Bracket nesting depth before byte `i`, over bytes outside the masked ranges.
pub open spec fn depth_before(bytes: Seq<u8>, masked: Seq<(usize, usize)>, i: int) -> int
    decreases i,
{
    if i <= 0 {
        0
    } else {
        depth_before(bytes, masked, i - 1) + if masked_at(masked, i - 1) {
            0
        } else if is_open_bracket(bytes[i - 1]) {
            1
        } else if is_close_bracket(bytes[i - 1]) {
            -1
        } else {
            0
        }
    }
}

/// Palette index of the bracket at byte `j`: an opener takes the depth before
/// it, a closer the depth after it, so a pair shares one color.
pub open spec fn bracket_color(bytes: Seq<u8>, masked: Seq<(usize, usize)>, j: int) -> u8 {
    let depth = if is_open_bracket(bytes[j]) {
        depth_before(bytes, masked, j)
    } else {
        depth_before(bytes, masked, j) - 1
    };
    (max_int(depth, 0) % (BRACKET_PALETTE_LEN as int)) as u8
}

/// Bracket spans on line `l` for unmasked brackets among the first `upto` bytes.
pub open spec fn bracket_spans(
    ls: Seq<usize>,
    bytes: Seq<u8>,
    masked: Seq<(usize, usize)>,
    l: int,
    upto: int,
) -> Seq<LineSpan>
    decreases upto,
{
    if upto <= 0 {
        Seq::empty()
    } else {
        let j = upto - 1;
        bracket_spans(ls, bytes, masked, l, j) + if !masked_at(masked, j) && (is_open_bracket(
            bytes[j],
        ) || is_close_bracket(bytes[j])) {
            bracket_span(ls, bytes, j, bracket_color(bytes, masked, j), l)
        } else {
            Seq::empty()
        }
    }
}

/// Ranges that mask the same bytes give the same depths.
proof fn lemma_depth_same_mask(bytes: Seq<u8>, m1: Seq<(usize, usize)>, m2: Seq<(usize, usize)>, i: int)
    requires
        forall|x: int| #[trigger] masked_at(m1, x) == masked_at(m2, x),
    ensures
        depth_before(bytes, m1, i) == depth_before(bytes, m2, i),
    decreases i,
{
    if i > 0 {
        lemma_depth_same_mask(bytes, m1, m2, i - 1);
        assert(masked_at(m1, i - 1) == masked_at(m2, i - 1));
    }
}

/// Ranges that mask the same bytes give the same bracket spans.
pub proof fn lemma_brackets_same_mask(
    ls: Seq<usize>,
    bytes: Seq<u8>,
    m1: Seq<(usize, usize)>,
    m2: Seq<(usize, usize)>,
    l: int,
    upto: int,
)
    requires
        forall|x: int| #[trigger] masked_at(m1, x) == masked_at(m2, x),
    ensures
        bracket_spans(ls, bytes, m1, l, upto) == bracket_spans(ls, bytes, m2, l, upto),
    decreases upto,
{
    if upto > 0 {
        let j = upto - 1;
        lemma_brackets_same_mask(ls, bytes, m1, m2, l, j);
        lemma_depth_same_mask(bytes, m1, m2, j);
        assert(masked_at(m1, j) == masked_at(m2, j));
        assert(bracket_color(bytes, m1, j) == bracket_color(bytes, m2, j));
    }
}

proof fn lemma_masked_run(
    ls: Seq<usize>,
    bytes: Seq<u8>,
    masked: Seq<(usize, usize)>,
    from: int,
    to: int,
)
    requires
        0 <= from <= to,
        forall|x: int| from <= x < to ==> masked_at(masked, x),
    ensures
        depth_before(bytes, masked, to) == depth_before(bytes, masked, from),
        forall|l: int| bracket_spans(ls, bytes, masked, l, to) == bracket_spans(ls, bytes, masked, l, from),
    decreases to - from,
{
    if from < to {
        lemma_masked_run(ls, bytes, masked, from, to - 1);
        assert(masked_at(masked, to - 1));
        assert forall|l: int| bracket_spans(ls, bytes, masked, l, to) == bracket_spans(ls, bytes, masked, l, from) by {
            assert(bracket_spans(ls, bytes, masked, l, to) =~= bracket_spans(ls, bytes, masked, l, to - 1));
        }
    }
}

proof fn lemma_depth_bound(bytes: Seq<u8>, masked: Seq<(usize, usize)>, i: int)
    ensures
        i >= 0 ==> -i <= depth_before(bytes, masked, i) <= i,
    decreases i,
{
    if i > 0 {
        lemma_depth_bound(bytes, masked, i - 1);
    }
}

/// Ranges ordered by their start.
pub open spec fn sorted_by_start(masked: Seq<(usize, usize)>) -> bool {
    forall|a: int, b: int| 0 <= a <= b < masked.len() ==> masked[a].0 <= masked[b].0
}

/// Scan `bytes` for brackets outside the masked (string/comment) ranges and
/// add one `Bracket(depth)` span per bracket, depth shared across `()`, `[]`
/// and `{}`.
pub fn augment_with_brackets(
    bytes: &[u8],
    masked: &[(usize, usize)],
    line_starts: &[usize],
    out: &mut [Vec<LineSpan>],
)
    requires
        starts_ok(line_starts@, bytes@.len() as int),
        bytes@.len() < i64::MAX,
        bytes@.len() < usize::MAX,
        sorted_by_start(masked@),
    ensures
        appended(
            old(out)@,
            final(out)@,
            |l: int| bracket_spans(line_starts@, bytes@, masked@, l, bytes@.len() as int),
        ),
{
    let mut depth: i64 = 0;
    let mut mi: usize = 0;
    let mut i: usize = 0;
    proof {
        assert forall|l: int| 0 <= l < out@.len() implies (#[trigger] out@[l])@ == old(out)@[l]@
            + bracket_spans(line_starts@, bytes@, masked@, l, 0) by {
            assert(out@[l]@ =~= old(out)@[l]@ + Seq::<LineSpan>::empty());
        }
    }
    while i < bytes.len()
        invariant
            starts_ok(line_starts@, bytes@.len() as int),
            bytes@.len() < i64::MAX,
            bytes@.len() < usize::MAX,
            sorted_by_start(masked@),
            mi <= masked.len(),
            forall|k: int| 0 <= k < mi ==> masked@[k].1 <= i,
            depth == depth_before(bytes@, masked@, min_int(i as int, bytes@.len() as int)),
            -min_int(i as int, bytes@.len() as int) <= depth <= min_int(
                i as int,
                bytes@.len() as int,
            ),
            appended(
                old(out)@,
                out@,
                |l: int| bracket_spans(line_starts@, bytes@, masked@, l, min_int(i as int, bytes@.len() as int)),
            ),
        ensures
            i >= bytes.len(),
        decreases bytes.len() + masked.len() - i - mi, masked.len() - mi,
    {
        while mi < masked.len() && masked[mi].1 <= i
            invariant
                mi <= masked.len(),
                forall|k: int| 0 <= k < mi ==> masked@[k].1 <= i,
            decreases masked.len() - mi,
        {
            mi += 1;
        }
        if mi < masked.len() && i >= masked[mi].0 && i < masked[mi].1 {
            let next = masked[mi].1;
            proof {
                let stop = min_int(next as int, bytes@.len() as int);
                assert forall|x: int| i <= x < stop implies masked_at(masked@, x) by {
                    assert(masked@[mi as int].0 <= x < masked@[mi as int].1);
                }
                lemma_masked_run(line_starts@, bytes@, masked@, i as int, stop);
                assert forall|x: int| i <= x < next implies masked_at(masked@, x) by {
                    assert(masked@[mi as int].0 <= x < masked@[mi as int].1);
                }
                if next <= bytes.len() {
                    lemma_masked_run(line_starts@, bytes@, masked@, i as int, next as int);
                }
                assert(depth_before(bytes@, masked@, stop) == depth);
                lemma_depth_bound(bytes@, masked@, stop);
            }
            i = next;
            if i >= bytes.len() {
                break;
            }
            continue;
        }
        proof {
            assert(!masked_at(masked@, i as int)) by {
                if masked_at(masked@, i as int) {
                    let k = choose|k: int|
                        0 <= k < masked@.len() && masked@[k].0 <= i < (#[trigger] masked@[k]).1;
                    if k < mi {
                    } else {
                        assert(masked@[mi as int].0 <= masked@[k].0);
                    }
                }
            }
        }
        let b = bytes[i];
        let ghost before = out@;
        proof {
            lemma_depth_bound(bytes@, masked@, i + 1);
        }
        if b == 40u8 || b == 91u8 || b == 123u8 {
            let d = ((if depth >= 0 {
                depth
            } else {
                0
            }) as usize) % BRACKET_PALETTE_LEN;
            emit_bracket(i, d as u8, line_starts, bytes, out);
            depth += 1;
        } else if b == 41u8 || b == 93u8 || b == 125u8 {
            depth -= 1;
            let d = ((if depth >= 0 {
                depth
            } else {
                0
            }) as usize) % BRACKET_PALETTE_LEN;
            emit_bracket(i, d as u8, line_starts, bytes, out);
        }
        proof {
            assert forall|l: int| 0 <= l < out@.len() implies (#[trigger] out@[l])@ == old(out)@[l]@
                + bracket_spans(line_starts@, bytes@, masked@, l, i + 1) by {
                assert(before[l]@ == old(out)@[l]@ + bracket_spans(line_starts@, bytes@, masked@, l, i as int));
            }
        }
        i += 1;
    }
    proof {
        assert(min_int(i as int, bytes@.len() as int) == bytes@.len());
    }
}

// ---------------------------------------------------------------------------
// Languages
// ---------------------------------------------------------------------------

/// A language the highlighter knows.
#[derive(Clone, Copy, Debug, PartialEq, Eq, Structural)]
pub enum Lang {
    Cpp,
    CSharp,
    Hlsl,
    Rust,
}

pub open spec fn ascii_lower(c: char) -> char {
    if 'A' <= c && c <= 'Z' {
        ((c as u8) + 32u8) as char
    } else {
        c
    }
}

/// The string with ASCII letters lower-cased (std's `str::to_ascii_lowercase`).
pub open spec fn ascii_lowercase(s: Seq<char>) -> Seq<char> {
    s.map_values(|c: char| ascii_lower(c))
}

/// The language of a (lower-case) file extension.
pub open spec fn lang_of_ext(e: Seq<char>) -> Option<Lang> {
    if e == "c"@ || e == "h"@ || e == "cpp"@ || e == "cxx"@ || e == "cc"@ || e == "hpp"@ || e
        == "hh"@ || e == "hxx"@ || e == "ipp"@ || e == "tpp"@ || e == "inl"@ {
        Some(Lang::Cpp)
    } else if e == "cs"@ {
        Some(Lang::CSharp)
    } else if e == "hlsl"@ || e == "hlsli"@ || e == "fx"@ || e == "fxh"@ || e == "vsh"@ || e
        == "psh"@ || e == "csh"@ || e == "shader"@ || e == "compute"@ {
        Some(Lang::Hlsl)
    } else if e == "rs"@ {
        Some(Lang::Rust)
    } else {
        None
    }
}

fn lower_chars(s: &str) -> (v: Vec<char>)
    ensures
        v@ == ascii_lowercase(s@),
{
    let cs = chars_of(s);
    let mut v: Vec<char> = Vec::new();
    let mut i: usize = 0;
    while i < cs.len()
        invariant
            i <= cs.len(),
            cs@ == s@,
            v@ == ascii_lowercase(s@).take(i as int),
        decreases cs.len() - i,
    {
        let c = cs[i];
        let l = if 'A' <= c && c <= 'Z' {
            ((c as u8) + 32u8) as char
        } else {
            c
        };
        v.push(l);
        i += 1;
        proof {
            assert(v@ =~= ascii_lowercase(s@).take(i as int));
        }
    }
    proof {
        assert(ascii_lowercase(s@).take(cs.len() as int) =~= ascii_lowercase(s@));
    }
    v
}

pub(crate) fn is_lit(v: &Vec<char>, lit: &str) -> (r: bool)
    ensures
        r == (v@ == lit@),
{
    let w = chars_of(lit);
    chars_eq(v, &w)
}

/// The extension literals are different texts.
proof fn lemma_extension_literals_differ()
    ensures
        "h"@ != "c"@,
        "cpp"@ != "c"@,
        "cpp"@ != "h"@,
        "cxx"@ != "c"@,
        "cxx"@ != "h"@,
        "cxx"@ != "cpp"@,
        "cc"@ != "c"@,
        "cc"@ != "h"@,
        "cc"@ != "cpp"@,
        "cc"@ != "cxx"@,
        "hpp"@ != "c"@,
        "hpp"@ != "h"@,
        "hpp"@ != "cpp"@,
        "hpp"@ != "cxx"@,
        "hpp"@ != "cc"@,
        "hh"@ != "c"@,
        "hh"@ != "h"@,
        "hh"@ != "cpp"@,
        "hh"@ != "cxx"@,
        "hh"@ != "cc"@,
        "hh"@ != "hpp"@,
        "hxx"@ != "c"@,
        "hxx"@ != "h"@,
        "hxx"@ != "cpp"@,
        "hxx"@ != "cxx"@,
        "hxx"@ != "cc"@,
        "hxx"@ != "hpp"@,
        "hxx"@ != "hh"@,
        "ipp"@ != "c"@,
        "ipp"@ != "h"@,
        "ipp"@ != "cpp"@,
        "ipp"@ != "cxx"@,
        "ipp"@ != "cc"@,
        "ipp"@ != "hpp"@,
        "ipp"@ != "hh"@,
        "ipp"@ != "hxx"@,
        "tpp"@ != "c"@,
        "tpp"@ != "h"@,
        "tpp"@ != "cpp"@,
        "tpp"@ != "cxx"@,
        "tpp"@ != "cc"@,
        "tpp"@ != "hpp"@,
        "tpp"@ != "hh"@,
        "tpp"@ != "hxx"@,
        "tpp"@ != "ipp"@,
        "inl"@ != "c"@,
        "inl"@ != "h"@,
        "inl"@ != "cpp"@,
        "inl"@ != "cxx"@,
        "inl"@ != "cc"@,
        "inl"@ != "hpp"@,
        "inl"@ != "hh"@,
        "inl"@ != "hxx"@,
        "inl"@ != "ipp"@,
        "inl"@ != "tpp"@,
        "cs"@ != "c"@,
        "cs"@ != "h"@,
        "cs"@ != "cpp"@,
        "cs"@ != "cxx"@,
        "cs"@ != "cc"@,
        "cs"@ != "hpp"@,
        "cs"@ != "hh"@,
        "cs"@ != "hxx"@,
        "cs"@ != "ipp"@,
        "cs"@ != "tpp"@,
        "cs"@ != "inl"@,
        "hlsl"@ != "c"@,
        "hlsl"@ != "h"@,
        "hlsl"@ != "cpp"@,
        "hlsl"@ != "cxx"@,
        "hlsl"@ != "cc"@,
        "hlsl"@ != "hpp"@,
        "hlsl"@ != "hh"@,
        "hlsl"@ != "hxx"@,
        "hlsl"@ != "ipp"@,
        "hlsl"@ != "tpp"@,
        "hlsl"@ != "inl"@,
        "hlsl"@ != "cs"@,
        "hlsli"@ != "c"@,
        "hlsli"@ != "h"@,
        "hlsli"@ != "cpp"@,
        "hlsli"@ != "cxx"@,
        "hlsli"@ != "cc"@,
        "hlsli"@ != "hpp"@,
        "hlsli"@ != "hh"@,
        "hlsli"@ != "hxx"@,
        "hlsli"@ != "ipp"@,
        "hlsli"@ != "tpp"@,
        "hlsli"@ != "inl"@,
        "hlsli"@ != "cs"@,
        "hlsli"@ != "hlsl"@,
        "fx"@ != "c"@,
        "fx"@ != "h"@,
        "fx"@ != "cpp"@,
        "fx"@ != "cxx"@,
        "fx"@ != "cc"@,
        "fx"@ != "hpp"@,
        "fx"@ != "hh"@,
        "fx"@ != "hxx"@,
        "fx"@ != "ipp"@,
        "fx"@ != "tpp"@,
        "fx"@ != "inl"@,
        "fx"@ != "cs"@,
        "fx"@ != "hlsl"@,
        "fx"@ != "hlsli"@,
        "fxh"@ != "c"@,
        "fxh"@ != "h"@,
        "fxh"@ != "cpp"@,
        "fxh"@ != "cxx"@,
        "fxh"@ != "cc"@,
        "fxh"@ != "hpp"@,
        "fxh"@ != "hh"@,
        "fxh"@ != "hxx"@,
        "fxh"@ != "ipp"@,
        "fxh"@ != "tpp"@,
        "fxh"@ != "inl"@,
        "fxh"@ != "cs"@,
        "fxh"@ != "hlsl"@,
        "fxh"@ != "hlsli"@,
        "fxh"@ != "fx"@,
        "vsh"@ != "c"@,
        "vsh"@ != "h"@,
        "vsh"@ != "cpp"@,
        "vsh"@ != "cxx"@,
        "vsh"@ != "cc"@,
        "vsh"@ != "hpp"@,
        "vsh"@ != "hh"@,
        "vsh"@ != "hxx"@,
        "vsh"@ != "ipp"@,
        "vsh"@ != "tpp"@,
        "vsh"@ != "inl"@,
        "vsh"@ != "cs"@,
        "vsh"@ != "hlsl"@,
        "vsh"@ != "hlsli"@,
        "vsh"@ != "fx"@,
        "vsh"@ != "fxh"@,
        "psh"@ != "c"@,
        "psh"@ != "h"@,
        "psh"@ != "cpp"@,
        "psh"@ != "cxx"@,
        "psh"@ != "cc"@,
        "psh"@ != "hpp"@,
        "psh"@ != "hh"@,
        "psh"@ != "hxx"@,
        "psh"@ != "ipp"@,
        "psh"@ != "tpp"@,
        "psh"@ != "inl"@,
        "psh"@ != "cs"@,
        "psh"@ != "hlsl"@,
        "psh"@ != "hlsli"@,
        "psh"@ != "fx"@,
        "psh"@ != "fxh"@,
        "psh"@ != "vsh"@,
        "csh"@ != "c"@,
        "csh"@ != "h"@,
        "csh"@ != "cpp"@,
        "csh"@ != "cxx"@,
        "csh"@ != "cc"@,
        "csh"@ != "hpp"@,
        "csh"@ != "hh"@,
        "csh"@ != "hxx"@,
        "csh"@ != "ipp"@,
        "csh"@ != "tpp"@,
        "csh"@ != "inl"@,
        "csh"@ != "cs"@,
        "csh"@ != "hlsl"@,
        "csh"@ != "hlsli"@,
        "csh"@ != "fx"@,
        "csh"@ != "fxh"@,
        "csh"@ != "vsh"@,
        "csh"@ != "psh"@,
        "shader"@ != "c"@,
        "shader"@ != "h"@,
        "shader"@ != "cpp"@,
        "shader"@ != "cxx"@,
        "shader"@ != "cc"@,
        "shader"@ != "hpp"@,
        "shader"@ != "hh"@,
        "shader"@ != "hxx"@,
        "shader"@ != "ipp"@,
        "shader"@ != "tpp"@,
        "shader"@ != "inl"@,
        "shader"@ != "cs"@,
        "shader"@ != "hlsl"@,
        "shader"@ != "hlsli"@,
        "shader"@ != "fx"@,
        "shader"@ != "fxh"@,
        "shader"@ != "vsh"@,
        "shader"@ != "psh"@,
        "shader"@ != "csh"@,
        "compute"@ != "c"@,
        "compute"@ != "h"@,
        "compute"@ != "cpp"@,
        "compute"@ != "cxx"@,
        "compute"@ != "cc"@,
        "compute"@ != "hpp"@,
        "compute"@ != "hh"@,
        "compute"@ != "hxx"@,
        "compute"@ != "ipp"@,
        "compute"@ != "tpp"@,
        "compute"@ != "inl"@,
        "compute"@ != "cs"@,
        "compute"@ != "hlsl"@,
        "compute"@ != "hlsli"@,
        "compute"@ != "fx"@,
        "compute"@ != "fxh"@,
        "compute"@ != "vsh"@,
        "compute"@ != "psh"@,
        "compute"@ != "csh"@,
        "compute"@ != "shader"@,
        "rs"@ != "c"@,
        "rs"@ != "h"@,
        "rs"@ != "cpp"@,
        "rs"@ != "cxx"@,
        "rs"@ != "cc"@,
        "rs"@ != "hpp"@,
        "rs"@ != "hh"@,
        "rs"@ != "hxx"@,
        "rs"@ != "ipp"@,
        "rs"@ != "tpp"@,
        "rs"@ != "inl"@,
        "rs"@ != "cs"@,
        "rs"@ != "hlsl"@,
        "rs"@ != "hlsli"@,
        "rs"@ != "fx"@,
        "rs"@ != "fxh"@,
        "rs"@ != "vsh"@,
        "rs"@ != "psh"@,
        "rs"@ != "csh"@,
        "rs"@ != "shader"@,
        "rs"@ != "compute"@,
{
    reveal_strlit("c");
    reveal_strlit("h");
    reveal_strlit("cpp");
    reveal_strlit("cxx");
    reveal_strlit("cc");
    reveal_strlit("hpp");
    reveal_strlit("hh");
    reveal_strlit("hxx");
    reveal_strlit("ipp");
    reveal_strlit("tpp");
    reveal_strlit("inl");
    reveal_strlit("cs");
    reveal_strlit("hlsl");
    reveal_strlit("hlsli");
    reveal_strlit("fx");
    reveal_strlit("fxh");
    reveal_strlit("vsh");
    reveal_strlit("psh");
    reveal_strlit("csh");
    reveal_strlit("shader");
    reveal_strlit("compute");
    reveal_strlit("rs");
    assert("h"@[0] != "c"@[0]);
    assert("cpp"@.len() != "c"@.len());
    assert("cpp"@.len() != "h"@.len());
    assert("cxx"@.len() != "c"@.len());
    assert("cxx"@.len() != "h"@.len());
    assert("cxx"@[1] != "cpp"@[1]);
    assert("cc"@.len() != "c"@.len());
    assert("cc"@.len() != "h"@.len());
    assert("cc"@.len() != "cpp"@.len());
    assert("cc"@.len() != "cxx"@.len());
    assert("hpp"@.len() != "c"@.len());
    assert("hpp"@.len() != "h"@.len());
    assert("hpp"@[0] != "cpp"@[0]);
    assert("hpp"@[0] != "cxx"@[0]);
    assert("hpp"@.len() != "cc"@.len());
    assert("hh"@.len() != "c"@.len());
    assert("hh"@.len() != "h"@.len());
    assert("hh"@.len() != "cpp"@.len());
    assert("hh"@.len() != "cxx"@.len());
    assert("hh"@[0] != "cc"@[0]);
    assert("hh"@.len() != "hpp"@.len());
    assert("hxx"@.len() != "c"@.len());
    assert("hxx"@.len() != "h"@.len());
    assert("hxx"@[0] != "cpp"@[0]);
    assert("hxx"@[0] != "cxx"@[0]);
    assert("hxx"@.len() != "cc"@.len());
    assert("hxx"@[1] != "hpp"@[1]);
    assert("hxx"@.len() != "hh"@.len());
    assert("ipp"@.len() != "c"@.len());
    assert("ipp"@.len() != "h"@.len());
    assert("ipp"@[0] != "cpp"@[0]);
    assert("ipp"@[0] != "cxx"@[0]);
    assert("ipp"@.len() != "cc"@.len());
    assert("ipp"@[0] != "hpp"@[0]);
    assert("ipp"@.len() != "hh"@.len());
    assert("ipp"@[0] != "hxx"@[0]);
    assert("tpp"@.len() != "c"@.len());
    assert("tpp"@.len() != "h"@.len());
    assert("tpp"@[0] != "cpp"@[0]);
    assert("tpp"@[0] != "cxx"@[0]);
    assert("tpp"@.len() != "cc"@.len());
    assert("tpp"@[0] != "hpp"@[0]);
    assert("tpp"@.len() != "hh"@.len());
    assert("tpp"@[0] != "hxx"@[0]);
    assert("tpp"@[0] != "ipp"@[0]);
    assert("inl"@.len() != "c"@.len());
    assert("inl"@.len() != "h"@.len());
    assert("inl"@[0] != "cpp"@[0]);
    assert("inl"@[0] != "cxx"@[0]);
    assert("inl"@.len() != "cc"@.len());
    assert("inl"@[0] != "hpp"@[0]);
    assert("inl"@.len() != "hh"@.len());
    assert("inl"@[0] != "hxx"@[0]);
    assert("inl"@[1] != "ipp"@[1]);
    assert("inl"@[0] != "tpp"@[0]);
    assert("cs"@.len() != "c"@.len());
    assert("cs"@.len() != "h"@.len());
    assert("cs"@.len() != "cpp"@.len());
    assert("cs"@.len() != "cxx"@.len());
    assert("cs"@[1] != "cc"@[1]);
    assert("cs"@.len() != "hpp"@.len());
    assert("cs"@[0] != "hh"@[0]);
    assert("cs"@.len() != "hxx"@.len());
    assert("cs"@.len() != "ipp"@.len());
    assert("cs"@.len() != "tpp"@.len());
    assert("cs"@.len() != "inl"@.len());
    assert("hlsl"@.len() != "c"@.len());
    assert("hlsl"@.len() != "h"@.len());
    assert("hlsl"@.len() != "cpp"@.len());
    assert("hlsl"@.len() != "cxx"@.len());
    assert("hlsl"@.len() != "cc"@.len());
    assert("hlsl"@.len() != "hpp"@.len());
    assert("hlsl"@.len() != "hh"@.len());
    assert("hlsl"@.len() != "hxx"@.len());
    assert("hlsl"@.len() != "ipp"@.len());
    assert("hlsl"@.len() != "tpp"@.len());
    assert("hlsl"@.len() != "inl"@.len());
    assert("hlsl"@.len() != "cs"@.len());
    assert("hlsli"@.len() != "c"@.len());
    assert("hlsli"@.len() != "h"@.len());
    assert("hlsli"@.len() != "cpp"@.len());
    assert("hlsli"@.len() != "cxx"@.len());
    assert("hlsli"@.len() != "cc"@.len());
    assert("hlsli"@.len() != "hpp"@.len());
    assert("hlsli"@.len() != "hh"@.len());
    assert("hlsli"@.len() != "hxx"@.len());
    assert("hlsli"@.len() != "ipp"@.len());
    assert("hlsli"@.len() != "tpp"@.len());
    assert("hlsli"@.len() != "inl"@.len());
    assert("hlsli"@.len() != "cs"@.len());
    assert("hlsli"@.len() != "hlsl"@.len());
    assert("fx"@.len() != "c"@.len());
    assert("fx"@.len() != "h"@.len());
    assert("fx"@.len() != "cpp"@.len());
    assert("fx"@.len() != "cxx"@.len());
    assert("fx"@[0] != "cc"@[0]);
    assert("fx"@.len() != "hpp"@.len());
    assert("fx"@[0] != "hh"@[0]);
    assert("fx"@.len() != "hxx"@.len());
    assert("fx"@.len() != "ipp"@.len());
    assert("fx"@.len() != "tpp"@.len());
    assert("fx"@.len() != "inl"@.len());
    assert("fx"@[0] != "cs"@[0]);
    assert("fx"@.len() != "hlsl"@.len());
    assert("fx"@.len() != "hlsli"@.len());
    assert("fxh"@.len() != "c"@.len());
    assert("fxh"@.len() != "h"@.len());
    assert("fxh"@[0] != "cpp"@[0]);
    assert("fxh"@[0] != "cxx"@[0]);
    assert("fxh"@.len() != "cc"@.len());
    assert("fxh"@[0] != "hpp"@[0]);
    assert("fxh"@.len() != "hh"@.len());
    assert("fxh"@[0] != "hxx"@[0]);
    assert("fxh"@[0] != "ipp"@[0]);
    assert("fxh"@[0] != "tpp"@[0]);
    assert("fxh"@[0] != "inl"@[0]);
    assert("fxh"@.len() != "cs"@.len());
    assert("fxh"@.len() != "hlsl"@.len());
    assert("fxh"@.len() != "hlsli"@.len());
    assert("fxh"@.len() != "fx"@.len());
    assert("vsh"@.len() != "c"@.len());
    assert("vsh"@.len() != "h"@.len());
    assert("vsh"@[0] != "cpp"@[0]);
    assert("vsh"@[0] != "cxx"@[0]);
    assert("vsh"@.len() != "cc"@.len());
    assert("vsh"@[0] != "hpp"@[0]);
    assert("vsh"@.len() != "hh"@.len());
    assert("vsh"@[0] != "hxx"@[0]);
    assert("vsh"@[0] != "ipp"@[0]);
    assert("vsh"@[0] != "tpp"@[0]);
    assert("vsh"@[0] != "inl"@[0]);
    assert("vsh"@.len() != "cs"@.len());
    assert("vsh"@.len() != "hlsl"@.len());
    assert("vsh"@.len() != "hlsli"@.len());
    assert("vsh"@.len() != "fx"@.len());
    assert("vsh"@[0] != "fxh"@[0]);
    assert("psh"@.len() != "c"@.len());
    assert("psh"@.len() != "h"@.len());
    assert("psh"@[0] != "cpp"@[0]);
    assert("psh"@[0] != "cxx"@[0]);
    assert("psh"@.len() != "cc"@.len());
    assert("psh"@[0] != "hpp"@[0]);
    assert("psh"@.len() != "hh"@.len());
    assert("psh"@[0] != "hxx"@[0]);
    assert("psh"@[0] != "ipp"@[0]);
    assert("psh"@[0] != "tpp"@[0]);
    assert("psh"@[0] != "inl"@[0]);
    assert("psh"@.len() != "cs"@.len());
    assert("psh"@.len() != "hlsl"@.len());
    assert("psh"@.len() != "hlsli"@.len());
    assert("psh"@.len() != "fx"@.len());
    assert("psh"@[0] != "fxh"@[0]);
    assert("psh"@[0] != "vsh"@[0]);
    assert("csh"@.len() != "c"@.len());
    assert("csh"@.len() != "h"@.len());
    assert("csh"@[1] != "cpp"@[1]);
    assert("csh"@[1] != "cxx"@[1]);
    assert("csh"@.len() != "cc"@.len());
    assert("csh"@[0] != "hpp"@[0]);
    assert("csh"@.len() != "hh"@.len());
    assert("csh"@[0] != "hxx"@[0]);
    assert("csh"@[0] != "ipp"@[0]);
    assert("csh"@[0] != "tpp"@[0]);
    assert("csh"@[0] != "inl"@[0]);
    assert("csh"@.len() != "cs"@.len());
    assert("csh"@.len() != "hlsl"@.len());
    assert("csh"@.len() != "hlsli"@.len());
    assert("csh"@.len() != "fx"@.len());
    assert("csh"@[0] != "fxh"@[0]);
    assert("csh"@[0] != "vsh"@[0]);
    assert("csh"@[0] != "psh"@[0]);
    assert("shader"@.len() != "c"@.len());
    assert("shader"@.len() != "h"@.len());
    assert("shader"@.len() != "cpp"@.len());
    assert("shader"@.len() != "cxx"@.len());
    assert("shader"@.len() != "cc"@.len());
    assert("shader"@.len() != "hpp"@.len());
    assert("shader"@.len() != "hh"@.len());
    assert("shader"@.len() != "hxx"@.len());
    assert("shader"@.len() != "ipp"@.len());
    assert("shader"@.len() != "tpp"@.len());
    assert("shader"@.len() != "inl"@.len());
    assert("shader"@.len() != "cs"@.len());
    assert("shader"@.len() != "hlsl"@.len());
    assert("shader"@.len() != "hlsli"@.len());
    assert("shader"@.len() != "fx"@.len());
    assert("shader"@.len() != "fxh"@.len());
    assert("shader"@.len() != "vsh"@.len());
    assert("shader"@.len() != "psh"@.len());
    assert("shader"@.len() != "csh"@.len());
    assert("compute"@.len() != "c"@.len());
    assert("compute"@.len() != "h"@.len());
    assert("compute"@.len() != "cpp"@.len());
    assert("compute"@.len() != "cxx"@.len());
    assert("compute"@.len() != "cc"@.len());
    assert("compute"@.len() != "hpp"@.len());
    assert("compute"@.len() != "hh"@.len());
    assert("compute"@.len() != "hxx"@.len());
    assert("compute"@.len() != "ipp"@.len());
    assert("compute"@.len() != "tpp"@.len());
    assert("compute"@.len() != "inl"@.len());
    assert("compute"@.len() != "cs"@.len());
    assert("compute"@.len() != "hlsl"@.len());
    assert("compute"@.len() != "hlsli"@.len());
    assert("compute"@.len() != "fx"@.len());
    assert("compute"@.len() != "fxh"@.len());
    assert("compute"@.len() != "vsh"@.len());
    assert("compute"@.len() != "psh"@.len());
    assert("compute"@.len() != "csh"@.len());
    assert("compute"@.len() != "shader"@.len());
    assert("rs"@.len() != "c"@.len());
    assert("rs"@.len() != "h"@.len());
    assert("rs"@.len() != "cpp"@.len());
    assert("rs"@.len() != "cxx"@.len());
    assert("rs"@[0] != "cc"@[0]);
    assert("rs"@.len() != "hpp"@.len());
    assert("rs"@[0] != "hh"@[0]);
    assert("rs"@.len() != "hxx"@.len());
    assert("rs"@.len() != "ipp"@.len());
    assert("rs"@.len() != "tpp"@.len());
    assert("rs"@.len() != "inl"@.len());
    assert("rs"@[0] != "cs"@[0]);
    assert("rs"@.len() != "hlsl"@.len());
    assert("rs"@.len() != "hlsli"@.len());
    assert("rs"@[0] != "fx"@[0]);
    assert("rs"@.len() != "fxh"@.len());
    assert("rs"@.len() != "vsh"@.len());
    assert("rs"@.len() != "psh"@.len());
    assert("rs"@.len() != "csh"@.len());
    assert("rs"@.len() != "shader"@.len());
    assert("rs"@.len() != "compute"@.len());
}

/// The language of a file extension, compared ASCII-case-insensitively;
/// `None` for an unknown extension.
pub fn lang_for_extension(ext: &str) -> (r: Option<Lang>)
    ensures
        r == lang_of_ext(ascii_lowercase(ext@)),
        ({
            let e = ascii_lowercase(ext@);
            &&& (e == "c"@ || e == "h"@ || e == "cpp"@ || e == "cxx"@ || e == "cc"@ || e == "hpp"@
                || e == "hh"@ || e == "hxx"@ || e == "ipp"@ || e == "tpp"@ || e == "inl"@) ==> r
                == Some(Lang::Cpp)
            &&& e == "cs"@ ==> r == Some(Lang::CSharp)
            &&& (e == "hlsl"@ || e == "hlsli"@ || e == "fx"@ || e == "fxh"@ || e == "vsh"@ || e
                == "psh"@ || e == "csh"@ || e == "shader"@ || e == "compute"@) ==> r == Some(
                Lang::Hlsl,
            )
            &&& e == "rs"@ ==> r == Some(Lang::Rust)
        }),
{
    proof {
        lemma_extension_literals_differ();
    }
    let e = lower_chars(ext);
    if is_lit(&e, "c") || is_lit(&e, "h") || is_lit(&e, "cpp") || is_lit(&e, "cxx") || is_lit(
        &e,
        "cc",
    ) || is_lit(&e, "hpp") || is_lit(&e, "hh") || is_lit(&e, "hxx") || is_lit(&e, "ipp")
        || is_lit(&e, "tpp") || is_lit(&e, "inl") {
        Some(Lang::Cpp)
    } else if is_lit(&e, "cs") {
        Some(Lang::CSharp)
    } else if is_lit(&e, "hlsl") || is_lit(&e, "hlsli") || is_lit(&e, "fx") || is_lit(&e, "fxh")
        || is_lit(&e, "vsh") || is_lit(&e, "psh") || is_lit(&e, "csh") || is_lit(&e, "shader")
        || is_lit(&e, "compute") {
        Some(Lang::Hlsl)
    } else if is_lit(&e, "rs") {
        Some(Lang::Rust)
    } else {
        None
    }
}

/// Whether `c` ends a path component or a drive on some platform: `'/'`,
/// `'\\'` or `':'`.
pub open spec fn is_boundary_char(c: char) -> bool {
    c == '/' || c == '\\' || c == ':'
}

/// Index of the last boundary character among the first `n` characters of
/// `p`, or -1.
pub open spec fn last_boundary(p: Seq<char>, n: int) -> int
    decreases n,
{
    if n <= 0 {
        -1
    } else if is_boundary_char(p[n - 1]) {
        n - 1
    } else {
        last_boundary(p, n - 1)
    }
}

/// Whether `p` starts with two separators (`'/'` or `'\\'`), the start of a
/// network share or device path on some platforms.
pub open spec fn starts_with_two_separators(p: Seq<char>) -> bool {
    p.len() >= 2 && (p[0] == '/' || p[0] == '\\') && (p[1] == '/' || p[1] == '\\')
}

/// The extension every platform agrees on: when the path does not start
/// with two separators and its last `'.'` comes after every `'/'`, `'\\'`
/// and `':'`, is not the first character after the last of them and is not
/// the path's last character, what follows that `'.'`.
pub open spec fn common_extension(p: Seq<char>) -> Option<Seq<char>> {
    let k = last_boundary(p, p.len() as int);
    let d = last_index_of(p, '.', p.len() as int);
    if !starts_with_two_separators(p) && k + 1 < d && d < p.len() - 1 {
        Some(p.subrange(d + 1, p.len() as int))
    } else {
        None
    }
}

/// A bare file name (no `'/'`, `'\\'` or `':'`) with no `'.'` after its first
/// character: it has no extension on any platform.
pub open spec fn bare_name_without_extension(p: Seq<char>) -> bool {
    &&& last_boundary(p, p.len() as int) == -1
    &&& last_index_of(p, '.', p.len() as int) <= 0
}

/// Calls `std::path::Path::extension` on `path` and keeps the extension when
/// it is UTF-8. Which component is the file name follows the platform's
/// path syntax (on Windows `'\\'` separates too, a leading `x:` is a drive
/// and a leading pair of separators starts a share or device prefix);
/// stated are what holds on every platform: an extension is a piece of the
/// path right after a `'.'` and holds no `'.'` (it follows the last `'.'` of
/// the file name); when `common_extension` gives one, that is the
/// extension; a bare name with no `'.'` after its first character has none.
#[verifier::external_body]
fn path_extension(path: &str) -> (r: Option<String>)
    ensures
        r matches Some(e) ==> !e@.contains('.') && exists|head: Seq<char>, tail: Seq<char>|
            path@ == head + seq!['.'] + e@ + tail,
        common_extension(path@) is Some ==> r is Some && r.unwrap()@ == common_extension(
            path@,
        ).unwrap(),
        bare_name_without_extension(path@) ==> r is None,
{
    match std::path::Path::new(path).extension() {
        Some(e) => match e.to_str() {
            Some(t) => Some(t.to_string()),
            None => None,
        },
        None => None,
    }
}

/// Language of a file by its extension; `None` when it has none or it is
/// unknown, in which case the text is left uncolored.
pub fn lang_for_path(path: &str) -> (r: Option<Lang>)
    ensures
        r matches Some(l) ==> exists|head: Seq<char>, e: Seq<char>, tail: Seq<char>|
            path@ == head + seq!['.'] + e + tail && !e.contains('.') && lang_of_ext(
                ascii_lowercase(e),
            ) == Some(l),
        common_extension(path@) matches Some(e) ==> r == lang_of_ext(ascii_lowercase(e)),
        bare_name_without_extension(path@) ==> r is None,
{
    match path_extension(path) {
        Some(e) => {
            let r = lang_for_extension(e.as_str());
            proof {
                if r is Some {
                    let (head, tail) = choose|head: Seq<char>, tail: Seq<char>|
                        path@ == head + seq!['.'] + e@ + tail;
                    assert(path@ == head + seq!['.'] + e@ + tail && !e@.contains('.')
                        && lang_of_ext(ascii_lowercase(e@)) == r);
                }
            }
            r
        },
        None => None,
    }
}

/// Every extension of the C and C++ family (`c`, `h`, `cpp`, `cxx`, `cc`,
/// `hpp`, `hh`, `hxx`, `ipp`, `tpp`, `inl`) selects C++, `cs` selects C#,
/// the shader extensions (`hlsl`, `hlsli`, `fx`, `fxh`, `vsh`, `psh`, `csh`,
/// `shader`, `compute`) select HLSL and `rs` selects Rust, in any ASCII
/// case; any other extension selects nothing.
pub proof fn lemma_extension_languages(ext: Seq<char>)
    ensures
        ({
            let e = ascii_lowercase(ext);
            &&& (e == "c"@ || e == "h"@ || e == "cpp"@ || e == "cxx"@ || e == "cc"@ || e == "hpp"@
                || e == "hh"@ || e == "hxx"@ || e == "ipp"@ || e == "tpp"@ || e == "inl"@)
                ==> lang_of_ext(e) == Some(Lang::Cpp)
            &&& e == "cs"@ ==> lang_of_ext(e) == Some(Lang::CSharp)
            &&& (e == "hlsl"@ || e == "hlsli"@ || e == "fx"@ || e == "fxh"@ || e == "vsh"@ || e
                == "psh"@ || e == "csh"@ || e == "shader"@ || e == "compute"@) ==> lang_of_ext(e)
                == Some(Lang::Hlsl)
            &&& e == "rs"@ ==> lang_of_ext(e) == Some(Lang::Rust)
            &&& !(e == "c"@ || e == "h"@ || e == "cpp"@ || e == "cxx"@ || e == "cc"@ || e == "hpp"@
                || e == "hh"@ || e == "hxx"@ || e == "ipp"@ || e == "tpp"@ || e == "inl"@ || e
                == "cs"@ || e == "hlsl"@ || e == "hlsli"@ || e == "fx"@ || e == "fxh"@ || e
                == "vsh"@ || e == "psh"@ || e == "csh"@ || e == "shader"@ || e == "compute"@ || e
                == "rs"@) ==> lang_of_ext(e) is None
        }),
{
    lemma_extension_literals_differ();
}

} // verus!
