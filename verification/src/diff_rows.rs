//! The rows one side of a two-way diff view shows: one row per line, with
//! character-level highlights on paired changed lines, grouped by hunk.
//! Rows are laid out one per row height, so a row's index is its position.

use vstd::prelude::*;

use crate::char_diff::{
    char_diff, is_char_diff, lemma_is_char_diff, left_segments, right_segments, runs_view,
    segments_view, side_segments, CharKind, Segment,
};
use crate::diff::{Anchor, DiffOp, Hunk, LineNo};
use crate::selection::{hunk_is_change, is_change_hunk, plain, Side};
use crate::text::string_of_str;

verus! {

/// How a row is shaded.
#[derive(Clone, Copy, Debug, PartialEq, Eq, Structural)]
pub enum RowClass {
    Equal,
    Delete,
    Insert,
}

/// One displayed line of a pane.
pub struct Row {
    /// The line's 1-based number on this side.
    pub line_no: Option<u32>,
    pub segments: Vec<Segment>,
    pub cls: RowClass,
    /// The hunk the row belongs to.
    pub hunk_id: u32,
    /// Whether the hunk changes something.
    pub is_change: bool,
    /// Index of the hunk's first row in the pane.
    pub hunk_first_row: usize,
}

/// The rows of a pane, and for every hunk that shows at least one row on
/// this side, `(hunk id, first row, one past the last row)`.
pub struct PaneRows {
    pub rows: Vec<Row>,
    pub ranges: Vec<(u32, usize, usize)>,
}

/// The deleted lines of `ops`, as `(left line, text)`, in order.
pub open spec fn deletes(ops: Seq<DiffOp>) -> Seq<(u32, Seq<char>)>
    decreases ops.len(),
{
    if ops.len() == 0 {
        Seq::empty()
    } else {
        let rest = deletes(ops.drop_last());
        match ops.last() {
            DiffOp::Delete { a, text } => rest.push((a, text@)),
            _ => rest,
        }
    }
}

/// The inserted lines of `ops`, as `(right line, text)`, in order.
pub open spec fn inserts(ops: Seq<DiffOp>) -> Seq<(u32, Seq<char>)>
    decreases ops.len(),
{
    if ops.len() == 0 {
        Seq::empty()
    } else {
        let rest = inserts(ops.drop_last());
        match ops.last() {
            DiffOp::Insert { b, text } => rest.push((b, text@)),
            _ => rest,
        }
    }
}

/// The equal lines of `ops`, as `(line on this side, text)`, in order.
pub open spec fn equals(ops: Seq<DiffOp>, side: Side) -> Seq<(u32, Seq<char>)>
    decreases ops.len(),
{
    if ops.len() == 0 {
        Seq::empty()
    } else {
        let rest = equals(ops.drop_last(), side);
        match ops.last() {
            DiffOp::Equal { a, b, text } => rest.push(
                (
                    if side == Side::Left {
                        a
                    } else {
                        b
                    },
                    text@,
                ),
            ),
            _ => rest,
        }
    }
}

/// The lines a hunk shows on `side`: its deletions (left) or insertions
/// (right) when it is a change, its equal lines otherwise.
pub open spec fn shown(h: Hunk, side: Side) -> Seq<(u32, Seq<char>)> {
    if hunk_is_change(h) {
        if side == Side::Left {
            deletes(h.ops@)
        } else {
            inserts(h.ops@)
        }
    } else {
        equals(h.ops@, side)
    }
}

/// Number of deleted lines paired with an inserted line for a character
/// diff.
pub open spec fn pairs(h: Hunk) -> int {
    let d = deletes(h.ops@).len() as int;
    let i = inserts(h.ops@).len() as int;
    if d < i {
        d
    } else {
        i
    }
}

pub open spec fn class_of(h: Hunk, side: Side) -> RowClass {
    if !hunk_is_change(h) {
        RowClass::Equal
    } else if side == Side::Left {
        RowClass::Delete
    } else {
        RowClass::Insert
    }
}

/// The segments of the `k`-th row a hunk shows: the plain line when the hunk
/// changes nothing; for the `k`-th of the paired lines, this side's segments
/// of a character diff of the pair; the whole line highlighted otherwise.
pub open spec fn segments_ok(h: Hunk, side: Side, k: int, segs: Seq<(Seq<char>, bool)>) -> bool {
    let line = shown(h, side)[k];
    if !hunk_is_change(h) {
        segs == seq![(line.1, false)]
    } else if k < pairs(h) {
        let old = deletes(h.ops@)[k].1;
        let new = inserts(h.ops@)[k].1;
        exists|runs: Seq<(CharKind, Seq<char>)>|
            #[trigger] is_char_diff(old, new, runs) && segs == if side == Side::Left {
                side_segments(runs, CharKind::Ins, CharKind::Del)
            } else {
                side_segments(runs, CharKind::Del, CharKind::Ins)
            }
    } else {
        segs == seq![(line.1, true)]
    }
}

/// Row `row` is the `k`-th row of hunk `h`, whose rows start at `first`.
pub open spec fn row_ok(h: Hunk, side: Side, first: int, k: int, row: Row) -> bool {
    &&& row.line_no == Some(shown(h, side)[k].0)
    &&& row.cls == class_of(h, side)
    &&& row.hunk_id == h.id
    &&& row.is_change == hunk_is_change(h)
    &&& row.hunk_first_row == first
    &&& segments_ok(h, side, k, segments_view(row.segments@))
}

/// Number of rows the first `n` hunks show on `side`.
pub open spec fn rows_before(hs: Seq<Hunk>, side: Side, n: int) -> int
    decreases n,
{
    if n <= 0 {
        0
    } else {
        rows_before(hs, side, n - 1) + shown(hs[n - 1], side).len()
    }
}

/// The row ranges of the first `n` hunks that show a row.
pub open spec fn ranges_spec(hs: Seq<Hunk>, side: Side, n: int) -> Seq<(u32, usize, usize)>
    decreases n,
{
    if n <= 0 {
        Seq::empty()
    } else {
        let rest = ranges_spec(hs, side, n - 1);
        if shown(hs[n - 1], side).len() > 0 {
            rest.push(
                (
                    hs[n - 1].id,
                    rows_before(hs, side, n - 1) as usize,
                    rows_before(hs, side, n) as usize,
                ),
            )
        } else {
            rest
        }
    }
}

/// The rows of the first `n` hunks are the prefix of `rows`, each hunk's
/// block laid out in turn.
pub open spec fn blocks_ok(hs: Seq<Hunk>, side: Side, n: int, rows: Seq<Row>) -> bool {
    &&& rows.len() >= rows_before(hs, side, n)
    &&& forall|i: int, k: int|
        0 <= i < n && 0 <= k < shown(hs[i], side).len() ==> row_ok(
            hs[i],
            side,
            rows_before(hs, side, i),
            k,
            #[trigger] rows[rows_before(hs, side, i) + k],
        )
}

/// A pane laid out from `hs` on `side`.
pub open spec fn pane_ok(hs: Seq<Hunk>, side: Side, p: PaneRows) -> bool {
    &&& p.rows@.len() == rows_before(hs, side, hs.len() as int)
    &&& blocks_ok(hs, side, hs.len() as int, p.rows@)
    &&& p.ranges@ == ranges_spec(hs, side, hs.len() as int)
}

proof fn lemma_rows_before_mono(hs: Seq<Hunk>, side: Side, m: int, n: int)
    requires
        0 <= m <= n,
    ensures
        rows_before(hs, side, m) <= rows_before(hs, side, n),
    decreases n - m,
{
    if m < n {
        lemma_rows_before_mono(hs, side, m, n - 1);
    }
}

fn deleted_lines(ops: &[DiffOp]) -> (v: Vec<(u32, String)>)
    ensures
        v@.map_values(|p: (u32, String)| (p.0, p.1@)) == deletes(ops@),
{
    let mut v: Vec<(u32, String)> = Vec::new();
    for i in 0..ops.len()
        invariant
            v@.map_values(|p: (u32, String)| (p.0, p.1@)) == deletes(ops@.take(i as int)),
    {
        proof {
            assert(ops@.take(i + 1).drop_last() =~= ops@.take(i as int));
        }
        let ghost before = v@;
        match &ops[i] {
            DiffOp::Delete { a, text } => {
                v.push((*a, text.clone()));
                proof {
                    assert(v@.map_values(|p: (u32, String)| (p.0, p.1@)) =~= before.map_values(
                        |p: (u32, String)| (p.0, p.1@),
                    ).push((*a, text@)));
                }
            },
            _ => {},
        }
    }
    proof {
        assert(ops@.take(ops@.len() as int) =~= ops@);
    }
    v
}

fn inserted_lines(ops: &[DiffOp]) -> (v: Vec<(u32, String)>)
    ensures
        v@.map_values(|p: (u32, String)| (p.0, p.1@)) == inserts(ops@),
{
    let mut v: Vec<(u32, String)> = Vec::new();
    for i in 0..ops.len()
        invariant
            v@.map_values(|p: (u32, String)| (p.0, p.1@)) == inserts(ops@.take(i as int)),
    {
        proof {
            assert(ops@.take(i + 1).drop_last() =~= ops@.take(i as int));
        }
        let ghost before = v@;
        match &ops[i] {
            DiffOp::Insert { b, text } => {
                v.push((*b, text.clone()));
                proof {
                    assert(v@.map_values(|p: (u32, String)| (p.0, p.1@)) =~= before.map_values(
                        |p: (u32, String)| (p.0, p.1@),
                    ).push((*b, text@)));
                }
            },
            _ => {},
        }
    }
    proof {
        assert(ops@.take(ops@.len() as int) =~= ops@);
    }
    v
}

fn equal_lines(ops: &[DiffOp], side: Side) -> (v: Vec<(u32, String)>)
    ensures
        v@.map_values(|p: (u32, String)| (p.0, p.1@)) == equals(ops@, side),
{
    let mut v: Vec<(u32, String)> = Vec::new();
    for i in 0..ops.len()
        invariant
            v@.map_values(|p: (u32, String)| (p.0, p.1@)) == equals(ops@.take(i as int), side),
    {
        proof {
            assert(ops@.take(i + 1).drop_last() =~= ops@.take(i as int));
        }
        let ghost before = v@;
        match &ops[i] {
            DiffOp::Equal { a, b, text } => {
                let line = match side {
                    Side::Left => *a,
                    Side::Right => *b,
                };
                v.push((line, text.clone()));
                proof {
                    assert(v@.map_values(|p: (u32, String)| (p.0, p.1@)) =~= before.map_values(
                        |p: (u32, String)| (p.0, p.1@),
                    ).push((line, text@)));
                }
            },
            _ => {},
        }
    }
    proof {
        assert(ops@.take(ops@.len() as int) =~= ops@);
    }
    v
}

/// The segments of a paired changed line on `side`.
fn paired_segments(old: &str, new: &str, side: Side) -> (segs: Vec<Segment>)
    ensures
        exists|runs: Seq<(CharKind, Seq<char>)>|
            #[trigger] is_char_diff(old@, new@, runs) && segments_view(segs@) == if side
                == Side::Left {
                side_segments(runs, CharKind::Ins, CharKind::Del)
            } else {
                side_segments(runs, CharKind::Del, CharKind::Ins)
            },
{
    let runs = char_diff(old, new);
    proof {
        lemma_is_char_diff(old@, new@, runs_view(runs@));
    }
    match side {
        Side::Left => left_segments(runs.as_slice()),
        Side::Right => right_segments(runs.as_slice()),
    }
}

fn highlighted(text: &str) -> (segs: Vec<Segment>)
    ensures
        segments_view(segs@) == seq![(text@, true)],
{
    let mut segs: Vec<Segment> = Vec::new();
    segs.push(Segment { text: string_of_str(text), hl: true });
    proof {
        assert(segments_view(segs@) =~= seq![(text@, true)]);
    }
    segs
}

/// Append the rows of hunk `h` on `side` to `rows`.
fn push_hunk_rows(rows: &mut Vec<Row>, h: &Hunk, side: Side)
    ensures
        final(rows)@.len() == old(rows)@.len() + shown(*h, side).len(),
        forall|j: int| 0 <= j < old(rows)@.len() ==> final(rows)@[j] == old(rows)@[j],
        forall|k: int|
            0 <= k < shown(*h, side).len() ==> row_ok(
                *h,
                side,
                old(rows)@.len() as int,
                k,
                #[trigger] final(rows)@[old(rows)@.len() + k],
            ),
{
    let first = rows.len();
    let change = is_change_hunk(h);
    let cls = if !change {
        RowClass::Equal
    } else {
        match side {
            Side::Left => RowClass::Delete,
            Side::Right => RowClass::Insert,
        }
    };
    if change {
        let dels = deleted_lines(h.ops.as_slice());
        let inss = inserted_lines(h.ops.as_slice());
        let n_pairs = if dels.len() < inss.len() {
            dels.len()
        } else {
            inss.len()
        };
        let ghost dv = dels@.map_values(|p: (u32, String)| (p.0, p.1@));
        let ghost iv = inss@.map_values(|p: (u32, String)| (p.0, p.1@));
        let mine = match side {
            Side::Left => &dels,
            Side::Right => &inss,
        };
        let ghost mv = mine@.map_values(|p: (u32, String)| (p.0, p.1@));
        proof {
            assert(mv == shown(*h, side));
        }
        let mut k: usize = 0;
        while k < mine.len()
            invariant
                k <= mine.len(),
                first == old(rows)@.len(),
                change == hunk_is_change(*h),
                cls == class_of(*h, side),
                dv == deletes(h.ops@),
                iv == inserts(h.ops@),
                dv.len() == dels.len(),
                iv.len() == inss.len(),
                mv == shown(*h, side),
                mv.len() == mine.len(),
                n_pairs == pairs(*h),
                dv == dels@.map_values(|p: (u32, String)| (p.0, p.1@)),
                iv == inss@.map_values(|p: (u32, String)| (p.0, p.1@)),
                mv == mine@.map_values(|p: (u32, String)| (p.0, p.1@)),
                change,
                rows@.len() == first + k,
                forall|j: int| 0 <= j < old(rows)@.len() ==> rows@[j] == old(rows)@[j],
                forall|x: int|
                    0 <= x < k ==> row_ok(*h, side, first as int, x, #[trigger] rows@[first + x]),
            decreases mine.len() - k,
        {
            let segments = if k < n_pairs {
                let s = paired_segments(dels[k].1.as_str(), inss[k].1.as_str(), side);
                proof {
                    assert(dv[k as int].1 == dels@[k as int].1@);
                    assert(iv[k as int].1 == inss@[k as int].1@);
                }
                s
            } else {
                highlighted(mine[k].1.as_str())
            };
            proof {
                assert(mv[k as int] == (mine@[k as int].0, mine@[k as int].1@));
            }
            rows.push(
                Row {
                    line_no: Some(mine[k].0),
                    segments,
                    cls,
                    hunk_id: h.id,
                    is_change: true,
                    hunk_first_row: first,
                },
            );
            proof {
                assert(row_ok(*h, side, first as int, k as int, rows@[first + k]));
            }
            k += 1;
        }
    } else {
        let eqs = equal_lines(h.ops.as_slice(), side);
        let ghost ev = eqs@.map_values(|p: (u32, String)| (p.0, p.1@));
        proof {
            assert(ev == shown(*h, side));
        }
        let mut k: usize = 0;
        while k < eqs.len()
            invariant
                k <= eqs.len(),
                first == old(rows)@.len(),
                change == hunk_is_change(*h),
                !change,
                cls == class_of(*h, side),
                ev == shown(*h, side),
                ev.len() == eqs.len(),
                ev == eqs@.map_values(|p: (u32, String)| (p.0, p.1@)),
                rows@.len() == first + k,
                forall|j: int| 0 <= j < old(rows)@.len() ==> rows@[j] == old(rows)@[j],
                forall|x: int|
                    0 <= x < k ==> row_ok(*h, side, first as int, x, #[trigger] rows@[first + x]),
            decreases eqs.len() - k,
        {
            let segments = plain(eqs[k].1.as_str());
            proof {
                assert(ev[k as int] == (eqs@[k as int].0, eqs@[k as int].1@));
            }
            rows.push(
                Row {
                    line_no: Some(eqs[k].0),
                    segments,
                    cls,
                    hunk_id: h.id,
                    is_change: false,
                    hunk_first_row: first,
                },
            );
            proof {
                assert(row_ok(*h, side, first as int, k as int, rows@[first + k]));
            }
            k += 1;
        }
    }
}

/// Lay out one side of a two-way diff: for each hunk in order, the rows it
/// shows on `side`, and the row range of every hunk that shows a row.
pub fn build_pane(hunks: &[Hunk], side: Side) -> (p: PaneRows)
    ensures
        pane_ok(hunks@, side, p),
{
    let mut rows: Vec<Row> = Vec::new();
    let mut ranges: Vec<(u32, usize, usize)> = Vec::new();
    let mut i: usize = 0;
    while i < hunks.len()
        invariant
            i <= hunks.len(),
            rows@.len() == rows_before(hunks@, side, i as int),
            blocks_ok(hunks@, side, i as int, rows@),
            ranges@ == ranges_spec(hunks@, side, i as int),
        decreases hunks.len() - i,
    {
        let h = &hunks[i];
        let start = rows.len();
        let ghost before = rows@;
        push_hunk_rows(&mut rows, h, side);
        proof {
            assert(rows_before(hunks@, side, i + 1) == rows_before(hunks@, side, i as int) + shown(
                hunks@[i as int],
                side,
            ).len());
            assert forall|x: int, k: int|
                0 <= x < i + 1 && 0 <= k < shown(hunks@[x], side).len() implies row_ok(
                hunks@[x],
                side,
                rows_before(hunks@, side, x),
                k,
                #[trigger] rows@[rows_before(hunks@, side, x) + k],
            ) by {
                if x < i {
                    lemma_rows_before_mono(hunks@, side, x + 1, i as int);
                    assert(rows_before(hunks@, side, x + 1) == rows_before(hunks@, side, x)
                        + shown(hunks@[x], side).len());
                    assert(rows@[rows_before(hunks@, side, x) + k] == before[rows_before(
                        hunks@,
                        side,
                        x,
                    ) + k]);
                }
            }
        }
        if rows.len() > start {
            ranges.push((h.id, start, rows.len()));
        }
        i += 1;
    }
    PaneRows { rows, ranges }
}


// ---------------------------------------------------------------------------
// Scrollbar bands, hunk line ranges and anchors
// ---------------------------------------------------------------------------

/// A scrollbar marker for a changed hunk: its first and last line on this
/// side (1-based, inclusive).
#[derive(Clone, Copy, Debug, PartialEq, Eq, Structural)]
pub struct MinimapBand {
    pub line_lo: u32,
    pub line_hi: u32,
}

pub open spec fn side_range(h: Hunk, side: Side) -> (LineNo, LineNo) {
    if side == Side::Left {
        h.a_range
    } else {
        h.b_range
    }
}

/// Whether hunk `h` gets a scrollbar band on `side`: it changes something
/// and covers a non-empty line range there.
pub open spec fn has_band(h: Hunk, side: Side) -> bool {
    let r = side_range(h, side);
    &&& r != (0u32, 0u32)
    &&& r.0 <= r.1
    &&& hunk_is_change(h)
}

/// The bands of the first `n` hunks, in order.
pub open spec fn bands_spec(hs: Seq<Hunk>, side: Side, n: int) -> Seq<MinimapBand>
    decreases n,
{
    if n <= 0 {
        Seq::empty()
    } else {
        let rest = bands_spec(hs, side, n - 1);
        let h = hs[n - 1];
        if has_band(h, side) {
            rest.push(MinimapBand { line_lo: side_range(h, side).0, line_hi: side_range(h, side).1 })
        } else {
            rest
        }
    }
}

/// Every band is the line range of a changed hunk: the `k`-th band comes
/// from hunk `j`, which changes something and has a non-empty, non-zero
/// range on the side, and the band is that range.
pub proof fn lemma_band_source(hs: Seq<Hunk>, side: Side, n: int, k: int) -> (j: int)
    requires
        0 <= n <= hs.len(),
        0 <= k < bands_spec(hs, side, n).len(),
    ensures
        0 <= j < n,
        hunk_is_change(hs[j]),
        side_range(hs[j], side) != (0u32, 0u32),
        side_range(hs[j], side).0 <= side_range(hs[j], side).1,
        bands_spec(hs, side, n)[k].line_lo == side_range(hs[j], side).0,
        bands_spec(hs, side, n)[k].line_hi == side_range(hs[j], side).1,
    decreases n,
{
    let prev = bands_spec(hs, side, n - 1);
    if has_band(hs[n - 1], side) && k == prev.len() {
        n - 1
    } else {
        lemma_band_source(hs, side, n - 1, k)
    }
}

/// Every changed hunk with a non-empty, non-zero range on the side has its
/// band.
pub proof fn lemma_changed_hunks_have_bands(hs: Seq<Hunk>, side: Side, n: int, j: int)
    requires
        0 <= j < n <= hs.len(),
        hunk_is_change(hs[j]),
        side_range(hs[j], side) != (0u32, 0u32),
        side_range(hs[j], side).0 <= side_range(hs[j], side).1,
    ensures
        bands_spec(hs, side, n).contains(
            (MinimapBand { line_lo: side_range(hs[j], side).0, line_hi: side_range(hs[j], side).1 }),
        ),
    decreases n,
{
    let x = MinimapBand { line_lo: side_range(hs[j], side).0, line_hi: side_range(hs[j], side).1 };
    let prev = bands_spec(hs, side, n - 1);
    let cur = bands_spec(hs, side, n);
    if j == n - 1 {
        assert(cur[prev.len() as int] == x);
    } else {
        lemma_changed_hunks_have_bands(hs, side, n - 1, j);
        let i = choose|i: int| 0 <= i < prev.len() && #[trigger] prev[i] == x;
        if has_band(hs[n - 1], side) {
            assert(cur[i] == x);
        } else {
            assert(cur[i] == x);
        }
    }
}

/// Scrollbar bands for one side of a two-way diff: one per changed hunk with
/// a non-empty line range on that side, in order.
pub fn build_minimap_bands(hunks: &[Hunk], side: Side) -> (bands: Vec<MinimapBand>)
    ensures
        bands@ == bands_spec(hunks@, side, hunks@.len() as int),
{
    let mut bands: Vec<MinimapBand> = Vec::new();
    let mut i: usize = 0;
    while i < hunks.len()
        invariant
            i <= hunks.len(),
            bands@ == bands_spec(hunks@, side, i as int),
        decreases hunks.len() - i,
    {
        let h = &hunks[i];
        let range = match side {
            Side::Left => h.a_range,
            Side::Right => h.b_range,
        };
        if !(range.0 == 0 && range.1 == 0) && range.0 <= range.1 && is_change_hunk(h) {
            bands.push(MinimapBand { line_lo: range.0, line_hi: range.1 });
        }
        i += 1;
    }
    bands
}

/// The line ranges of the first `n` hunks that cover lines on `side`, as
/// `(hunk id, lines before the hunk, last line)`: the hunk spans rows
/// `lo - 1 .. hi` of the pane.
pub open spec fn line_ranges_spec(hs: Seq<Hunk>, side: Side, n: int) -> Seq<(u32, u32, u32)>
    decreases n,
{
    if n <= 0 {
        Seq::empty()
    } else {
        let rest = line_ranges_spec(hs, side, n - 1);
        let r = side_range(hs[n - 1], side);
        if r.0 == 0 || r.1 == 0 {
            rest
        } else {
            rest.push((hs[n - 1].id, (r.0 - 1) as u32, r.1))
        }
    }
}

/// Per-hunk row spans of one pane for scroll syncing: every hunk with a
/// line range on `side`, as `(id, first row, one past the last row)`.
pub fn build_pane_ranges(hunks: &[Hunk], side: Side) -> (v: Vec<(u32, u32, u32)>)
    ensures
        v@ == line_ranges_spec(hunks@, side, hunks@.len() as int),
{
    let mut v: Vec<(u32, u32, u32)> = Vec::new();
    let mut i: usize = 0;
    while i < hunks.len()
        invariant
            i <= hunks.len(),
            v@ == line_ranges_spec(hunks@, side, i as int),
        decreases hunks.len() - i,
    {
        let h = &hunks[i];
        let (lo, hi) = match side {
            Side::Left => h.a_range,
            Side::Right => h.b_range,
        };
        if lo != 0 && hi != 0 {
            v.push((h.id, lo - 1, hi));
        }
        i += 1;
    }
    v
}

pub open spec fn anchor_line(a: Anchor, side: Side) -> LineNo {
    if side == Side::Left {
        a.a
    } else {
        a.b
    }
}

/// Index of the first anchor that pins `line` on `side`.
pub fn anchor_idx_for(anchors: &[Anchor], side: Side, line: u32) -> (r: Option<usize>)
    ensures
        match r {
            Some(i) => i < anchors@.len() && anchor_line(anchors@[i as int], side) == line
                && forall|j: int| 0 <= j < i ==> anchor_line(#[trigger] anchors@[j], side) != line,
            None => forall|j: int|
                0 <= j < anchors@.len() ==> anchor_line(#[trigger] anchors@[j], side) != line,
        },
{
    let mut i: usize = 0;
    while i < anchors.len()
        invariant
            i <= anchors.len(),
            forall|j: int| 0 <= j < i ==> anchor_line(#[trigger] anchors@[j], side) != line,
        decreases anchors.len() - i,
    {
        let a = anchors[i];
        let l = match side {
            Side::Left => a.a,
            Side::Right => a.b,
        };
        if l == line {
            return Some(i);
        }
        i += 1;
    }
    None
}

} // verus!
