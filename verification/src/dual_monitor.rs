//! Dual-monitor mode: find adjacent monitor pairs, pick a default pair near a
//! point, and match a saved pair signature back to a live pair. Pure data:
//! monitors are plain rectangles in desktop pixel space.

use vstd::prelude::*;

use crate::text::{decimal, push_decimal, push_str};

verus! {

#[derive(Debug, Clone, Copy, PartialEq, Eq, Structural)]
pub struct MonitorRect {
    pub x: i32,
    pub y: i32,
    pub w: u32,
    pub h: u32,
}

/// The rectangle's size and far edges are representable as `i32` pixels.
pub open spec fn rect_ok(r: MonitorRect) -> bool {
    &&& r.w <= i32::MAX
    &&& r.h <= i32::MAX
    &&& r.x + r.w <= i32::MAX
    &&& r.y + r.h <= i32::MAX
}

pub open spec fn right_of(r: MonitorRect) -> int {
    r.x + r.w
}

pub open spec fn bottom_of(r: MonitorRect) -> int {
    r.y + r.h
}

pub open spec fn center_of(r: MonitorRect) -> (int, int) {
    (r.x + r.w / 2, r.y + r.h / 2)
}

impl MonitorRect {
    pub fn right(&self) -> (r: i32)
        requires
            rect_ok(*self),
        ensures
            r == right_of(*self),
    {
        self.x + self.w as i32
    }

    pub fn bottom(&self) -> (r: i32)
        requires
            rect_ok(*self),
        ensures
            r == bottom_of(*self),
    {
        self.y + self.h as i32
    }

    pub fn center(&self) -> (r: (i32, i32))
        requires
            rect_ok(*self),
        ensures
            r.0 == center_of(*self).0,
            r.1 == center_of(*self).1,
    {
        (self.x + (self.w as i32) / 2, self.y + (self.h as i32) / 2)
    }
}

/// Two monitors sharing an edge, ordered so `.0` is the top/left one.
#[derive(Debug, Clone, Copy, PartialEq, Eq, Structural)]
pub struct MonitorPair(pub MonitorRect, pub MonitorRect);

/// Slack, in pixels, for edges to count as touching.
pub const EDGE_TOLERANCE: i32 = 4;

pub open spec fn abs_int(v: int) -> int {
    if v < 0 {
        -v
    } else {
        v
    }
}

/// The edge differences `are_adjacent` computes fit in `i32`.
pub open spec fn pair_coords_ok(a: MonitorRect, b: MonitorRect) -> bool {
    &&& rect_ok(a)
    &&& rect_ok(b)
    &&& i32::MIN < right_of(a) - b.x <= i32::MAX
    &&& i32::MIN < right_of(b) - a.x <= i32::MAX
    &&& i32::MIN < bottom_of(a) - b.y <= i32::MAX
    &&& i32::MIN < bottom_of(b) - a.y <= i32::MAX
}

/// Touching left/right edges with vertical overlap, or touching top/bottom
/// edges with horizontal overlap.
pub open spec fn adjacent(a: MonitorRect, b: MonitorRect) -> bool {
    let touch_h = abs_int(right_of(a) - b.x) <= EDGE_TOLERANCE || abs_int(right_of(b) - a.x)
        <= EDGE_TOLERANCE;
    let overlap_v = a.y < bottom_of(b) && b.y < bottom_of(a);
    let touch_v = abs_int(bottom_of(a) - b.y) <= EDGE_TOLERANCE || abs_int(bottom_of(b) - a.y)
        <= EDGE_TOLERANCE;
    let overlap_h = a.x < right_of(b) && b.x < right_of(a);
    (touch_h && overlap_v) || (touch_v && overlap_h)
}

fn abs_i32(v: i32) -> (r: i32)
    requires
        v > i32::MIN,
    ensures
        r == abs_int(v as int),
{
    if v < 0 {
        -v
    } else {
        v
    }
}

pub fn are_adjacent(a: &MonitorRect, b: &MonitorRect) -> (r: bool)
    requires
        pair_coords_ok(*a, *b),
    ensures
        r == adjacent(*a, *b),
{
    let touch_h = abs_i32(a.right() - b.x) <= EDGE_TOLERANCE || abs_i32(b.right() - a.x)
        <= EDGE_TOLERANCE;
    let overlap_v = a.y < b.bottom() && b.y < a.bottom();
    if touch_h && overlap_v {
        return true;
    }
    let touch_v = abs_i32(a.bottom() - b.y) <= EDGE_TOLERANCE || abs_i32(b.bottom() - a.y)
        <= EDGE_TOLERANCE;
    let overlap_h = a.x < b.right() && b.x < a.right();
    touch_v && overlap_h
}

/// `a` and `b` as a pair, top/left first (by `y`, then `x`).
pub open spec fn ordered_pair(a: MonitorRect, b: MonitorRect) -> MonitorPair {
    if a.y < b.y || (a.y == b.y && a.x <= b.x) {
        MonitorPair(a, b)
    } else {
        MonitorPair(b, a)
    }
}

/// The pair of monitors `i` and `j` if they are adjacent.
pub open spec fn candidate(ms: Seq<MonitorRect>, i: int, j: int) -> Seq<MonitorPair> {
    if adjacent(ms[i], ms[j]) {
        seq![ordered_pair(ms[i], ms[j])]
    } else {
        Seq::empty()
    }
}

/// Adjacent pairs `(i, j')` for `i < j' < j`, in order of `j'`.
pub open spec fn pairs_row(ms: Seq<MonitorRect>, i: int, j: int) -> Seq<MonitorPair>
    decreases j - i,
{
    if j <= i + 1 {
        Seq::empty()
    } else {
        pairs_row(ms, i, j - 1) + candidate(ms, i, j - 1)
    }
}

/// Adjacent pairs whose first monitor is before index `i`, in index order.
pub open spec fn pairs_before(ms: Seq<MonitorRect>, i: int) -> Seq<MonitorPair>
    decreases i,
{
    if i <= 0 {
        Seq::empty()
    } else {
        pairs_before(ms, i - 1) + pairs_row(ms, i - 1, ms.len() as int)
    }
}

/// Every adjacent pair of `ms`, each once, in order of the monitors' indices.
pub open spec fn all_adjacent_pairs(ms: Seq<MonitorRect>) -> Seq<MonitorPair> {
    pairs_before(ms, ms.len() as int)
}

/// Any two monitors of the list can be compared without overflow.
pub open spec fn monitors_ok(ms: Seq<MonitorRect>) -> bool {
    forall|i: int, j: int|
        0 <= i < ms.len() && 0 <= j < ms.len() ==> pair_coords_ok(#[trigger] ms[i], #[trigger] ms[j])
}

pub fn adjacent_pairs(monitors: &[MonitorRect]) -> (out: Vec<MonitorPair>)
    requires
        monitors_ok(monitors@),
    ensures
        out@ == all_adjacent_pairs(monitors@),
{
    let mut out: Vec<MonitorPair> = Vec::new();
    let n = monitors.len();
    let mut i: usize = 0;
    while i < n
        invariant
            i <= n,
            n == monitors.len(),
            monitors_ok(monitors@),
            out@ == pairs_before(monitors@, i as int),
        decreases n - i,
    {
        let mut j: usize = i + 1;
        proof {
            assert(pairs_before(monitors@, i as int) + pairs_row(monitors@, i as int, j as int)
                =~= pairs_before(monitors@, i as int));
        }
        while j < n
            invariant
                i < n,
                i + 1 <= j <= n,
                n == monitors.len(),
                monitors_ok(monitors@),
                out@ == pairs_before(monitors@, i as int) + pairs_row(monitors@, i as int, j as int),
            decreases n - j,
        {
            let a = monitors[i];
            let b = monitors[j];
            let ghost before = out@;
            if are_adjacent(&a, &b) {
                let pair = if a.y < b.y || (a.y == b.y && a.x <= b.x) {
                    MonitorPair(a, b)
                } else {
                    MonitorPair(b, a)
                };
                out.push(pair);
            }
            proof {
                assert(out@ =~= pairs_before(monitors@, i as int) + pairs_row(
                    monitors@,
                    i as int,
                    j + 1,
                ));
            }
            j += 1;
        }
        proof {
            assert(pairs_before(monitors@, i + 1) == pairs_before(monitors@, i as int) + pairs_row(
                monitors@,
                i as int,
                n as int,
            ));
        }
        i += 1;
    }
    out
}

/// The union's far edges and size are representable.
pub open spec fn pair_union_ok(p: MonitorPair) -> bool {
    &&& rect_ok(p.0)
    &&& rect_ok(p.1)
    &&& max_int(right_of(p.0), right_of(p.1)) - min_int(p.0.x as int, p.1.x as int) <= i32::MAX
    &&& max_int(bottom_of(p.0), bottom_of(p.1)) - min_int(p.0.y as int, p.1.y as int) <= i32::MAX
}

pub open spec fn min_int(a: int, b: int) -> int {
    if a <= b {
        a
    } else {
        b
    }
}

pub open spec fn max_int(a: int, b: int) -> int {
    if a >= b {
        a
    } else {
        b
    }
}

/// The bounding rectangle of both monitors of the pair.
pub open spec fn union_of(p: MonitorPair) -> MonitorRect {
    let x = min_int(p.0.x as int, p.1.x as int);
    let y = min_int(p.0.y as int, p.1.y as int);
    MonitorRect {
        x: x as i32,
        y: y as i32,
        w: (max_int(right_of(p.0), right_of(p.1)) - x) as u32,
        h: (max_int(bottom_of(p.0), bottom_of(p.1)) - y) as u32,
    }
}

pub fn union_rect(pair: &MonitorPair) -> (u: MonitorRect)
    requires
        pair_union_ok(*pair),
    ensures
        u == union_of(*pair),
        rect_ok(u),
{
    let x = if pair.0.x <= pair.1.x {
        pair.0.x
    } else {
        pair.1.x
    };
    let y = if pair.0.y <= pair.1.y {
        pair.0.y
    } else {
        pair.1.y
    };
    let r0 = pair.0.right();
    let r1 = pair.1.right();
    let right = if r0 >= r1 {
        r0
    } else {
        r1
    };
    let b0 = pair.0.bottom();
    let b1 = pair.1.bottom();
    let bottom = if b0 >= b1 {
        b0
    } else {
        b1
    };
    MonitorRect { x, y, w: (right - x) as u32, h: (bottom - y) as u32 }
}

/// The point lies inside the rectangle (far edges excluded).
pub open spec fn contains_point(u: MonitorRect, p: (i32, i32)) -> bool {
    &&& u.x <= p.0 < right_of(u)
    &&& u.y <= p.1 < bottom_of(u)
}

/// Squared distance from the centre of the pair's union to `p`.
pub open spec fn dist2(pair: MonitorPair, p: (i32, i32)) -> int {
    let c = center_of(union_of(pair));
    (c.0 - p.0) * (c.0 - p.0) + (c.1 - p.1) * (c.1 - p.1)
}

/// Index of the first pair whose union contains `p` (`pairs.len()` if none).
pub open spec fn first_containing(pairs: Seq<MonitorPair>, p: (i32, i32), k: int) -> int
    decreases pairs.len() - k,
{
    if k >= pairs.len() {
        pairs.len() as int
    } else if contains_point(union_of(pairs[k]), p) {
        k
    } else {
        first_containing(pairs, p, k + 1)
    }
}

/// Index of the first pair at the least distance from `p` among `pairs[..=k]`.
pub open spec fn nearest_upto(pairs: Seq<MonitorPair>, p: (i32, i32), k: int) -> int
    decreases k,
{
    if k <= 0 {
        0
    } else if dist2(pairs[k], p) < dist2(pairs[nearest_upto(pairs, p, k - 1)], p) {
        k
    } else {
        nearest_upto(pairs, p, k - 1)
    }
}

/// The pair `pick_pair_near` chooses among `pairs`.
pub open spec fn pick_among(pairs: Seq<MonitorPair>, p: (i32, i32)) -> Option<MonitorPair> {
    if pairs.len() == 0 {
        None
    } else if first_containing(pairs, p, 0) < pairs.len() {
        Some(pairs[first_containing(pairs, p, 0)])
    } else {
        Some(pairs[nearest_upto(pairs, p, pairs.len() - 1)])
    }
}

/// Every candidate pair's union, centre offset and squared distance to `p`
/// can be computed without overflow.
pub open spec fn pick_ok(pairs: Seq<MonitorPair>, p: (i32, i32)) -> bool {
    forall|k: int|
        0 <= k < pairs.len() ==> {
            &&& pair_union_ok(#[trigger] pairs[k])
            &&& i32::MIN <= center_of(union_of(pairs[k])).0 - p.0 <= i32::MAX
            &&& i32::MIN <= center_of(union_of(pairs[k])).1 - p.1 <= i32::MAX
            &&& dist2(pairs[k], p) <= i64::MAX
        }
}

proof fn lemma_first_containing(pairs: Seq<MonitorPair>, p: (i32, i32), k: int)
    requires
        0 <= k <= pairs.len(),
    ensures
        k <= first_containing(pairs, p, k) <= pairs.len(),
        forall|x: int|
            k <= x < first_containing(pairs, p, k) ==> !contains_point(
                union_of(#[trigger] pairs[x]),
                p,
            ),
        first_containing(pairs, p, k) < pairs.len() ==> contains_point(
            union_of(pairs[first_containing(pairs, p, k)]),
            p,
        ),
    decreases pairs.len() - k,
{
    if k < pairs.len() && !contains_point(union_of(pairs[k]), p) {
        lemma_first_containing(pairs, p, k + 1);
    }
}

proof fn lemma_nearest_range(pairs: Seq<MonitorPair>, p: (i32, i32), k: int)
    requires
        0 <= k,
    ensures
        0 <= nearest_upto(pairs, p, k) <= k,
    decreases k,
{
    if k > 0 {
        lemma_nearest_range(pairs, p, k - 1);
    }
}

fn dist2_exec(pair: &MonitorPair, p: (i32, i32)) -> (d: i64)
    requires
        pair_union_ok(*pair),
        i32::MIN <= center_of(union_of(*pair)).0 - p.0 <= i32::MAX,
        i32::MIN <= center_of(union_of(*pair)).1 - p.1 <= i32::MAX,
        dist2(*pair, p) <= i64::MAX,
    ensures
        d == dist2(*pair, p),
{
    let u = union_rect(pair);
    let (cx, cy) = u.center();
    let dx = (cx - p.0) as i64;
    let dy = (cy - p.1) as i64;
    proof {
        assert(0 <= dx * dx) by (nonlinear_arith);
        assert(0 <= dy * dy) by (nonlinear_arith);
        assert(dx * dx <= 0x4000_0000_0000_0000) by (nonlinear_arith)
            requires
                -0x8000_0000 <= dx <= 0x7fff_ffff,
        ;
        assert(dy * dy <= 0x4000_0000_0000_0000) by (nonlinear_arith)
            requires
                -0x8000_0000 <= dy <= 0x7fff_ffff,
        ;
    }
    dx * dx + dy * dy
}

/// Choose the adjacent pair to span: the first whose union contains
/// `anchor_center`, else the first one whose union's centre is nearest to it.
/// `None` when no two monitors are adjacent.
pub fn pick_pair_near(monitors: &[MonitorRect], anchor_center: (i32, i32)) -> (r: Option<
    MonitorPair,
>)
    requires
        monitors_ok(monitors@),
        pick_ok(all_adjacent_pairs(monitors@), anchor_center),
    ensures
        r == pick_among(all_adjacent_pairs(monitors@), anchor_center),
{
    let pairs = adjacent_pairs(monitors);
    let ghost ps = pairs@;
    if pairs.len() == 0 {
        return None;
    }
    let mut k: usize = 0;
    proof {
        lemma_first_containing(ps, anchor_center, 0);
    }
    while k < pairs.len()
        invariant
            k <= pairs.len(),
            ps == pairs@,
            ps == all_adjacent_pairs(monitors@),
            pick_ok(ps, anchor_center),
            first_containing(ps, anchor_center, 0) <= ps.len(),
            forall|x: int|
                0 <= x < first_containing(ps, anchor_center, 0) ==> !contains_point(
                    union_of(#[trigger] ps[x]),
                    anchor_center,
                ),
            k <= first_containing(ps, anchor_center, 0),
            first_containing(ps, anchor_center, 0) < ps.len() ==> contains_point(
                union_of(ps[first_containing(ps, anchor_center, 0)]),
                anchor_center,
            ),
        decreases pairs.len() - k,
    {
        let p = &pairs[k];
        proof {
            assert(pair_union_ok(ps[k as int]));
        }
        let u = union_rect(p);
        if u.x <= anchor_center.0 && anchor_center.0 < u.right() && u.y <= anchor_center.1
            && anchor_center.1 < u.bottom() {
            proof {
                if (k as int) < first_containing(ps, anchor_center, 0) {
                    assert(!contains_point(union_of(ps[k as int]), anchor_center));
                }
                lemma_first_containing_is(ps, anchor_center, 0, k as int);
            }
            return Some(*p);
        }
        k += 1;
    }
    let mut best: usize = 0;
    proof {
        assert(pair_union_ok(ps[0]));
    }
    let mut best_d = dist2_exec(&pairs[0], anchor_center);
    let mut m: usize = 1;
    while m < pairs.len()
        invariant
            1 <= m <= pairs.len(),
            ps == pairs@,
            ps == all_adjacent_pairs(monitors@),
            first_containing(ps, anchor_center, 0) == ps.len(),
            pick_ok(ps, anchor_center),
            best == nearest_upto(ps, anchor_center, m - 1),
            best < m,
            best_d == dist2(ps[best as int], anchor_center),
        decreases pairs.len() - m,
    {
        proof {
            assert(pair_union_ok(ps[m as int]));
        }
        let d = dist2_exec(&pairs[m], anchor_center);
        if d < best_d {
            best = m;
            best_d = d;
        }
        m += 1;
    }
    Some(pairs[best])
}

proof fn lemma_first_containing_is(pairs: Seq<MonitorPair>, p: (i32, i32), k: int, x: int)
    requires
        0 <= k <= x < pairs.len(),
        contains_point(union_of(pairs[x]), p),
        forall|y: int| k <= y < x ==> !contains_point(union_of(#[trigger] pairs[y]), p),
    ensures
        first_containing(pairs, p, k) == x,
    decreases x - k,
{
    if k < x {
        lemma_first_containing_is(pairs, p, k + 1, x);
    }
}

/// Within the edge tolerance on position and size.
pub open spec fn approx(a: MonitorRect, b: MonitorRect) -> bool {
    &&& abs_int(a.x - b.x) <= EDGE_TOLERANCE
    &&& abs_int(a.y - b.y) <= EDGE_TOLERANCE
    &&& abs_int(a.w - b.w) <= EDGE_TOLERANCE
    &&& abs_int(a.h - b.h) <= EDGE_TOLERANCE
}

pub open spec fn approx_ok(a: MonitorRect, b: MonitorRect) -> bool {
    &&& i32::MIN < a.x - b.x <= i32::MAX
    &&& i32::MIN < a.y - b.y <= i32::MAX
    &&& a.w <= i32::MAX
    &&& b.w <= i32::MAX
    &&& a.h <= i32::MAX
    &&& b.h <= i32::MAX
}

fn approx_exec(a: &MonitorRect, b: &MonitorRect) -> (r: bool)
    requires
        approx_ok(*a, *b),
    ensures
        r == approx(*a, *b),
{
    abs_i32(a.x - b.x) <= EDGE_TOLERANCE && abs_i32(a.y - b.y) <= EDGE_TOLERANCE && abs_i32(
        a.w as i32 - b.w as i32,
    ) <= EDGE_TOLERANCE && abs_i32(a.h as i32 - b.h as i32) <= EDGE_TOLERANCE
}

/// The pair matches a saved signature, in either order.
pub open spec fn matches_saved(p: MonitorPair, s0: MonitorRect, s1: MonitorRect) -> bool {
    (approx(p.0, s0) && approx(p.1, s1)) || (approx(p.0, s1) && approx(p.1, s0))
}

/// Index of the first pair from `k` on that matches the signature.
pub open spec fn first_match(pairs: Seq<MonitorPair>, s0: MonitorRect, s1: MonitorRect, k: int) -> int
    decreases pairs.len() - k,
{
    if k >= pairs.len() {
        pairs.len() as int
    } else if matches_saved(pairs[k], s0, s1) {
        k
    } else {
        first_match(pairs, s0, s1, k + 1)
    }
}

pub open spec fn saved_ok(pairs: Seq<MonitorPair>, s0: MonitorRect, s1: MonitorRect) -> bool {
    forall|k: int|
        0 <= k < pairs.len() ==> {
            &&& approx_ok((#[trigger] pairs[k]).0, s0)
            &&& approx_ok(pairs[k].1, s1)
            &&& approx_ok(pairs[k].0, s1)
            &&& approx_ok(pairs[k].1, s0)
        }
}

/// The first live adjacent pair that matches the saved pair signature (in
/// either order, within the edge tolerance), if any.
pub fn match_saved_pair(monitors: &[MonitorRect], saved: &[MonitorRect; 2]) -> (r: Option<
    MonitorPair,
>)
    requires
        monitors_ok(monitors@),
        saved_ok(all_adjacent_pairs(monitors@), saved[0], saved[1]),
    ensures
        ({
            let ps = all_adjacent_pairs(monitors@);
            let k = first_match(ps, saved[0], saved[1], 0);
            &&& r is None <==> k == ps.len()
            &&& r matches Some(p) ==> k < ps.len() && p == ps[k]
        }),
{
    let pairs = adjacent_pairs(monitors);
    let ghost ps = pairs@;
    let s0 = &saved[0];
    let s1 = &saved[1];
    let mut k: usize = 0;
    while k < pairs.len()
        invariant
            k <= pairs.len(),
            ps == pairs@,
            ps == all_adjacent_pairs(monitors@),
            *s0 == saved[0],
            *s1 == saved[1],
            saved_ok(ps, *s0, *s1),
            first_match(ps, *s0, *s1, 0) == first_match(ps, *s0, *s1, k as int),
        decreases pairs.len() - k,
    {
        let p = pairs[k];
        proof {
            assert(approx_ok(ps[k as int].0, *s0));
        }
        if (approx_exec(&p.0, s0) && approx_exec(&p.1, s1)) || (approx_exec(&p.0, s1)
            && approx_exec(&p.1, s0)) {
            return Some(p);
        }
        proof {
            assert(first_match(ps, *s0, *s1, k as int) == first_match(ps, *s0, *s1, k + 1));
        }
        k += 1;
    }
    None
}

/// Label for a pair: both top-left corners and the union's size, as in
/// `(0, 0) + (1920, 0)  —  3840×1080`.
pub fn pair_label(pair: &MonitorPair) -> (s: String)
    requires
        pair_union_ok(*pair),
    ensures
        s@ == "("@ + decimal(pair.0.x as int) + ", "@ + decimal(pair.0.y as int) + ") + ("@
            + decimal(pair.1.x as int) + ", "@ + decimal(pair.1.y as int) + ")  \u{2014}  "@
            + decimal(union_of(*pair).w as int) + "\u{d7}"@ + decimal(union_of(*pair).h as int),
{
    let u = union_rect(pair);
    let mut s = String::new();
    push_str(&mut s, "(");
    push_decimal(&mut s, pair.0.x as i64);
    push_str(&mut s, ", ");
    push_decimal(&mut s, pair.0.y as i64);
    push_str(&mut s, ") + (");
    push_decimal(&mut s, pair.1.x as i64);
    push_str(&mut s, ", ");
    push_decimal(&mut s, pair.1.y as i64);
    push_str(&mut s, ")  \u{2014}  ");
    push_decimal(&mut s, u.w as i64);
    push_str(&mut s, "\u{d7}");
    push_decimal(&mut s, u.h as i64);
    proof {
        assert(s@ =~= "("@ + decimal(pair.0.x as int) + ", "@ + decimal(pair.0.y as int)
            + ") + ("@ + decimal(pair.1.x as int) + ", "@ + decimal(pair.1.y as int)
            + ")  \u{2014}  "@ + decimal(union_of(*pair).w as int) + "\u{d7}"@ + decimal(
            union_of(*pair).h as int,
        ));
    }
    s
}

/// Window placement captured on entering dual-monitor mode, restored on exit.
#[derive(Debug, Clone, Copy)]
pub struct PriorWindowState {
    pub outer_position: (i32, i32),
    pub inner_size: (u32, u32),
    pub maximized: bool,
    pub decorations: bool,
}

/// An active dual-monitor session.
#[derive(Debug, Clone, Copy)]
pub struct ActiveDualMonitor {
    pub pair: MonitorPair,
    pub prior: PriorWindowState,
}


// ---------------------------------------------------------------------------
// Laws
// ---------------------------------------------------------------------------

/// Adjacency does not depend on the order of the two monitors.
pub proof fn lemma_adjacency_symmetric(a: MonitorRect, b: MonitorRect)
    ensures
        adjacent(a, b) == adjacent(b, a),
{
}

/// The union of a pair covers both of its monitors, and each of its edges
/// is an edge of one of them.
pub proof fn lemma_union_covers_pair(p: MonitorPair)
    requires
        pair_union_ok(p),
    ensures
        ({
            let u = union_of(p);
            &&& u.x <= p.0.x && u.x <= p.1.x
            &&& u.y <= p.0.y && u.y <= p.1.y
            &&& right_of(p.0) <= right_of(u) && right_of(p.1) <= right_of(u)
            &&& bottom_of(p.0) <= bottom_of(u) && bottom_of(p.1) <= bottom_of(u)
            &&& (u.x == p.0.x || u.x == p.1.x)
            &&& (u.y == p.0.y || u.y == p.1.y)
            &&& (right_of(u) == right_of(p.0) || right_of(u) == right_of(p.1))
            &&& (bottom_of(u) == bottom_of(p.0) || bottom_of(u) == bottom_of(p.1))
        }),
{
}

proof fn row_witness(ms: Seq<MonitorRect>, i: int, j: int, k: int) -> (r: int)
    requires
        0 <= k < pairs_row(ms, i, j).len(),
    ensures
        i < r < j,
        adjacent(ms[i], ms[r]),
        pairs_row(ms, i, j)[k] == ordered_pair(ms[i], ms[r]),
    decreases j - i,
{
    let prefix = pairs_row(ms, i, j - 1);
    if k < prefix.len() {
        let r = row_witness(ms, i, j - 1, k);
        assert(pairs_row(ms, i, j)[k] == prefix[k]);
        r
    } else {
        assert(pairs_row(ms, i, j)[k] == candidate(ms, i, j - 1)[k - prefix.len()]);
        j - 1
    }
}

proof fn before_witness(ms: Seq<MonitorRect>, n: int, k: int) -> (r: (int, int))
    requires
        0 <= k < pairs_before(ms, n).len(),
    ensures
        0 <= r.0 < r.1 < ms.len(),
        r.0 < n,
        adjacent(ms[r.0], ms[r.1]),
        pairs_before(ms, n)[k] == ordered_pair(ms[r.0], ms[r.1]),
    decreases n,
{
    let prefix = pairs_before(ms, n - 1);
    if k < prefix.len() {
        let r = before_witness(ms, n - 1, k);
        assert(pairs_before(ms, n)[k] == prefix[k]);
        r
    } else {
        let j = row_witness(ms, n - 1, ms.len() as int, k - prefix.len());
        assert(pairs_before(ms, n)[k] == pairs_row(ms, n - 1, ms.len() as int)[k - prefix.len()]);
        (n - 1, j)
    }
}

/// Every pair `adjacent_pairs` lists is two distinct monitors of the list
/// that are adjacent, top/left one first.
pub proof fn lemma_adjacent_pairs_sound(ms: Seq<MonitorRect>, k: int)
    requires
        0 <= k < all_adjacent_pairs(ms).len(),
    ensures
        ({
            let p = all_adjacent_pairs(ms)[k];
            &&& adjacent(p.0, p.1)
            &&& p.0.y < p.1.y || (p.0.y == p.1.y && p.0.x <= p.1.x)
            &&& exists|i: int, j: int|
                0 <= i < j < ms.len() && ((p.0 == ms[i] && p.1 == ms[j]) || (p.0 == ms[j] && p.1
                    == ms[i]))
        }),
{
    let (i, j) = before_witness(ms, ms.len() as int, k);
    let p = all_adjacent_pairs(ms)[k];
    lemma_adjacency_symmetric(ms[i], ms[j]);
    assert((p.0 == ms[i] && p.1 == ms[j]) || (p.0 == ms[j] && p.1 == ms[i]));
}

proof fn lemma_row_complete(ms: Seq<MonitorRect>, i: int, j: int, r: int)
    requires
        i < r < j,
        adjacent(ms[i], ms[r]),
    ensures
        pairs_row(ms, i, j).contains(ordered_pair(ms[i], ms[r])),
    decreases j - i,
{
    let prefix = pairs_row(ms, i, j - 1);
    if r < j - 1 {
        lemma_row_complete(ms, i, j - 1, r);
        let k = choose|k: int| 0 <= k < prefix.len() && prefix[k] == ordered_pair(ms[i], ms[r]);
        assert(pairs_row(ms, i, j)[k] == prefix[k]);
    } else {
        assert(pairs_row(ms, i, j)[prefix.len() as int] == ordered_pair(ms[i], ms[r]));
    }
}

proof fn lemma_before_complete(ms: Seq<MonitorRect>, n: int, i: int, j: int)
    requires
        0 <= i < j < ms.len(),
        i < n,
        adjacent(ms[i], ms[j]),
    ensures
        pairs_before(ms, n).contains(ordered_pair(ms[i], ms[j])),
    decreases n,
{
    let prefix = pairs_before(ms, n - 1);
    let row = pairs_row(ms, n - 1, ms.len() as int);
    if i < n - 1 {
        lemma_before_complete(ms, n - 1, i, j);
        let k = choose|k: int| 0 <= k < prefix.len() && prefix[k] == ordered_pair(ms[i], ms[j]);
        assert(pairs_before(ms, n)[k] == prefix[k]);
    } else {
        lemma_row_complete(ms, i, ms.len() as int, j);
        let k = choose|k: int| 0 <= k < row.len() && row[k] == ordered_pair(ms[i], ms[j]);
        assert(pairs_before(ms, n)[prefix.len() + k] == row[k]);
    }
}

/// Every two adjacent monitors of the list appear as a pair.
pub proof fn lemma_adjacent_pairs_complete(ms: Seq<MonitorRect>, i: int, j: int)
    requires
        0 <= i < j < ms.len(),
        adjacent(ms[i], ms[j]),
    ensures
        all_adjacent_pairs(ms).contains(ordered_pair(ms[i], ms[j])),
{
    lemma_before_complete(ms, ms.len() as int, i, j);
}


proof fn lemma_first_match_swap(pairs: Seq<MonitorPair>, s0: MonitorRect, s1: MonitorRect, k: int)
    ensures
        first_match(pairs, s0, s1, k) == first_match(pairs, s1, s0, k),
    decreases pairs.len() - k,
{
    if k < pairs.len() {
        lemma_first_match_swap(pairs, s0, s1, k + 1);
    }
}

/// The order of the two saved rectangles does not matter: matching a live
/// layout against `[s0, s1]` or `[s1, s0]` finds the same pair.
pub proof fn lemma_match_saved_order_irrelevant(ms: Seq<MonitorRect>, s0: MonitorRect, s1: MonitorRect)
    ensures
        first_match(all_adjacent_pairs(ms), s0, s1, 0) == first_match(
            all_adjacent_pairs(ms),
            s1,
            s0,
            0,
        ),
        saved_ok(all_adjacent_pairs(ms), s0, s1) == saved_ok(all_adjacent_pairs(ms), s1, s0),
{
    lemma_first_match_swap(all_adjacent_pairs(ms), s0, s1, 0);
}

proof fn lemma_nearest_is_least(pairs: Seq<MonitorPair>, p: (i32, i32), k: int)
    requires
        0 <= k < pairs.len(),
    ensures
        0 <= nearest_upto(pairs, p, k) <= k,
        forall|j: int| 0 <= j <= k ==> dist2(pairs[nearest_upto(pairs, p, k)], p) <= dist2(
            #[trigger] pairs[j],
            p,
        ),
        forall|j: int| 0 <= j < nearest_upto(pairs, p, k) ==> dist2(#[trigger] pairs[j], p) > dist2(
            pairs[nearest_upto(pairs, p, k)],
            p,
        ),
    decreases k,
{
    if k > 0 {
        lemma_nearest_is_least(pairs, p, k - 1);
    }
}

/// Which pair `pick_pair_near` settles on: none without pairs; otherwise the
/// first pair whose union contains the point when one does, and else the
/// first of the pairs whose union's centre is nearest to it.
pub proof fn lemma_pick_prefers_containing(pairs: Seq<MonitorPair>, p: (i32, i32)) -> (k: int)
    ensures
        pairs.len() == 0 ==> pick_among(pairs, p) is None,
        pairs.len() > 0 ==> {
            &&& 0 <= k < pairs.len()
            &&& pick_among(pairs, p) == Some(pairs[k])
            &&& (exists|j: int| 0 <= j < pairs.len() && contains_point(union_of(#[trigger] pairs[j]), p))
                ==> {
                &&& contains_point(union_of(pairs[k]), p)
                &&& forall|j: int| 0 <= j < k ==> !contains_point(union_of(#[trigger] pairs[j]), p)
            }
            &&& !(exists|j: int| 0 <= j < pairs.len() && contains_point(union_of(#[trigger] pairs[j]), p))
                ==> {
                &&& forall|j: int| 0 <= j < pairs.len() ==> dist2(pairs[k], p) <= dist2(#[trigger] pairs[j], p)
                &&& forall|j: int| 0 <= j < k ==> dist2(#[trigger] pairs[j], p) > dist2(pairs[k], p)
            }
        },
{
    if pairs.len() == 0 {
        0
    } else {
        lemma_first_containing(pairs, p, 0);
        let f = first_containing(pairs, p, 0);
        if f < pairs.len() {
            f
        } else {
            lemma_nearest_is_least(pairs, p, pairs.len() - 1);
            nearest_upto(pairs, p, pairs.len() - 1)
        }
    }
}

proof fn lemma_first_match_props(pairs: Seq<MonitorPair>, s0: MonitorRect, s1: MonitorRect, k: int)
    requires
        0 <= k <= pairs.len(),
    ensures
        k <= first_match(pairs, s0, s1, k) <= pairs.len(),
        forall|x: int| k <= x < first_match(pairs, s0, s1, k) ==> !matches_saved(#[trigger] pairs[x], s0, s1),
        first_match(pairs, s0, s1, k) < pairs.len() ==> matches_saved(pairs[first_match(pairs, s0, s1, k)], s0, s1),
    decreases pairs.len() - k,
{
    if k < pairs.len() && !matches_saved(pairs[k], s0, s1) {
        lemma_first_match_props(pairs, s0, s1, k + 1);
    }
}

/// A saved pair is matched to the first live pair whose two monitors are
/// each within the edge tolerance of one of the saved rectangles (in
/// either order) in position and size; none when no pair is.
pub proof fn lemma_saved_pair_found(pairs: Seq<MonitorPair>, s0: MonitorRect, s1: MonitorRect)
    ensures
        ({
            let k = first_match(pairs, s0, s1, 0);
            let close = |a: MonitorRect, b: MonitorRect|
                abs_int(a.x - b.x) <= 4 && abs_int(a.y - b.y) <= 4 && abs_int(a.w - b.w) <= 4
                    && abs_int(a.h - b.h) <= 4;
            &&& 0 <= k <= pairs.len()
            &&& k < pairs.len() ==> (close(pairs[k].0, s0) && close(pairs[k].1, s1)) || (close(
                pairs[k].0,
                s1,
            ) && close(pairs[k].1, s0))
            &&& forall|j: int|
                0 <= j < k ==> !((close((#[trigger] pairs[j]).0, s0) && close(pairs[j].1, s1)) || (
                close(pairs[j].0, s1) && close(pairs[j].1, s0)))
        }),
{
    lemma_first_match_props(pairs, s0, s1, 0);
}

} // verus!
