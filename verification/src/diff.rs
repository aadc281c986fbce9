//! Line-level diff data: the flat operation list produced by an engine, its
//! grouping into hunks, and splitting text into lines.

use vstd::prelude::*;

use crate::text::push_char;

verus! {

pub type LineNo = u32;

/// One line-level edit operation. Line numbers are 1-based.
#[derive(Debug, Clone)]
pub enum DiffOp {
    Equal { a: LineNo, b: LineNo, text: String },
    Delete { a: LineNo, text: String },
    Insert { b: LineNo, text: String },
}

/// A maximal run of equal ops, or of delete/insert ops, with the line ranges
/// it covers on each side (`(0, 0)` for a side it does not touch).
#[derive(Debug)]
pub struct Hunk {
    pub id: u32,
    pub a_range: (LineNo, LineNo),
    pub b_range: (LineNo, LineNo),
    pub ops: Vec<DiffOp>,
}

/// A user-pinned correspondence between line `a` of the left text and line
/// `b` of the right text.
#[derive(Debug, Clone, Copy, PartialEq, Eq, Structural)]
pub struct Anchor {
    pub a: LineNo,
    pub b: LineNo,
}

/// A line-diff algorithm.
pub trait DiffEngine: Send + Sync {
    fn name(&self) -> &'static str;

    fn diff(&self, a: &[&str], b: &[&str]) -> Vec<DiffOp>;
}

pub open spec fn op_is_equal(op: DiffOp) -> bool {
    op is Equal
}

/// Left-side line numbers touched by `ops`, in order.
pub open spec fn a_lines(ops: Seq<DiffOp>) -> Seq<LineNo>
    decreases ops.len(),
{
    if ops.len() == 0 {
        Seq::empty()
    } else {
        let rest = a_lines(ops.drop_last());
        match ops.last() {
            DiffOp::Equal { a, .. } => rest.push(a),
            DiffOp::Delete { a, .. } => rest.push(a),
            DiffOp::Insert { .. } => rest,
        }
    }
}

/// Right-side line numbers touched by `ops`, in order.
pub open spec fn b_lines(ops: Seq<DiffOp>) -> Seq<LineNo>
    decreases ops.len(),
{
    if ops.len() == 0 {
        Seq::empty()
    } else {
        let rest = b_lines(ops.drop_last());
        match ops.last() {
            DiffOp::Equal { b, .. } => rest.push(b),
            DiffOp::Insert { b, .. } => rest.push(b),
            DiffOp::Delete { .. } => rest,
        }
    }
}

pub open spec fn seq_min(s: Seq<LineNo>) -> LineNo
    recommends
        s.len() > 0,
    decreases s.len(),
{
    if s.len() <= 1 {
        s[0]
    } else if s.last() < seq_min(s.drop_last()) {
        s.last()
    } else {
        seq_min(s.drop_last())
    }
}

pub open spec fn seq_max(s: Seq<LineNo>) -> LineNo
    recommends
        s.len() > 0,
    decreases s.len(),
{
    if s.len() <= 1 {
        s[0]
    } else if s.last() > seq_max(s.drop_last()) {
        s.last()
    } else {
        seq_max(s.drop_last())
    }
}

/// `(min, max)` of the line numbers, or `(0, 0)` when there are none.
pub open spec fn range_of(lines: Seq<LineNo>) -> (LineNo, LineNo) {
    if lines.len() == 0 {
        (0, 0)
    } else {
        (seq_min(lines), seq_max(lines))
    }
}

/// The ops of all hunks, in order.
pub open spec fn hunk_ops(hunks: Seq<Hunk>) -> Seq<DiffOp>
    decreases hunks.len(),
{
    if hunks.len() == 0 {
        Seq::empty()
    } else {
        hunk_ops(hunks.drop_last()) + hunks.last().ops@
    }
}

/// Non-empty and all equal ops, or all change ops.
pub open spec fn uniform(ops: Seq<DiffOp>) -> bool {
    &&& ops.len() > 0
    &&& forall|k: int| 0 <= k < ops.len() ==> op_is_equal(#[trigger] ops[k]) == op_is_equal(ops[0])
}

/// `hunks` is the grouping of `ops` into maximal runs, numbered from zero,
/// each carrying its own line ranges.
pub open spec fn is_hunk_grouping(hunks: Seq<Hunk>, ops: Seq<DiffOp>) -> bool {
    &&& hunk_ops(hunks) == ops
    &&& forall|k: int| 0 <= k < hunks.len() ==> uniform((#[trigger] hunks[k]).ops@)
    &&& forall|k: int|
        0 <= k < hunks.len() - 1 ==> op_is_equal((#[trigger] hunks[k]).ops@[0]) != op_is_equal(
            hunks[k + 1].ops@[0],
        )
    &&& forall|k: int| 0 <= k < hunks.len() ==> (#[trigger] hunks[k]).id == k
    &&& forall|k: int|
        0 <= k < hunks.len() ==> (#[trigger] hunks[k]).a_range == range_of(a_lines(hunks[k].ops@))
            && hunks[k].b_range == range_of(b_lines(hunks[k].ops@))
}

fn is_equal_op(op: &DiffOp) -> (r: bool)
    ensures
        r == op_is_equal(*op),
{
    match op {
        DiffOp::Equal { .. } => true,
        _ => false,
    }
}

/// A copy of every op, in order.
pub fn copy_ops(ops: &[DiffOp]) -> (r: Vec<DiffOp>)
    ensures
        r@ == ops@,
{
    let mut r: Vec<DiffOp> = Vec::new();
    let mut i: usize = 0;
    while i < ops.len()
        invariant
            i <= ops.len(),
            r@ == ops@.take(i as int),
        decreases ops.len() - i,
    {
        r.push(copy_op(&ops[i]));
        i += 1;
        proof {
            assert(r@ =~= ops@.take(i as int));
        }
    }
    proof {
        assert(ops@.take(ops.len() as int) =~= ops@);
    }
    r
}

impl Clone for Hunk {
    fn clone(&self) -> (r: Hunk)
        ensures
            r.id == self.id,
            r.a_range == self.a_range,
            r.b_range == self.b_range,
            r.ops@ == self.ops@,
    {
        let ops = copy_ops(self.ops.as_slice());
        Hunk { id: self.id, a_range: self.a_range, b_range: self.b_range, ops }
    }
}

fn copy_op(op: &DiffOp) -> (r: DiffOp)
    ensures
        r == *op,
{
    match op {
        DiffOp::Equal { a, b, text } => DiffOp::Equal { a: *a, b: *b, text: text.clone() },
        DiffOp::Delete { a, text } => DiffOp::Delete { a: *a, text: text.clone() },
        DiffOp::Insert { b, text } => DiffOp::Insert { b: *b, text: text.clone() },
    }
}

proof fn lemma_lines_push(ops: Seq<DiffOp>, op: DiffOp)
    ensures
        a_lines(ops.push(op)) == match op {
            DiffOp::Equal { a, .. } => a_lines(ops).push(a),
            DiffOp::Delete { a, .. } => a_lines(ops).push(a),
            DiffOp::Insert { .. } => a_lines(ops),
        },
        b_lines(ops.push(op)) == match op {
            DiffOp::Equal { b, .. } => b_lines(ops).push(b),
            DiffOp::Insert { b, .. } => b_lines(ops).push(b),
            DiffOp::Delete { .. } => b_lines(ops),
        },
{
    assert(ops.push(op).drop_last() =~= ops);
}

proof fn lemma_min_max_push(s: Seq<LineNo>, x: LineNo)
    ensures
        s.len() > 0 ==> seq_min(s.push(x)) == if x < seq_min(s) {
            x
        } else {
            seq_min(s)
        },
        s.len() > 0 ==> seq_max(s.push(x)) == if x > seq_max(s) {
            x
        } else {
            seq_max(s)
        },
        s.len() == 0 ==> seq_min(s.push(x)) == x && seq_max(s.push(x)) == x,
{
    assert(s.push(x).drop_last() =~= s);
}

/// Tracks `(min, max, seen)` of a line list under one more line.
fn fold_line(lo: LineNo, hi: LineNo, seen: bool, x: LineNo) -> (r: (LineNo, LineNo, bool))
    ensures
        r.2,
        r.0 == if seen && lo <= x {
            lo
        } else {
            x
        },
        r.1 == if seen && hi >= x {
            hi
        } else {
            x
        },
{
    let nlo = if seen && lo <= x {
        lo
    } else {
        x
    };
    let nhi = if seen && hi >= x {
        hi
    } else {
        x
    };
    (nlo, nhi, true)
}

/// Line ranges covered by `ops` on each side: `(min, max)` of the line
/// numbers it touches, `(0, 0)` for an untouched side.
pub fn compute_ranges(ops: &[DiffOp]) -> (r: ((LineNo, LineNo), (LineNo, LineNo)))
    ensures
        r.0 == range_of(a_lines(ops@)),
        r.1 == range_of(b_lines(ops@)),
{
    let mut a_lo: LineNo = LineNo::MAX;
    let mut a_hi: LineNo = 0;
    let mut b_lo: LineNo = LineNo::MAX;
    let mut b_hi: LineNo = 0;
    let mut saw_a = false;
    let mut saw_b = false;
    let mut i: usize = 0;
    proof {
        assert(ops@.take(0) =~= Seq::<DiffOp>::empty());
    }
    while i < ops.len()
        invariant
            i <= ops.len(),
            saw_a == (a_lines(ops@.take(i as int)).len() > 0),
            saw_a ==> a_lo == seq_min(a_lines(ops@.take(i as int))) && a_hi == seq_max(
                a_lines(ops@.take(i as int)),
            ),
            saw_b == (b_lines(ops@.take(i as int)).len() > 0),
            saw_b ==> b_lo == seq_min(b_lines(ops@.take(i as int))) && b_hi == seq_max(
                b_lines(ops@.take(i as int)),
            ),
        decreases ops.len() - i,
    {
        proof {
            assert(ops@.take(i + 1) =~= ops@.take(i as int).push(ops@[i as int]));
            lemma_lines_push(ops@.take(i as int), ops@[i as int]);
            lemma_min_max_push(a_lines(ops@.take(i as int)), 0);
        }
        match &ops[i] {
            DiffOp::Equal { a, b, .. } => {
                proof {
                    lemma_min_max_push(a_lines(ops@.take(i as int)), *a);
                    lemma_min_max_push(b_lines(ops@.take(i as int)), *b);
                }
                let (x, y, z) = fold_line(a_lo, a_hi, saw_a, *a);
                a_lo = x;
                a_hi = y;
                saw_a = z;
                let (x, y, z) = fold_line(b_lo, b_hi, saw_b, *b);
                b_lo = x;
                b_hi = y;
                saw_b = z;
            },
            DiffOp::Delete { a, .. } => {
                proof {
                    lemma_min_max_push(a_lines(ops@.take(i as int)), *a);
                }
                let (x, y, z) = fold_line(a_lo, a_hi, saw_a, *a);
                a_lo = x;
                a_hi = y;
                saw_a = z;
            },
            DiffOp::Insert { b, .. } => {
                proof {
                    lemma_min_max_push(b_lines(ops@.take(i as int)), *b);
                }
                let (x, y, z) = fold_line(b_lo, b_hi, saw_b, *b);
                b_lo = x;
                b_hi = y;
                saw_b = z;
            },
        }
        i += 1;
    }
    proof {
        assert(ops@.take(ops.len() as int) =~= ops@);
    }
    let a = if saw_a {
        (a_lo, a_hi)
    } else {
        (0, 0)
    };
    let b = if saw_b {
        (b_lo, b_hi)
    } else {
        (0, 0)
    };
    (a, b)
}

proof fn lemma_hunk_ops_push(hunks: Seq<Hunk>, h: Hunk)
    ensures
        hunk_ops(hunks.push(h)) == hunk_ops(hunks) + h.ops@,
{
    assert(hunks.push(h).drop_last() =~= hunks);
}

/// Group a flat list of ops into hunks: each maximal run of equal ops, and
/// each maximal run of delete/insert ops, becomes one hunk, numbered in
/// order from zero.
pub fn group_into_hunks(ops: &[DiffOp]) -> (hunks: Vec<Hunk>)
    requires
        ops@.len() <= u32::MAX,
    ensures
        is_hunk_grouping(hunks@, ops@),
{
    let mut hunks: Vec<Hunk> = Vec::new();
    let mut next_id: u32 = 0;
    let mut i: usize = 0;
    proof {
        assert(ops@.take(0) =~= Seq::<DiffOp>::empty());
        assert(hunk_ops(hunks@) =~= ops@.take(0));
    }
    while i < ops.len()
        invariant
            i <= ops.len(),
            ops@.len() <= u32::MAX,
            next_id as int == hunks.len(),
            hunks.len() <= i,
            hunk_ops(hunks@) == ops@.take(i as int),
            forall|k: int| 0 <= k < hunks.len() ==> uniform((#[trigger] hunks@[k]).ops@),
            forall|k: int|
                0 <= k < hunks.len() - 1 ==> op_is_equal((#[trigger] hunks@[k]).ops@[0])
                    != op_is_equal(hunks@[k + 1].ops@[0]),
            forall|k: int| 0 <= k < hunks.len() ==> (#[trigger] hunks@[k]).id == k,
            forall|k: int|
                0 <= k < hunks.len() ==> (#[trigger] hunks@[k]).a_range == range_of(
                    a_lines(hunks@[k].ops@),
                ) && hunks@[k].b_range == range_of(b_lines(hunks@[k].ops@)),
            hunks.len() > 0 && i < ops.len() ==> op_is_equal(hunks@.last().ops@[0])
                != op_is_equal(ops@[i as int]),
        decreases ops.len() - i,
    {
        let is_equal = is_equal_op(&ops[i]);
        let mut chunk: Vec<DiffOp> = Vec::new();
        chunk.push(copy_op(&ops[i]));
        let mut j = i + 1;
        proof {
            assert(chunk@ =~= ops@.subrange(i as int, j as int));
        }
        while j < ops.len() && is_equal_op(&ops[j]) == is_equal
            invariant
                i < j <= ops.len(),
                is_equal == op_is_equal(ops@[i as int]),
                chunk@ == ops@.subrange(i as int, j as int),
                forall|k: int| i <= k < j ==> op_is_equal(#[trigger] ops@[k]) == is_equal,
            decreases ops.len() - j,
        {
            chunk.push(copy_op(&ops[j]));
            j += 1;
            proof {
                assert(chunk@ =~= ops@.subrange(i as int, j as int));
            }
        }
        let (a_range, b_range) = compute_ranges(chunk.as_slice());
        let ghost old_hunks = hunks@;
        let h = Hunk { id: next_id, a_range, b_range, ops: chunk };
        proof {
            lemma_hunk_ops_push(old_hunks, h);
            assert(ops@.take(j as int) =~= ops@.take(i as int) + ops@.subrange(i as int, j as int));
            assert(h.ops@[0] == ops@[i as int]);
            assert forall|k: int| 0 <= k < h.ops@.len() implies op_is_equal(#[trigger] h.ops@[k])
                == op_is_equal(h.ops@[0]) by {
                assert(h.ops@[k] == ops@[i + k]);
            }
        }
        hunks.push(h);
        next_id += 1;
        i = j;
    }
    proof {
        assert(ops@.take(ops.len() as int) =~= ops@);
    }
    hunks
}

/// The pieces of `s` between `'\n'` characters (always at least one).
pub open spec fn split_on_newline(s: Seq<char>) -> Seq<Seq<char>>
    decreases s.len(),
{
    if s.len() == 0 {
        seq![Seq::empty()]
    } else if s.last() == '\n' {
        split_on_newline(s.drop_last()).push(Seq::empty())
    } else {
        let p = split_on_newline(s.drop_last());
        p.drop_last().push(p.last().push(s.last()))
    }
}

/// The lines of `s`: its newline-separated pieces, without the empty piece
/// after a final newline; no lines for empty text.
pub open spec fn lines_of(s: Seq<char>) -> Seq<Seq<char>> {
    if s.len() == 0 {
        Seq::empty()
    } else if split_on_newline(s).last().len() == 0 {
        split_on_newline(s).drop_last()
    } else {
        split_on_newline(s)
    }
}

pub open spec fn strings_view(v: Seq<String>) -> Seq<Seq<char>> {
    v.map_values(|s: String| s@)
}

proof fn lemma_split_len(s: Seq<char>)
    ensures
        split_on_newline(s).len() >= 1,
    decreases s.len(),
{
    if s.len() > 0 {
        lemma_split_len(s.drop_last());
    }
}

/// Split text into lines, preserving order. The empty piece after a final
/// newline is dropped, as usual for line diffs.
pub fn split_lines(text: &str) -> (lines: Vec<String>)
    ensures
        strings_view(lines@) == lines_of(text@),
{
    let chars = crate::text::chars_of(text);
    if chars.len() == 0 {
        let v: Vec<String> = Vec::new();
        proof {
            assert(strings_view(v@) =~= lines_of(text@));
        }
        return v;
    }
    let mut done: Vec<String> = Vec::new();
    let mut cur = String::new();
    let mut i: usize = 0;
    proof {
        assert(chars@.take(0) =~= Seq::<char>::empty());
        assert(strings_view(done@).push(cur@) =~= split_on_newline(chars@.take(0)));
    }
    while i < chars.len()
        invariant
            i <= chars.len(),
            strings_view(done@).push(cur@) == split_on_newline(chars@.take(i as int)),
        decreases chars.len() - i,
    {
        let c = chars[i];
        let ghost prev = chars@.take(i as int);
        proof {
            assert(chars@.take(i + 1).drop_last() =~= prev);
            lemma_split_len(prev);
        }
        if c == '\n' {
            let mut piece = String::new();
            std::mem::swap(&mut piece, &mut cur);
            let ghost d0 = done@;
            done.push(piece);
            proof {
                assert(strings_view(done@) =~= strings_view(d0).push(piece@));
                assert(strings_view(done@).push(cur@) =~= split_on_newline(prev).push(
                    Seq::empty(),
                ));
            }
        } else {
            push_char(&mut cur, c);
            proof {
                let p = split_on_newline(prev);
                assert(strings_view(done@) =~= p.drop_last());
                assert(strings_view(done@).push(cur@) =~= p.drop_last().push(p.last().push(c)));
            }
        }
        i += 1;
    }
    proof {
        assert(chars@.take(chars.len() as int) =~= chars@);
    }
    let ghost d0 = done@;
    if !cur.as_str().is_empty() {
        done.push(cur);
        proof {
            assert(strings_view(done@) =~= strings_view(d0).push(cur@));
        }
    } else {
        proof {
            assert(cur@.len() == 0);
            assert(strings_view(done@) =~= split_on_newline(text@).drop_last());
        }
    }
    done
}

/// Lines joined back together with `'\n'` between them.
pub open spec fn join_lines(v: Seq<Seq<char>>) -> Seq<char>
    decreases v.len(),
{
    if v.len() == 0 {
        Seq::empty()
    } else if v.len() == 1 {
        v[0]
    } else {
        join_lines(v.drop_last()) + seq!['\n'] + v.last()
    }
}

proof fn lemma_split_join(s: Seq<char>)
    ensures
        join_lines(split_on_newline(s)) == s,
        forall|i: int|
            0 <= i < split_on_newline(s).len() ==> !(#[trigger] split_on_newline(s)[i]).contains(
                '\n',
            ),
        s.len() > 0 && s.last() != '\n' ==> split_on_newline(s).last().len() > 0,
    decreases s.len(),
{
    if s.len() > 0 {
        let p = split_on_newline(s.drop_last());
        lemma_split_join(s.drop_last());
        lemma_split_len(s.drop_last());
        let c = s.last();
        let r = split_on_newline(s);
        if c == '\n' {
            assert(r.drop_last() =~= p);
            assert(s =~= s.drop_last() + seq!['\n'] + Seq::<char>::empty());
            assert forall|i: int| 0 <= i < r.len() implies !(#[trigger] r[i]).contains('\n') by {
                if i < r.len() - 1 {
                    assert(r[i] == p[i]);
                } else {
                    assert(r[i] =~= Seq::<char>::empty());
                }
            }
        } else {
            let q = p.drop_last();
            assert(r.drop_last() =~= q);
            if p.len() == 1 {
                assert(s =~= p[0].push(c));
            } else {
                assert(p.drop_last() =~= q);
                assert(join_lines(p) == join_lines(q) + seq!['\n'] + p.last());
                assert(s =~= s.drop_last().push(c));
                assert(s =~= join_lines(q) + seq!['\n'] + p.last().push(c));
            }
            assert forall|i: int| 0 <= i < r.len() implies !(#[trigger] r[i]).contains('\n') by {
                if i < r.len() - 1 {
                    assert(r[i] == p[i]);
                } else {
                    assert(r[i] == p.last().push(c));
                    assert(!p[p.len() - 1].contains('\n'));
                    if r[i].contains('\n') {
                        let k = choose|k: int| 0 <= k < r[i].len() && r[i][k] == '\n';
                        assert(p.last()[k] == '\n');
                    }
                }
            }
        }
    } else {
        assert forall|i: int|
            0 <= i < split_on_newline(s).len() implies !(#[trigger] split_on_newline(
            s,
        )[i]).contains('\n') by {
            assert(split_on_newline(s)[i] =~= Seq::<char>::empty());
        }
    }
}

/// No line holds a newline, and joining the lines with newlines gives back
/// the text, up to its final newline.
pub proof fn lemma_lines_rejoin(s: Seq<char>)
    ensures
        forall|i: int| 0 <= i < lines_of(s).len() ==> !(#[trigger] lines_of(s)[i]).contains('\n'),
        s.len() > 0 && s.last() == '\n' ==> join_lines(lines_of(s)) + seq!['\n'] == s,
        !(s.len() > 0 && s.last() == '\n') ==> join_lines(lines_of(s)) == s,
{
    lemma_split_join(s);
    if s.len() > 0 {
        let r = split_on_newline(s);
        if s.last() == '\n' {
            lemma_split_join(s.drop_last());
            assert(r.drop_last() =~= split_on_newline(s.drop_last()));
            assert(r.last().len() == 0);
            assert(s =~= s.drop_last() + seq!['\n']);
            assert forall|i: int| 0 <= i < lines_of(s).len() implies !(#[trigger] lines_of(
                s,
            )[i]).contains('\n') by {
                assert(lines_of(s)[i] == r[i]);
            }
        }
    } else {
        assert(lines_of(s) =~= Seq::<Seq<char>>::empty());
    }
}

} // verus!
