//! Character-level diff between two strings via a longest common subsequence.
//!
//! Used to highlight the specific characters that changed between a paired
//! delete/insert line of a change hunk. Lines longer than `MAX_LEN` chars on
//! either side fall back to a whole-line delete + insert.

use vstd::prelude::*;

use crate::text::{chars_eq, chars_of, push_char, string_of_str};

verus! {

/// Per-side character cap above which no LCS is computed.
pub const MAX_LEN: usize = 600;

#[derive(Clone, Copy, PartialEq, Eq, Structural, Debug)]
pub enum CharKind {
    Equal,
    Del,
    Ins,
}

/// A maximal run of characters of one kind.
pub struct CharRun {
    pub kind: CharKind,
    pub text: String,
}

impl View for CharRun {
    type V = (CharKind, Seq<char>);

    open spec fn view(&self) -> (CharKind, Seq<char>) {
        (self.kind, self.text@)
    }
}

/// The abstract value of a run list.
pub open spec fn runs_view(runs: Seq<CharRun>) -> Seq<(CharKind, Seq<char>)> {
    runs.map_values(|r: CharRun| r@)
}

/// Characters of the old (left) side spelled by `runs`: every run but the insertions.
#[verifier::opaque]
pub open spec fn old_side(runs: Seq<(CharKind, Seq<char>)>) -> Seq<char>
    decreases runs.len(),
{
    if runs.len() == 0 {
        Seq::empty()
    } else {
        old_side(runs.drop_last()) + if runs.last().0 != CharKind::Ins {
            runs.last().1
        } else {
            Seq::empty()
        }
    }
}

/// Characters of the new (right) side spelled by `runs`: every run but the deletions.
#[verifier::opaque]
pub open spec fn new_side(runs: Seq<(CharKind, Seq<char>)>) -> Seq<char>
    decreases runs.len(),
{
    if runs.len() == 0 {
        Seq::empty()
    } else {
        new_side(runs.drop_last()) + if runs.last().0 != CharKind::Del {
            runs.last().1
        } else {
            Seq::empty()
        }
    }
}

/// Number of characters the two sides share in `runs`.
#[verifier::opaque]
pub open spec fn equal_count(runs: Seq<(CharKind, Seq<char>)>) -> nat
    decreases runs.len(),
{
    if runs.len() == 0 {
        0
    } else {
        equal_count(runs.drop_last()) + if runs.last().0 == CharKind::Equal {
            runs.last().1.len()
        } else {
            0
        }
    }
}

/// Every run holds text and no two neighbouring runs share a kind.
#[verifier::opaque]
pub open spec fn runs_well_formed(runs: Seq<(CharKind, Seq<char>)>) -> bool {
    &&& forall|i: int| 0 <= i < runs.len() ==> (#[trigger] runs[i]).1.len() > 0
    &&& forall|i: int| 0 <= i < runs.len() - 1 ==> (#[trigger] runs[i]).0 != runs[i + 1].0
}

/// Within a change, deletions come before insertions: no insertion run is
/// directly followed by a deletion run.
#[verifier::opaque]
pub open spec fn deletions_first(runs: Seq<(CharKind, Seq<char>)>) -> bool {
    forall|i: int|
        0 <= i < runs.len() - 1 && (#[trigger] runs[i]).0 == CharKind::Ins ==> runs[i + 1].0
            != CharKind::Del
}

pub open spec fn max_nat(x: nat, y: nat) -> nat {
    if x >= y {
        x
    } else {
        y
    }
}

/// Length of a longest common subsequence of `a` and `b`.
#[verifier::opaque]
pub open spec fn lcs_len(a: Seq<char>, b: Seq<char>) -> nat
    decreases a.len() + b.len(),
{
    if a.len() == 0 || b.len() == 0 {
        0
    } else if a[0] == b[0] {
        1 + lcs_len(a.drop_first(), b.drop_first())
    } else {
        max_nat(lcs_len(a.drop_first(), b), lcs_len(a, b.drop_first()))
    }
}

// ---------------------------------------------------------------------------
// Lemmas on the LCS length
// ---------------------------------------------------------------------------

proof fn lemma_lcs_le_len(a: Seq<char>, b: Seq<char>)
    ensures
        lcs_len(a, b) <= a.len(),
        lcs_len(a, b) <= b.len(),
    decreases a.len() + b.len(),
{
    reveal(lcs_len);
    if a.len() == 0 || b.len() == 0 {
    } else if a[0] == b[0] {
        lemma_lcs_le_len(a.drop_first(), b.drop_first());
    } else {
        lemma_lcs_le_len(a.drop_first(), b);
        lemma_lcs_le_len(a, b.drop_first());
    }
}

/// The recurrence, read at suffix positions `i` and `j`.
proof fn lemma_lcs_step(a: Seq<char>, b: Seq<char>, i: int, j: int)
    requires
        0 <= i < a.len(),
        0 <= j < b.len(),
    ensures
        lcs_len(a.skip(i), b.skip(j)) == if a[i] == b[j] {
            1 + lcs_len(a.skip(i + 1), b.skip(j + 1))
        } else {
            max_nat(lcs_len(a.skip(i + 1), b.skip(j)), lcs_len(a.skip(i), b.skip(j + 1)))
        },
{
    reveal(lcs_len);
    assert(a.skip(i).drop_first() =~= a.skip(i + 1));
    assert(b.skip(j).drop_first() =~= b.skip(j + 1));
}

proof fn lemma_lcs_self(a: Seq<char>)
    ensures
        lcs_len(a, a) == a.len(),
    decreases a.len(),
{
    reveal(lcs_len);
    if a.len() > 0 {
        lemma_lcs_self(a.drop_first());
    }
}

/// Dropping the first character of `b` loses at most one common character.
proof fn lemma_lcs_drop_b(a: Seq<char>, b: Seq<char>)
    requires
        b.len() > 0,
    ensures
        lcs_len(a, b.drop_first()) <= lcs_len(a, b),
        lcs_len(a, b) <= lcs_len(a, b.drop_first()) + 1,
    decreases a.len() + b.len(),
{
    reveal(lcs_len);
    if a.len() == 0 {
    } else if b.len() == 1 {
        lemma_lcs_le_len(a, b);
    } else if a[0] == b[0] {
        lemma_lcs_drop_a(a, b.drop_first());
    } else {
        lemma_lcs_drop_b(a.drop_first(), b);
        lemma_lcs_drop_a(a, b.drop_first());
    }
}

/// Dropping the first character of `a` loses at most one common character.
proof fn lemma_lcs_drop_a(a: Seq<char>, b: Seq<char>)
    requires
        a.len() > 0,
    ensures
        lcs_len(a.drop_first(), b) <= lcs_len(a, b),
        lcs_len(a, b) <= lcs_len(a.drop_first(), b) + 1,
    decreases a.len() + b.len(),
{
    reveal(lcs_len);
    if b.len() == 0 {
    } else if a.len() == 1 {
        lemma_lcs_le_len(a, b);
    } else if a[0] == b[0] {
        lemma_lcs_drop_b(a.drop_first(), b);
    } else {
        lemma_lcs_drop_a(a, b.drop_first());
        lemma_lcs_drop_b(a.drop_first(), b);
    }
}

// ---------------------------------------------------------------------------
// Lemmas on run lists
// ---------------------------------------------------------------------------

/// `runs` with one more character of kind `k` at the end: it joins the last
/// run when that run has the same kind, else it opens a new run.
pub open spec fn append_char(runs: Seq<(CharKind, Seq<char>)>, k: CharKind, c: char) -> Seq<
    (CharKind, Seq<char>),
> {
    if runs.len() > 0 && runs.last().0 == k {
        runs.drop_last().push((k, runs.last().1.push(c)))
    } else {
        runs.push((k, seq![c]))
    }
}

proof fn lemma_append_char(runs: Seq<(CharKind, Seq<char>)>, k: CharKind, c: char)
    requires
        runs_well_formed(runs),
    ensures
        runs_well_formed(append_char(runs, k, c)),
        old_side(append_char(runs, k, c)) == old_side(runs) + if k != CharKind::Ins {
            seq![c]
        } else {
            Seq::empty()
        },
        new_side(append_char(runs, k, c)) == new_side(runs) + if k != CharKind::Del {
            seq![c]
        } else {
            Seq::empty()
        },
        equal_count(append_char(runs, k, c)) == equal_count(runs) + if k == CharKind::Equal {
            1nat
        } else {
            0nat
        },
        append_char(runs, k, c).len() > 0,
        append_char(runs, k, c).last().0 == k,
{
    reveal(runs_well_formed);
    reveal(old_side);
    reveal(new_side);
    reveal(equal_count);
    let r = append_char(runs, k, c);
    if runs.len() > 0 && runs.last().0 == k {
        assert(r.drop_last() =~= runs.drop_last());
        assert(old_side(runs) == old_side(runs.drop_last()) + if runs.last().0
            != CharKind::Ins {
            runs.last().1
        } else {
            Seq::empty()
        });
        assert(runs.last().1.push(c) =~= runs.last().1 + seq![c]);
        if k != CharKind::Ins {
            assert(old_side(r) =~= old_side(runs) + seq![c]);
        } else {
            assert(old_side(r) =~= old_side(runs));
        }
        if k != CharKind::Del {
            assert(new_side(r) =~= new_side(runs) + seq![c]);
        } else {
            assert(new_side(r) =~= new_side(runs));
        }
        assert forall|i: int| 0 <= i < r.len() - 1 implies (#[trigger] r[i]).0 != r[i + 1].0 by {
            assert(r[i] == runs[i]);
            if i + 1 < r.len() - 1 {
                assert(r[i + 1] == runs[i + 1]);
            } else {
                assert(r[i + 1].0 == runs[i + 1].0);
            }
        }
        assert forall|i: int| 0 <= i < r.len() implies (#[trigger] r[i]).1.len() > 0 by {
            if i < r.len() - 1 {
                assert(r[i] == runs[i]);
            }
        }
    } else {
        assert(r.drop_last() =~= runs);
        if k != CharKind::Ins {
            assert(old_side(r) =~= old_side(runs) + seq![c]);
        } else {
            assert(old_side(r) =~= old_side(runs));
        }
        if k != CharKind::Del {
            assert(new_side(r) =~= new_side(runs) + seq![c]);
        } else {
            assert(new_side(r) =~= new_side(runs));
        }
        assert forall|i: int| 0 <= i < r.len() - 1 implies (#[trigger] r[i]).0 != r[i + 1].0 by {
            assert(r[i] == runs[i]);
            if i + 1 < r.len() - 1 {
                assert(r[i + 1] == runs[i + 1]);
            }
        }
        assert forall|i: int| 0 <= i < r.len() implies (#[trigger] r[i]).1.len() > 0 by {
            if i < r.len() - 1 {
                assert(r[i] == runs[i]);
            }
        }
    }
}

/// The run list described by the finished runs plus the run being collected.
pub open spec fn pending_runs(
    done: Seq<CharRun>,
    cur_kind: Option<CharKind>,
    cur_text: Seq<char>,
) -> Seq<(CharKind, Seq<char>)> {
    match cur_kind {
        Some(k) => runs_view(done).push((k, cur_text)),
        None => runs_view(done),
    }
}

pub open spec fn collector_ok(
    done: Seq<CharRun>,
    cur_kind: Option<CharKind>,
    cur_text: Seq<char>,
) -> bool {
    &&& cur_kind is None ==> done.len() == 0 && cur_text.len() == 0
    &&& runs_well_formed(pending_runs(done, cur_kind, cur_text))
}

/// Adds character `c` of kind `k` to the run collector.
fn collect(
    k: CharKind,
    c: char,
    runs: &mut Vec<CharRun>,
    cur_kind: &mut Option<CharKind>,
    cur_text: &mut String,
)
    requires
        collector_ok(old(runs)@, *old(cur_kind), old(cur_text)@),
    ensures
        collector_ok(final(runs)@, *final(cur_kind), final(cur_text)@),
        pending_runs(final(runs)@, *final(cur_kind), final(cur_text)@) == append_char(
            pending_runs(old(runs)@, *old(cur_kind), old(cur_text)@),
            k,
            c,
        ),
{
    let ghost before = pending_runs(runs@, *cur_kind, cur_text@);
    proof {
        lemma_append_char(before, k, c);
    }
    let same = match *cur_kind {
        Some(p) => p == k,
        None => false,
    };
    if same {
        push_char(cur_text, c);
        proof {
            assert(pending_runs(runs@, *cur_kind, cur_text@) =~= append_char(before, k, c));
        }
    } else {
        if let Some(prev) = *cur_kind {
            let mut t = String::new();
            std::mem::swap(&mut t, cur_text);
            let ghost done_before = runs@;
            runs.push(CharRun { kind: prev, text: t });
            proof {
                assert(runs_view(runs@) =~= runs_view(done_before).push((prev, t@)));
            }
        }
        *cur_kind = Some(k);
        push_char(cur_text, c);
        proof {
            assert(cur_text@ =~= seq![c]);
            assert(pending_runs(runs@, *cur_kind, cur_text@) =~= append_char(before, k, c));
        }
    }
}

/// Finishes the collector: the last run being collected joins the list.
fn finish(runs: &mut Vec<CharRun>, cur_kind: Option<CharKind>, cur_text: String)
    ensures
        runs_view(final(runs)@) == pending_runs(old(runs)@, cur_kind, cur_text@),
{
    if let Some(k) = cur_kind {
        let ghost done_before = runs@;
        runs.push(CharRun { kind: k, text: cur_text });
        proof {
            assert(runs_view(runs@) =~= runs_view(done_before).push((k, cur_text@)));
        }
    }
}

proof fn lemma_lcs_empty(a: Seq<char>, b: Seq<char>)
    requires
        a.len() == 0 || b.len() == 0,
    ensures
        lcs_len(a, b) == 0,
{
    reveal(lcs_len);
}

proof fn lemma_no_runs()
    ensures
        old_side(Seq::empty()) == Seq::<char>::empty(),
        new_side(Seq::empty()) == Seq::<char>::empty(),
        equal_count(Seq::empty()) == 0,
        runs_well_formed(Seq::empty()),
        deletions_first(Seq::empty()),
{
    reveal(runs_well_formed);
    reveal(deletions_first);
    reveal(old_side);
    reveal(new_side);
    reveal(equal_count);
}

proof fn lemma_one_run(k: CharKind, t: Seq<char>)
    ensures
        old_side(seq![(k, t)]) == if k != CharKind::Ins {
            t
        } else {
            Seq::empty()
        },
        new_side(seq![(k, t)]) == if k != CharKind::Del {
            t
        } else {
            Seq::empty()
        },
        equal_count(seq![(k, t)]) == if k == CharKind::Equal {
            t.len()
        } else {
            0
        },
        deletions_first(seq![(k, t)]),
        t.len() > 0 ==> runs_well_formed(seq![(k, t)]),
{
    reveal(runs_well_formed);
    reveal(deletions_first);
    reveal(old_side);
    reveal(new_side);
    reveal(equal_count);
    let r = seq![(k, t)];
    assert(r.drop_last() =~= Seq::<(CharKind, Seq<char>)>::empty());
    assert(old_side(r.drop_last()) == Seq::<char>::empty());
    assert(new_side(r.drop_last()) == Seq::<char>::empty());
    assert(equal_count(r.drop_last()) == 0);
    assert(old_side(r) =~= old_side(r.drop_last()) + if k != CharKind::Ins {
        t
    } else {
        Seq::empty()
    });
    assert(new_side(r) =~= new_side(r.drop_last()) + if k != CharKind::Del {
        t
    } else {
        Seq::empty()
    });
}

#[verifier::spinoff_prover]
#[verifier::rlimit(40)]
proof fn lemma_del_ins(a: Seq<char>, b: Seq<char>)
    ensures
        old_side(seq![(CharKind::Del, a), (CharKind::Ins, b)]) == a,
        new_side(seq![(CharKind::Del, a), (CharKind::Ins, b)]) == b,
        deletions_first(seq![(CharKind::Del, a), (CharKind::Ins, b)]),
        a.len() > 0 && b.len() > 0 ==> runs_well_formed(seq![(CharKind::Del, a), (CharKind::Ins, b)]),
{
    reveal(runs_well_formed);
    reveal(deletions_first);
    reveal(old_side);
    reveal(new_side);
    reveal(equal_count);
    let r = seq![(CharKind::Del, a), (CharKind::Ins, b)];
    assert(r.drop_last() =~= seq![(CharKind::Del, a)]);
    lemma_one_run(CharKind::Del, a);
    assert(old_side(r) =~= a);
    assert(new_side(r) =~= b);
}

fn single_run(kind: CharKind, s: &str) -> (runs: Vec<CharRun>)
    ensures
        runs_view(runs@) == seq![(kind, s@)],
{
    let mut runs: Vec<CharRun> = Vec::new();
    runs.push(CharRun { kind, text: string_of_str(s) });
    proof {
        assert(runs_view(runs@) =~= seq![(kind, s@)]);
    }
    runs
}

/// `rows[a.len() - i][j]` holds the LCS length of `a[i..]` and `b[j..]`.
#[verifier::opaque]
pub open spec fn table_ok(a: Seq<char>, b: Seq<char>, rows: Seq<Vec<u32>>) -> bool {
    &&& rows.len() == a.len() + 1
    &&& forall|k: int| 0 <= k <= a.len() ==> (#[trigger] rows[k]).len() == b.len() + 1
    &&& forall|k: int, j: int|
        0 <= k <= a.len() && 0 <= j <= b.len() ==> (#[trigger] rows[k][j]) == lcs_len(
            a.skip(a.len() - k),
            b.skip(j),
        )
}

proof fn lemma_table_entry(a: Seq<char>, b: Seq<char>, rows: Seq<Vec<u32>>, i: int, j: int)
    requires
        table_ok(a, b, rows),
        0 <= i <= a.len(),
        0 <= j <= b.len(),
    ensures
        rows.len() == a.len() + 1,
        rows[a.len() - i].len() == b.len() + 1,
        rows[a.len() - i][j] == lcs_len(a.skip(i), b.skip(j)),
{
    reveal(table_ok);
    assert(a.len() - (a.len() - i) == i);
}

/// The table of LCS lengths: `rows[m - i][j]` is the LCS length of
/// `a[i..]` and `b[j..]`.
fn lcs_table(av: &Vec<char>, bv: &Vec<char>) -> (rows: Vec<Vec<u32>>)
    requires
        av.len() <= MAX_LEN,
        bv.len() <= MAX_LEN,
    ensures
        table_ok(av@, bv@, rows@),
{
    let m = av.len();
    let n = bv.len();
    let mut rows: Vec<Vec<u32>> = Vec::new();
    // Row for i == m: every entry is zero.
    let mut last: Vec<u32> = Vec::new();
    let mut j: usize = 0;
    while j <= n
        invariant
            j <= n + 1,
            n == bv.len(),
            m == av.len(),
            n <= MAX_LEN,
            last.len() == j,
            forall|x: int| 0 <= x < j ==> (#[trigger] last[x]) == 0,
        decreases n + 1 - j,
    {
        last.push(0);
        j += 1;
    }
    proof {
        assert forall|x: int| 0 <= x <= n implies (#[trigger] last[x]) == lcs_len(
            av@.skip(m - 0),
            bv@.skip(x),
        ) by {
            lemma_lcs_empty(av@.skip(m as int), bv@.skip(x));
        }
    }
    rows.push(last);
    let mut i: usize = m;
    while i > 0
        invariant
            i <= m,
            n == bv.len(),
            m == av.len(),
            m <= MAX_LEN,
            n <= MAX_LEN,
            rows.len() == m - i + 1,
            forall|k: int| 0 <= k <= m - i ==> (#[trigger] rows[k]).len() == n + 1,
            forall|k: int, x: int|
                0 <= k <= m - i && 0 <= x <= n ==> (#[trigger] rows[k][x]) == lcs_len(
                    av@.skip(m - k),
                    bv@.skip(x),
                ),
        decreases i,
    {
        let ii = i - 1;
        let next = &rows[m - i];
        let mut cur: Vec<u32> = Vec::new();
        let mut z: usize = 0;
        while z <= n
            invariant
                z <= n + 1,
                n <= MAX_LEN,
                cur.len() == z,
                forall|x: int| 0 <= x < z ==> (#[trigger] cur[x]) == 0,
            decreases n + 1 - z,
        {
            cur.push(0);
            z += 1;
        }
        proof {
            lemma_lcs_empty(av@.skip(ii as int), bv@.skip(n as int));
        }
        let mut jj: usize = n;
        while jj > 0
            invariant
                jj <= n,
                ii < m,
                n == bv.len(),
                m == av.len(),
                m <= MAX_LEN,
                n <= MAX_LEN,
                cur.len() == n + 1,
                next.len() == n + 1,
                forall|x: int|
                    0 <= x <= n ==> (#[trigger] next[x]) == lcs_len(
                        av@.skip(ii + 1),
                        bv@.skip(x),
                    ),
                forall|x: int|
                    jj <= x <= n ==> (#[trigger] cur[x]) == lcs_len(av@.skip(ii as int), bv@.skip(x)),
            decreases jj,
        {
            let j0 = jj - 1;
            proof {
                lemma_lcs_step(av@, bv@, ii as int, j0 as int);
                lemma_lcs_le_len(av@.skip(ii + 1), bv@.skip(j0 + 1));
                lemma_lcs_le_len(av@.skip(ii as int), bv@.skip(j0 as int));
            }
            let v = if av[ii] == bv[j0] {
                next[j0 + 1] + 1
            } else {
                let down = next[j0];
                let right = cur[j0 + 1];
                if down >= right {
                    down
                } else {
                    right
                }
            };
            cur.set(j0, v);
            jj = j0;
        }
        proof {
            assert forall|x: int| 0 <= x <= n implies (#[trigger] cur[x]) == lcs_len(
                av@.skip(m - (m - ii)),
                bv@.skip(x),
            ) by {
                assert(m - (m - ii) == ii);
            }
        }
        rows.push(cur);
        i = ii;
    }
    proof {
        reveal(table_ok);
    }
    rows
}

/// Everything `char_diff(a, b)` states of its runs, in one predicate.
pub open spec fn is_char_diff(a: Seq<char>, b: Seq<char>, runs: Seq<(CharKind, Seq<char>)>) -> bool {
    &&& runs_well_formed(runs)
    &&& old_side(runs) == a
    &&& new_side(runs) == b
    &&& a == b ==> runs == if a.len() == 0 {
        Seq::<(CharKind, Seq<char>)>::empty()
    } else {
        seq![(CharKind::Equal, a)]
    }
    &&& a != b && a.len() == 0 ==> runs == seq![(CharKind::Ins, b)]
    &&& a != b && a.len() > 0 && b.len() == 0 ==> runs == seq![(CharKind::Del, a)]
    &&& a != b && a.len() > 0 && b.len() > 0 && (a.len() > MAX_LEN || b.len() > MAX_LEN) ==> runs
        == seq![(CharKind::Del, a), (CharKind::Ins, b)]
    &&& a.len() <= MAX_LEN && b.len() <= MAX_LEN ==> equal_count(runs) == lcs_len(a, b)
    &&& a.len() <= MAX_LEN && b.len() <= MAX_LEN ==> deletions_first(runs)
}

/// The clauses of `char_diff`'s contract, gathered into `is_char_diff`.
pub proof fn lemma_is_char_diff(a: Seq<char>, b: Seq<char>, runs: Seq<(CharKind, Seq<char>)>)
    requires
        runs_well_formed(runs),
        old_side(runs) == a,
        new_side(runs) == b,
        a == b ==> runs == if a.len() == 0 {
            Seq::<(CharKind, Seq<char>)>::empty()
        } else {
            seq![(CharKind::Equal, a)]
        },
        a != b && a.len() == 0 ==> runs == seq![(CharKind::Ins, b)],
        a != b && a.len() > 0 && b.len() == 0 ==> runs == seq![(CharKind::Del, a)],
        a != b && a.len() > 0 && b.len() > 0 && (a.len() > MAX_LEN || b.len() > MAX_LEN) ==> runs
            == seq![(CharKind::Del, a), (CharKind::Ins, b)],
        a.len() <= MAX_LEN && b.len() <= MAX_LEN ==> equal_count(runs) == lcs_len(a, b),
        a.len() <= MAX_LEN && b.len() <= MAX_LEN ==> deletions_first(runs),
    ensures
        is_char_diff(a, b, runs),
{
}

/// Whatever two strings are diffed, the runs are empty exactly when both
/// strings are, every run holds at least one character, neighbouring runs
/// differ in kind, and no insertion run is directly followed by a deletion
/// run.
#[verifier::spinoff_prover]
#[verifier::rlimit(40)]
pub proof fn lemma_char_diff_shape(a: Seq<char>, b: Seq<char>, runs: Seq<(CharKind, Seq<char>)>)
    requires
        is_char_diff(a, b, runs),
    ensures
        runs.len() == 0 <==> a.len() == 0 && b.len() == 0,
        forall|i: int| 0 <= i < runs.len() ==> (#[trigger] runs[i]).1.len() > 0,
        forall|i: int| 0 <= i < runs.len() - 1 ==> (#[trigger] runs[i]).0 != runs[i + 1].0,
        forall|i: int|
            0 <= i < runs.len() - 1 ==> !((#[trigger] runs[i]).0 == CharKind::Ins && runs[i + 1].0
                == CharKind::Del),
{
    reveal(runs_well_formed);
    if runs.len() == 0 {
        assert(old_side(runs) == Seq::<char>::empty()) by {
            reveal(old_side);
        }
        assert(new_side(runs) == Seq::<char>::empty()) by {
            reveal(new_side);
        }
    }
    if a.len() == 0 && b.len() == 0 {
        assert(a =~= b);
    }
    if a.len() <= MAX_LEN && b.len() <= MAX_LEN {
        assert(deletions_first(runs));
        assert forall|i: int| 0 <= i < runs.len() - 1 implies !((#[trigger] runs[i]).0
            == CharKind::Ins && runs[i + 1].0 == CharKind::Del) by {
            reveal(deletions_first);
        }
    } else if a != b && a.len() > 0 && b.len() > 0 {
        assert forall|i: int| 0 <= i < runs.len() - 1 implies !((#[trigger] runs[i]).0
            == CharKind::Ins && runs[i + 1].0 == CharKind::Del) by {
            assert(i == 0);
        }
    }
}

/// Character-level diff of `a` against `b`, as maximal runs of equal, deleted
/// and inserted characters. Within the length cap, the runs are those of
/// `edit_script`: a longest common subsequence, a deletion chosen over an
/// insertion when both keep one.
pub fn char_diff(a: &str, b: &str) -> (runs: Vec<CharRun>)
    ensures
        runs_well_formed(runs_view(runs@)),
        old_side(runs_view(runs@)) == a@,
        new_side(runs_view(runs@)) == b@,
        a@ == b@ ==> runs_view(runs@) == if a@.len() == 0 {
            Seq::<(CharKind, Seq<char>)>::empty()
        } else {
            seq![(CharKind::Equal, a@)]
        },
        a@ != b@ && a@.len() == 0 ==> runs_view(runs@) == seq![(CharKind::Ins, b@)],
        a@ != b@ && a@.len() > 0 && b@.len() == 0 ==> runs_view(runs@) == seq![
            (CharKind::Del, a@),
        ],
        a@ != b@ && a@.len() > 0 && b@.len() > 0 && (a@.len() > MAX_LEN || b@.len() > MAX_LEN)
            ==> runs_view(runs@) == seq![(CharKind::Del, a@), (CharKind::Ins, b@)],
        a@.len() <= MAX_LEN && b@.len() <= MAX_LEN ==> equal_count(runs_view(runs@)) == lcs_len(
            a@,
            b@,
        ),
        a@.len() <= MAX_LEN && b@.len() <= MAX_LEN ==> deletions_first(runs_view(runs@)),
        a@ != b@ && 0 < a@.len() <= MAX_LEN && 0 < b@.len() <= MAX_LEN ==> runs_view(runs@)
            == diff_runs(a@, b@),
{
    let av = chars_of(a);
    let bv = chars_of(b);
    if chars_eq(&av, &bv) {
        if av.len() == 0 {
            let runs: Vec<CharRun> = Vec::new();
            proof {
                assert(runs_view(runs@) =~= Seq::<(CharKind, Seq<char>)>::empty());
                lemma_no_runs();
                lemma_lcs_empty(a@, b@);
            }
            return runs;
        } else {
            let runs = single_run(CharKind::Equal, a);
            proof {
                assert(a@.len() > 0);
                lemma_lcs_self(a@);
                lemma_one_run(CharKind::Equal, a@);
            }
            return runs;
        }
    }
    if av.len() == 0 {
        let runs = single_run(CharKind::Ins, b);
        proof {
            if b@.len() == 0 {
                assert(av@ =~= bv@);
            }
            lemma_lcs_empty(a@, b@);
            lemma_one_run(CharKind::Ins, b@);
        }
        return runs;
    }
    if bv.len() == 0 {
        let runs = single_run(CharKind::Del, a);
        proof {
            assert(a@.len() > 0);
            lemma_lcs_empty(a@, b@);
            lemma_one_run(CharKind::Del, a@);
        }
        return runs;
    }
    if av.len() > MAX_LEN || bv.len() > MAX_LEN {
        let mut runs = single_run(CharKind::Del, a);
        let ghost first = runs@;
        runs.push(CharRun { kind: CharKind::Ins, text: string_of_str(b) });
        proof {
            assert(runs_view(runs@) =~= runs_view(first).push((CharKind::Ins, b@)));
            assert(runs_view(runs@) =~= seq![(CharKind::Del, a@), (CharKind::Ins, b@)]);
            lemma_del_ins(a@, b@);
        }
        return runs;
    }
    let rows = lcs_table(&av, &bv);
    trace_back(&av, &bv, &rows)
}

/// The character-by-character edit script the diff follows: matching first
/// characters are kept; otherwise the first character of `a` is deleted
/// when doing so keeps a longest common subsequence at least as long as
/// inserting the first character of `b` would, else that character is
/// inserted; what is left of either side once the other is used up is
/// deleted or inserted.
pub open spec fn edit_script(a: Seq<char>, b: Seq<char>) -> Seq<(CharKind, char)>
    decreases a.len() + b.len(),
{
    if a.len() == 0 {
        b.map_values(|c: char| (CharKind::Ins, c))
    } else if b.len() == 0 {
        a.map_values(|c: char| (CharKind::Del, c))
    } else if a[0] == b[0] {
        seq![(CharKind::Equal, a[0])] + edit_script(a.drop_first(), b.drop_first())
    } else if lcs_len(a.drop_first(), b) >= lcs_len(a, b.drop_first()) {
        seq![(CharKind::Del, a[0])] + edit_script(a.drop_first(), b)
    } else {
        seq![(CharKind::Ins, b[0])] + edit_script(a, b.drop_first())
    }
}

/// The runs an edit script makes: each step joins the run before it when
/// their kinds match.
pub open spec fn group_script(s: Seq<(CharKind, char)>) -> Seq<(CharKind, Seq<char>)>
    decreases s.len(),
{
    if s.len() == 0 {
        Seq::empty()
    } else {
        append_char(group_script(s.drop_last()), s.last().0, s.last().1)
    }
}

/// The runs the diff gives for `a` against `b` when it aligns them.
pub open spec fn diff_runs(a: Seq<char>, b: Seq<char>) -> Seq<(CharKind, Seq<char>)> {
    group_script(edit_script(a, b))
}

proof fn lemma_script_step(a: Seq<char>, b: Seq<char>, i: int, j: int)
    requires
        0 <= i <= a.len(),
        0 <= j <= b.len(),
        i < a.len() || j < b.len(),
    ensures
        edit_script(a.skip(i), b.skip(j)) == if i == a.len() {
            seq![(CharKind::Ins, b[j])] + edit_script(a.skip(i), b.skip(j + 1))
        } else if j == b.len() {
            seq![(CharKind::Del, a[i])] + edit_script(a.skip(i + 1), b.skip(j))
        } else if a[i] == b[j] {
            seq![(CharKind::Equal, a[i])] + edit_script(a.skip(i + 1), b.skip(j + 1))
        } else if lcs_len(a.skip(i + 1), b.skip(j)) >= lcs_len(a.skip(i), b.skip(j + 1)) {
            seq![(CharKind::Del, a[i])] + edit_script(a.skip(i + 1), b.skip(j))
        } else {
            seq![(CharKind::Ins, b[j])] + edit_script(a.skip(i), b.skip(j + 1))
        },
{
    let x = a.skip(i);
    let y = b.skip(j);
    if i < a.len() {
        assert(x.drop_first() =~= a.skip(i + 1));
        assert(x[0] == a[i]);
    }
    if j < b.len() {
        assert(y.drop_first() =~= b.skip(j + 1));
        assert(y[0] == b[j]);
    }
    if i == a.len() {
        assert(x.len() == 0);
        assert(y.map_values(|c: char| (CharKind::Ins, c)) =~= seq![(CharKind::Ins, b[j])]
            + b.skip(j + 1).map_values(|c: char| (CharKind::Ins, c)));
        assert(a.skip(i).len() == 0);
    } else if j == b.len() {
        assert(y.len() == 0);
        assert(x.map_values(|c: char| (CharKind::Del, c)) =~= seq![(CharKind::Del, a[i])]
            + a.skip(i + 1).map_values(|c: char| (CharKind::Del, c)));
        assert(b.skip(j).len() == 0);
    }
}

proof fn lemma_group_push(p: Seq<(CharKind, char)>, k: CharKind, c: char)
    ensures
        group_script(p.push((k, c))) == append_char(group_script(p), k, c),
{
    assert(p.push((k, c)).drop_last() =~= p);
}

/// Walks the LCS table from the top-left corner and emits the runs.
fn trace_back(av: &Vec<char>, bv: &Vec<char>, rows: &Vec<Vec<u32>>) -> (runs: Vec<CharRun>)
    requires
        av.len() <= MAX_LEN,
        bv.len() <= MAX_LEN,
        table_ok(av@, bv@, rows@),
    ensures
        runs_well_formed(runs_view(runs@)),
        old_side(runs_view(runs@)) == av@,
        new_side(runs_view(runs@)) == bv@,
        equal_count(runs_view(runs@)) == lcs_len(av@, bv@),
        deletions_first(runs_view(runs@)),
        runs_view(runs@) == diff_runs(av@, bv@),
{
    let m = av.len();
    let n = bv.len();
    let mut runs: Vec<CharRun> = Vec::new();
    let mut cur_kind: Option<CharKind> = None;
    let mut cur_text = String::new();
    let mut i: usize = 0;
    let mut j: usize = 0;
    let ghost mut script: Seq<(CharKind, char)> = Seq::empty();
    proof {
        assert(av@.skip(0) =~= av@);
        assert(bv@.skip(0) =~= bv@);
        assert(pending_runs(runs@, cur_kind, cur_text@) =~= Seq::<(CharKind, Seq<char>)>::empty());
        lemma_no_runs();
        assert(av@.take(0) =~= Seq::<char>::empty());
        assert(bv@.take(0) =~= Seq::<char>::empty());
        assert(group_script(script) =~= Seq::<(CharKind, Seq<char>)>::empty());
        assert(script + edit_script(av@.skip(0), bv@.skip(0)) =~= edit_script(av@, bv@));
    }
    while i < m && j < n
        invariant
            m == av.len(),
            n == bv.len(),
            i <= m,
            j <= n,
            table_ok(av@, bv@, rows@),
            collector_ok(runs@, cur_kind, cur_text@),
            pending_runs(runs@, cur_kind, cur_text@) == group_script(script),
            script + edit_script(av@.skip(i as int), bv@.skip(j as int)) == edit_script(av@, bv@),
            old_side(pending_runs(runs@, cur_kind, cur_text@)) == av@.take(i as int),
            new_side(pending_runs(runs@, cur_kind, cur_text@)) == bv@.take(j as int),
            equal_count(pending_runs(runs@, cur_kind, cur_text@)) + lcs_len(
                av@.skip(i as int),
                bv@.skip(j as int),
            ) == lcs_len(av@, bv@),
            deletions_first(pending_runs(runs@, cur_kind, cur_text@)),
            cur_kind == Some(CharKind::Ins) ==> lcs_len(av@.skip(i as int), bv@.skip(j as int))
                == lcs_len(av@.skip(i as int), bv@.skip(j - 1)) && j > 0 && lcs_len(
                av@.skip(i + 1),
                bv@.skip(j - 1),
            ) < lcs_len(av@.skip(i as int), bv@.skip(j - 1)),
        decreases m - i + n - j,
    {
        let ghost before = pending_runs(runs@, cur_kind, cur_text@);
        proof {
            lemma_lcs_step(av@, bv@, i as int, j as int);
            lemma_table_entry(av@, bv@, rows@, i + 1, j as int);
            lemma_table_entry(av@, bv@, rows@, i as int, j + 1);
            assert(av@.take(i + 1) =~= av@.take(i as int).push(av@[i as int]));
            assert(bv@.take(j + 1) =~= bv@.take(j as int).push(bv@[j as int]));
        }
        if av[i] == bv[j] {
            collect(CharKind::Equal, av[i], &mut runs, &mut cur_kind, &mut cur_text);
            proof {
                lemma_append_char(before, CharKind::Equal, av@[i as int]);
                lemma_deletions_first_append(before, CharKind::Equal, av@[i as int]);
                lemma_script_step(av@, bv@, i as int, j as int);
                lemma_group_push(script, CharKind::Equal, av@[i as int]);
                script = script.push((CharKind::Equal, av@[i as int]));
            }
            i += 1;
            j += 1;
        } else if rows[m - (i + 1)][j] >= rows[m - i][j + 1] {
            proof {
                if cur_kind == Some(CharKind::Ins) {
                    // After an insertion a deletion never wins the tie.
                    lemma_lcs_drop_b(av@.skip(i + 1), bv@.skip(j - 1));
                    assert(bv@.skip(j - 1).drop_first() =~= bv@.skip(j as int));
                    lemma_lcs_step(av@, bv@, i as int, j - 1);
                    assert(false);
                }
            }
            collect(CharKind::Del, av[i], &mut runs, &mut cur_kind, &mut cur_text);
            proof {
                lemma_append_char(before, CharKind::Del, av@[i as int]);
                lemma_deletions_first_append(before, CharKind::Del, av@[i as int]);
                lemma_script_step(av@, bv@, i as int, j as int);
                lemma_group_push(script, CharKind::Del, av@[i as int]);
                script = script.push((CharKind::Del, av@[i as int]));
            }
            i += 1;
        } else {
            collect(CharKind::Ins, bv[j], &mut runs, &mut cur_kind, &mut cur_text);
            proof {
                lemma_append_char(before, CharKind::Ins, bv@[j as int]);
                lemma_deletions_first_append(before, CharKind::Ins, bv@[j as int]);
                lemma_script_step(av@, bv@, i as int, j as int);
                lemma_group_push(script, CharKind::Ins, bv@[j as int]);
                script = script.push((CharKind::Ins, bv@[j as int]));
                assert(bv@.skip(j + 1 - 1) =~= bv@.skip(j as int));
            }
            j += 1;
        }
    }
    proof {
        lemma_lcs_empty(av@.skip(i as int), bv@.skip(j as int));
    }
    while i < m
        invariant
            m == av.len(),
            n == bv.len(),
            i <= m,
            j <= n,
            i < m ==> j == n,
            collector_ok(runs@, cur_kind, cur_text@),
            pending_runs(runs@, cur_kind, cur_text@) == group_script(script),
            script + edit_script(av@.skip(i as int), bv@.skip(j as int)) == edit_script(av@, bv@),
            old_side(pending_runs(runs@, cur_kind, cur_text@)) == av@.take(i as int),
            new_side(pending_runs(runs@, cur_kind, cur_text@)) == bv@.take(j as int),
            equal_count(pending_runs(runs@, cur_kind, cur_text@)) == lcs_len(av@, bv@),
            deletions_first(pending_runs(runs@, cur_kind, cur_text@)),
            cur_kind == Some(CharKind::Ins) ==> i == m,
        decreases m - i,
    {
        let ghost before = pending_runs(runs@, cur_kind, cur_text@);
        proof {
            assert(av@.take(i + 1) =~= av@.take(i as int).push(av@[i as int]));
        }
        collect(CharKind::Del, av[i], &mut runs, &mut cur_kind, &mut cur_text);
        proof {
            lemma_append_char(before, CharKind::Del, av@[i as int]);
            lemma_deletions_first_append(before, CharKind::Del, av@[i as int]);
                lemma_script_step(av@, bv@, i as int, j as int);
                lemma_group_push(script, CharKind::Del, av@[i as int]);
                script = script.push((CharKind::Del, av@[i as int]));
        }
        i += 1;
    }
    while j < n
        invariant
            m == av.len(),
            n == bv.len(),
            i == m,
            j <= n,
            collector_ok(runs@, cur_kind, cur_text@),
            pending_runs(runs@, cur_kind, cur_text@) == group_script(script),
            script + edit_script(av@.skip(i as int), bv@.skip(j as int)) == edit_script(av@, bv@),
            old_side(pending_runs(runs@, cur_kind, cur_text@)) == av@.take(i as int),
            new_side(pending_runs(runs@, cur_kind, cur_text@)) == bv@.take(j as int),
            equal_count(pending_runs(runs@, cur_kind, cur_text@)) == lcs_len(av@, bv@),
            deletions_first(pending_runs(runs@, cur_kind, cur_text@)),
        decreases n - j,
    {
        let ghost before = pending_runs(runs@, cur_kind, cur_text@);
        proof {
            assert(bv@.take(j + 1) =~= bv@.take(j as int).push(bv@[j as int]));
        }
        collect(CharKind::Ins, bv[j], &mut runs, &mut cur_kind, &mut cur_text);
        proof {
            lemma_append_char(before, CharKind::Ins, bv@[j as int]);
            lemma_deletions_first_append(before, CharKind::Ins, bv@[j as int]);
                lemma_script_step(av@, bv@, i as int, j as int);
                lemma_group_push(script, CharKind::Ins, bv@[j as int]);
                script = script.push((CharKind::Ins, bv@[j as int]));
        }
        j += 1;
    }
    proof {
        assert(av@.take(m as int) =~= av@);
        assert(bv@.take(n as int) =~= bv@);
        assert(av@.skip(m as int).len() == 0);
        assert(bv@.skip(n as int).len() == 0);
        assert(edit_script(av@.skip(m as int), bv@.skip(n as int)) =~= Seq::<(CharKind, char)>::empty());
        assert(script =~= script + edit_script(av@.skip(m as int), bv@.skip(n as int)));
    }
    finish(&mut runs, cur_kind, cur_text);
    runs
}

proof fn lemma_deletions_first_append(runs: Seq<(CharKind, Seq<char>)>, k: CharKind, c: char)
    requires
        deletions_first(runs),
        k == CharKind::Del ==> !(runs.len() > 0 && runs.last().0 == CharKind::Ins),
    ensures
        deletions_first(append_char(runs, k, c)),
{
    reveal(deletions_first);
    let r = append_char(runs, k, c);
    if runs.len() > 0 && runs.last().0 == k {
        assert(r.len() == runs.len());
        assert forall|x: int| 0 <= x < r.len() implies (#[trigger] r[x]).0 == runs[x].0 by {}
    } else {
        assert(r.len() == runs.len() + 1);
        assert forall|x: int| 0 <= x < runs.len() implies (#[trigger] r[x]) == runs[x] by {}
        assert(r[runs.len() as int].0 == k);
    }
}

// ---------------------------------------------------------------------------
// Per-side segments
// ---------------------------------------------------------------------------

/// A piece of one side's text and whether it is highlighted as changed.
#[derive(Clone)]
pub struct Segment {
    pub text: String,
    pub hl: bool,
}

impl View for Segment {
    type V = (Seq<char>, bool);

    open spec fn view(&self) -> (Seq<char>, bool) {
        (self.text@, self.hl)
    }
}

pub open spec fn segments_view(segs: Seq<Segment>) -> Seq<(Seq<char>, bool)> {
    segs.map_values(|s: Segment| s@)
}

/// The segments of the side that omits runs of kind `skip`; runs of kind
/// `mark` are highlighted.
pub open spec fn side_segments(runs: Seq<(CharKind, Seq<char>)>, skip: CharKind, mark: CharKind) -> Seq<
    (Seq<char>, bool),
>
    decreases runs.len(),
{
    if runs.len() == 0 {
        Seq::empty()
    } else if runs.last().0 == skip {
        side_segments(runs.drop_last(), skip, mark)
    } else {
        side_segments(runs.drop_last(), skip, mark).push((runs.last().1, runs.last().0 == mark))
    }
}

/// The text spelled by a list of segments.
pub open spec fn segments_text(segs: Seq<(Seq<char>, bool)>) -> Seq<char>
    decreases segs.len(),
{
    if segs.len() == 0 {
        Seq::empty()
    } else {
        segments_text(segs.drop_last()) + segs.last().0
    }
}

fn side_segments_exec(runs: &[CharRun], skip: CharKind, mark: CharKind) -> (segs: Vec<Segment>)
    ensures
        segments_view(segs@) == side_segments(runs_view(runs@), skip, mark),
{
    let mut segs: Vec<Segment> = Vec::new();
    let mut i: usize = 0;
    while i < runs.len()
        invariant
            i <= runs.len(),
            segments_view(segs@) == side_segments(runs_view(runs@.take(i as int)), skip, mark),
        decreases runs.len() - i,
    {
        let ghost before = segs@;
        let r = &runs[i];
        proof {
            assert(runs_view(runs@.take(i + 1)).drop_last() =~= runs_view(runs@.take(i as int)));
            assert(runs_view(runs@.take(i + 1)).last() == runs@[i as int]@);
        }
        if r.kind != skip {
            segs.push(Segment { text: r.text.clone(), hl: r.kind == mark });
            proof {
                assert(segments_view(segs@) =~= segments_view(before).push(
                    (runs@[i as int].text@, runs@[i as int].kind == mark),
                ));
            }
        }
        i += 1;
    }
    proof {
        assert(runs@.take(runs.len() as int) =~= runs@);
    }
    segs
}

/// Segments for the left/delete side of a paired change: every run but the
/// insertions, with deletions highlighted.
pub fn left_segments(runs: &[CharRun]) -> (segs: Vec<Segment>)
    ensures
        segments_view(segs@) == side_segments(runs_view(runs@), CharKind::Ins, CharKind::Del),
{
    side_segments_exec(runs, CharKind::Ins, CharKind::Del)
}

/// Segments for the right/insert side of a paired change: every run but the
/// deletions, with insertions highlighted.
pub fn right_segments(runs: &[CharRun]) -> (segs: Vec<Segment>)
    ensures
        segments_view(segs@) == side_segments(runs_view(runs@), CharKind::Del, CharKind::Ins),
{
    side_segments_exec(runs, CharKind::Del, CharKind::Ins)
}

/// The left segments spell the old side and the right segments the new side
/// of any run list; in particular, of `char_diff(a, b)` they spell `a` and `b`.
pub proof fn lemma_segments_spell_sides(runs: Seq<(CharKind, Seq<char>)>)
    ensures
        segments_text(side_segments(runs, CharKind::Ins, CharKind::Del)) == old_side(runs),
        segments_text(side_segments(runs, CharKind::Del, CharKind::Ins)) == new_side(runs),
    decreases runs.len(),
{
    reveal(old_side);
    reveal(new_side);
    if runs.len() > 0 {
        lemma_segments_spell_sides(runs.drop_last());
        let l = side_segments(runs, CharKind::Ins, CharKind::Del);
        let r = side_segments(runs, CharKind::Del, CharKind::Ins);
        if runs.last().0 == CharKind::Ins {
            assert(old_side(runs) =~= old_side(runs.drop_last()));
        } else {
            assert(l.drop_last() =~= side_segments(runs.drop_last(), CharKind::Ins, CharKind::Del));
        }
        if runs.last().0 == CharKind::Del {
            assert(new_side(runs) =~= new_side(runs.drop_last()));
        } else {
            assert(r.drop_last() =~= side_segments(runs.drop_last(), CharKind::Del, CharKind::Ins));
        }
    } else {
        assert(old_side(runs) =~= Seq::<char>::empty());
        assert(new_side(runs) =~= Seq::<char>::empty());
    }
}

// ---------------------------------------------------------------------------
// Optimality
// ---------------------------------------------------------------------------

proof fn lemma_lcs_prefix_b(a: Seq<char>, b1: Seq<char>, b2: Seq<char>)
    ensures
        lcs_len(a, b2) <= lcs_len(a, b1 + b2),
    decreases b1.len(),
{
    if b1.len() > 0 {
        assert((b1 + b2).drop_first() =~= b1.drop_first() + b2);
        lemma_lcs_drop_b(a, b1 + b2);
        lemma_lcs_prefix_b(a, b1.drop_first(), b2);
    } else {
        assert(b1 + b2 =~= b2);
    }
}

proof fn lemma_lcs_prefix_a(a1: Seq<char>, a2: Seq<char>, b: Seq<char>)
    ensures
        lcs_len(a2, b) <= lcs_len(a1 + a2, b),
    decreases a1.len(),
{
    if a1.len() > 0 {
        assert((a1 + a2).drop_first() =~= a1.drop_first() + a2);
        lemma_lcs_drop_a(a1 + a2, b);
        lemma_lcs_prefix_a(a1.drop_first(), a2, b);
    } else {
        assert(a1 + a2 =~= a2);
    }
}

/// Common subsequences of two pairs of pieces combine into one of the joined pieces.
proof fn lemma_lcs_superadditive(a1: Seq<char>, a2: Seq<char>, b1: Seq<char>, b2: Seq<char>)
    ensures
        lcs_len(a1, b1) + lcs_len(a2, b2) <= lcs_len(a1 + a2, b1 + b2),
    decreases a1.len() + b1.len(),
{
    reveal(lcs_len);
    if a1.len() == 0 {
        assert(a1 + a2 =~= a2);
        lemma_lcs_prefix_b(a2, b1, b2);
    } else if b1.len() == 0 {
        assert(b1 + b2 =~= b2);
        lemma_lcs_prefix_a(a1, a2, b2);
    } else {
        assert((a1 + a2).drop_first() =~= a1.drop_first() + a2);
        assert((b1 + b2).drop_first() =~= b1.drop_first() + b2);
        assert((a1 + a2)[0] == a1[0]);
        assert((b1 + b2)[0] == b1[0]);
        if a1[0] == b1[0] {
            lemma_lcs_superadditive(a1.drop_first(), a2, b1.drop_first(), b2);
        } else {
            lemma_lcs_superadditive(a1.drop_first(), a2, b1, b2);
            lemma_lcs_superadditive(a1, a2, b1.drop_first(), b2);
        }
    }
}

/// No alignment shares more characters than a longest common subsequence:
/// for every run list, the characters of its `Equal` runs number at most the
/// LCS length of the two sides it spells. With `char_diff`'s own guarantee
/// (`equal_count == lcs_len`) this makes its result a longest alignment.
pub proof fn lemma_alignment_at_most_lcs(runs: Seq<(CharKind, Seq<char>)>)
    ensures
        equal_count(runs) <= lcs_len(old_side(runs), new_side(runs)),
    decreases runs.len(),
{
    reveal(old_side);
    reveal(new_side);
    reveal(equal_count);
    if runs.len() > 0 {
        let rest = runs.drop_last();
        let (k, t) = runs.last();
        lemma_alignment_at_most_lcs(rest);
        let x = if k != CharKind::Ins {
            t
        } else {
            Seq::empty()
        };
        let y = if k != CharKind::Del {
            t
        } else {
            Seq::empty()
        };
        lemma_lcs_superadditive(old_side(rest), x, new_side(rest), y);
        if k == CharKind::Equal {
            lemma_lcs_self(t);
        } else {
            lemma_lcs_empty(x, y);
        }
    }
}

} // verus!
