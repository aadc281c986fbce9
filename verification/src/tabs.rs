//! Which tab is active as tabs are cycled through and closed. Tabs are
//! identified by their session ids, in tab-bar order.

use vstd::prelude::*;

verus! {

/// Index of the first tab with id `id`, or the length when there is none.
pub open spec fn position_of(ids: Seq<u64>, id: u64) -> int
    decreases ids.len(),
{
    if ids.len() == 0 {
        0
    } else {
        let p = position_of(ids.drop_last(), id);
        if p < ids.len() - 1 {
            p
        } else if ids.last() == id {
            ids.len() - 1
        } else {
            ids.len() as int
        }
    }
}

proof fn lemma_position_of(ids: Seq<u64>, id: u64)
    ensures
        0 <= position_of(ids, id) <= ids.len(),
        position_of(ids, id) < ids.len() ==> ids[position_of(ids, id)] == id,
        forall|j: int| 0 <= j < position_of(ids, id) ==> ids[j] != id,
    decreases ids.len(),
{
    if ids.len() > 0 {
        let d = ids.drop_last();
        lemma_position_of(d, id);
        assert forall|j: int| 0 <= j < position_of(ids, id) implies ids[j] != id by {
            if j < d.len() {
                assert(ids[j] == d[j]);
            }
        }
    }
}

fn find_position(ids: &[u64], id: u64) -> (r: Option<usize>)
    ensures
        match r {
            Some(i) => i as int == position_of(ids@, id) && i < ids@.len(),
            None => position_of(ids@, id) == ids@.len(),
        },
{
    proof {
        lemma_position_of(ids@, id);
    }
    let mut i: usize = 0;
    while i < ids.len()
        invariant
            i <= ids.len(),
            forall|j: int| 0 <= j < i ==> ids@[j] != id,
            0 <= position_of(ids@, id) <= ids@.len(),
            position_of(ids@, id) < ids@.len() ==> ids@[position_of(ids@, id)] == id,
            forall|j: int| 0 <= j < position_of(ids@, id) ==> ids@[j] != id,
        decreases ids.len() - i,
    {
        if ids[i] == id {
            return Some(i);
        }
        i += 1;
    }
    None
}

/// The tab `delta` places after the active one, wrapping around; from the
/// first tab when no tab is active. Unchanged when there are no tabs.
pub open spec fn cycled(ids: Seq<u64>, active: Option<u64>, delta: int) -> Option<u64> {
    if ids.len() == 0 {
        active
    } else {
        let cur = match active {
            Some(id) => if position_of(ids, id) < ids.len() {
                position_of(ids, id)
            } else {
                0
            },
            None => 0,
        };
        Some(ids[(cur + delta) % (ids.len() as int)])
    }
}

/// The active tab after moving `delta` tabs (negative moves left).
pub fn cycle_tab(ids: &[u64], active: Option<u64>, delta: i32) -> (r: Option<u64>)
    requires
        ids@.len() <= i32::MAX,
    ensures
        r == cycled(ids@, active, delta as int),
{
    if ids.len() == 0 {
        return active;
    }
    let cur: usize = match active {
        Some(id) => match find_position(ids, id) {
            Some(i) => i,
            None => 0,
        },
        None => 0,
    };
    let m: i64 = ids.len() as i64;
    let t: i64 = cur as i64 + delta as i64;
    let next: i64 = if t >= 0 {
        t % m
    } else {
        let back = (-t) % m;
        if back == 0 {
            0
        } else {
            m - back
        }
    };
    proof {
        let ti = t as int;
        let mi = m as int;
        vstd::arithmetic::div_mod::lemma_mod_bound(ti, mi);
        if ti < 0 {
            let u = -ti;
            let b = u % mi;
            vstd::arithmetic::div_mod::lemma_fundamental_div_mod(u, mi);
            vstd::arithmetic::div_mod::lemma_mod_bound(u, mi);
            let q = u / mi;
            if b == 0 {
                assert(ti == (-q) * mi + 0) by (nonlinear_arith)
                    requires
                        u == mi * q + b,
                        b == 0,
                        ti == -u,
                ;
                vstd::arithmetic::div_mod::lemma_fundamental_div_mod_converse(ti, mi, -q, 0);
            } else {
                assert(ti == (-q - 1) * mi + (mi - b)) by (nonlinear_arith)
                    requires
                        u == mi * q + b,
                        ti == -u,
                ;
                vstd::arithmetic::div_mod::lemma_fundamental_div_mod_converse(
                    ti,
                    mi,
                    -q - 1,
                    mi - b,
                );
            }
        }
    }
    Some(ids[next as usize])
}

/// The tabs left after closing tab `id` (every tab with that id), and the
/// tab that becomes active: the one now at the closed tab's position, or
/// the last one when the closed tab was last; `None` when no tab is left or
/// `id` was not open.
pub fn close_tab(ids: &[u64], id: u64) -> (r: (Vec<u64>, Option<u64>))
    ensures
        r.0@ == ids@.filter(|x: u64| x != id),
        position_of(ids@, id) == ids@.len() ==> r.1 is None,
        r.0@.len() == 0 ==> r.1 is None,
        position_of(ids@, id) < ids@.len() && r.0@.len() > 0 ==> r.1 == Some(
            r.0@[if position_of(ids@, id) < r.0@.len() {
                position_of(ids@, id)
            } else {
                r.0@.len() - 1
            }],
        ),
{
    let idx = find_position(ids, id);
    let mut kept: Vec<u64> = Vec::new();
    let mut i: usize = 0;
    while i < ids.len()
        invariant
            i <= ids.len(),
            kept@ == ids@.take(i as int).filter(|x: u64| x != id),
        decreases ids.len() - i,
    {
        proof {
            assert(ids@.take(i + 1).drop_last() =~= ids@.take(i as int));
            ids@.take(i as int).lemma_filter_push(ids@[i as int], |x: u64| x != id);
            assert(ids@.take(i as int).push(ids@[i as int]) =~= ids@.take(i + 1));
        }
        if ids[i] != id {
            kept.push(ids[i]);
        }
        i += 1;
    }
    proof {
        assert(ids@.take(ids.len() as int) =~= ids@);
    }
    let next = match idx {
        Some(i) => if kept.len() == 0 {
            None
        } else if i < kept.len() {
            Some(kept[i])
        } else {
            Some(kept[kept.len() - 1])
        },
        None => None,
    };
    (kept, next)
}


/// No id occurs twice.
pub open spec fn distinct_ids(ids: Seq<u64>) -> bool {
    forall|i: int, j: int| 0 <= i < j < ids.len() ==> ids[i] != ids[j]
}

proof fn lemma_position_of_distinct(ids: Seq<u64>, q: int)
    requires
        distinct_ids(ids),
        0 <= q < ids.len(),
    ensures
        position_of(ids, ids[q]) == q,
{
    lemma_position_of(ids, ids[q]);
    let p = position_of(ids, ids[q]);
    if p < q {
        assert(ids[p] == ids[q]);
    } else if p > q {
        assert(ids[q] != ids[q]);
    }
}

/// Moving to the next tab and then back to the previous one returns to the
/// tab one started from, and so does the reverse.
pub proof fn lemma_cycle_there_and_back(ids: Seq<u64>, x: u64)
    requires
        distinct_ids(ids),
        ids.contains(x),
    ensures
        cycled(ids, cycled(ids, Some(x), 1), -1) == Some(x),
        cycled(ids, cycled(ids, Some(x), -1), 1) == Some(x),
{
    let n = ids.len() as int;
    let k = choose|k: int| 0 <= k < n && ids[k] == x;
    lemma_position_of_distinct(ids, k);
    let f = (k + 1) % n;
    let b = (k - 1) % n;
    vstd::arithmetic::div_mod::lemma_mod_bound(k + 1, n);
    vstd::arithmetic::div_mod::lemma_mod_bound(k - 1, n);
    lemma_position_of_distinct(ids, f);
    lemma_position_of_distinct(ids, b);
    if k + 1 < n {
        vstd::arithmetic::div_mod::lemma_small_mod((k + 1) as nat, n as nat);
        vstd::arithmetic::div_mod::lemma_small_mod(k as nat, n as nat);
    } else {
        vstd::arithmetic::div_mod::lemma_mod_self_0(n);
        assert(f == 0);
        assert((-1int) % n == n - 1) by {
            vstd::arithmetic::div_mod::lemma_fundamental_div_mod_converse(-1, n, -1, n - 1);
        }
    }
    if k > 0 {
        vstd::arithmetic::div_mod::lemma_small_mod((k - 1) as nat, n as nat);
        vstd::arithmetic::div_mod::lemma_small_mod(k as nat, n as nat);
    } else {
        assert(b == n - 1) by {
            vstd::arithmetic::div_mod::lemma_fundamental_div_mod_converse(-1, n, -1, n - 1);
        }
        vstd::arithmetic::div_mod::lemma_mod_self_0(n);
    }
}

/// Moving to the next tab goes one tab to the right, from the last tab to
/// the first; moving to the previous one goes one tab to the left, from the
/// first tab to the last.
pub proof fn lemma_cycle_steps(ids: Seq<u64>, k: int)
    requires
        distinct_ids(ids),
        0 <= k < ids.len(),
    ensures
        cycled(ids, Some(ids[k]), 1) == Some(ids[if k + 1 < ids.len() { k + 1 } else { 0 }]),
        cycled(ids, Some(ids[k]), -1) == Some(ids[if k > 0 { k - 1 } else { ids.len() - 1 }]),
{
    let n = ids.len() as int;
    lemma_position_of_distinct(ids, k);
    if k + 1 < n {
        vstd::arithmetic::div_mod::lemma_small_mod((k + 1) as nat, n as nat);
    } else {
        vstd::arithmetic::div_mod::lemma_mod_self_0(n);
    }
    if k > 0 {
        vstd::arithmetic::div_mod::lemma_small_mod((k - 1) as nat, n as nat);
    } else {
        assert((-1int) % n == n - 1) by {
            vstd::arithmetic::div_mod::lemma_fundamental_div_mod_converse(-1, n, -1, n - 1);
        }
    }
}

/// Closing a tab removes exactly the tabs with its id and keeps the others
/// in order; the tab that becomes active is the right neighbour of the
/// closed tab, or its left neighbour when it was the last tab.
pub proof fn lemma_close_picks_neighbour(ids: Seq<u64>, k: int)
    requires
        distinct_ids(ids),
        0 <= k < ids.len(),
        ids.len() >= 2,
    ensures
        ({
            let kept = ids.filter(|x: u64| x != ids[k]);
            &&& kept == ids.remove(k)
            &&& kept[if k < kept.len() { k } else { kept.len() - 1 }] == if k + 1 < ids.len() {
                ids[k + 1]
            } else {
                ids[k - 1]
            }
        }),
{
    lemma_filter_prefix(ids, k, ids.len() as int);
    assert(ids.take(ids.len() as int) =~= ids);
}

proof fn lemma_filter_prefix(ids: Seq<u64>, k: int, m: int)
    requires
        distinct_ids(ids),
        0 <= k < ids.len(),
        0 <= m <= ids.len(),
    ensures
        ids.take(m).filter(|x: u64| x != ids[k]) == if m <= k {
            ids.take(m)
        } else {
            ids.take(m).remove(k)
        },
    decreases m,
{
    if m == 0 {
        assert(ids.take(0) =~= Seq::<u64>::empty());
        assert(Seq::<u64>::empty().filter(|x: u64| x != ids[k]) =~= Seq::<u64>::empty());
    } else {
        lemma_filter_prefix(ids, k, m - 1);
        ids.take(m - 1).lemma_filter_push(ids[m - 1], |x: u64| x != ids[k]);
        assert(ids.take(m - 1).push(ids[m - 1]) =~= ids.take(m));
        if m - 1 == k {
            assert(ids.take(m).remove(k) =~= ids.take(m - 1));
        } else if m - 1 < k {
            assert(ids[m - 1] != ids[k]);
            assert(ids.take(m - 1).push(ids[m - 1]) =~= ids.take(m));
        } else {
            assert(ids[m - 1] != ids[k]);
            assert(ids.take(m - 1).remove(k).push(ids[m - 1]) =~= ids.take(m).remove(k));
        }
    }
}

} // verus!
