//! The "Recents" list: comparisons opened lately, newest first, with no
//! duplicates and at most `MAX_RECENTS` entries.

use vstd::prelude::*;

use crate::text::{basename, push_str, shown_name, string_of_str};

verus! {

/// Longest the list grows.
pub const MAX_RECENTS: usize = 12;

/// A comparison that was opened: two files, or three for a merge.
#[derive(Clone, Debug, PartialEq, Eq)]
pub enum RecentEntry {
    TwoWay { a: String, b: String },
    ThreeWay { base: String, local: String, remote: String },
}

/// An entry's file paths, as character sequences.
pub enum RecentView {
    TwoWay(Seq<char>, Seq<char>),
    ThreeWay(Seq<char>, Seq<char>, Seq<char>),
}

impl View for RecentEntry {
    type V = RecentView;

    open spec fn view(&self) -> RecentView {
        match self {
            RecentEntry::TwoWay { a, b } => RecentView::TwoWay(a@, b@),
            RecentEntry::ThreeWay { base, local, remote } => RecentView::ThreeWay(
                base@,
                local@,
                remote@,
            ),
        }
    }
}

pub open spec fn entries_view(v: Seq<RecentEntry>) -> Seq<RecentView> {
    v.map_values(|e: RecentEntry| e@)
}

impl RecentEntry {
    /// Menu label: the file names joined by `↔`, and for a merge the base
    /// name first, as in `base (3-way: local ↔ remote)`.
    pub fn label(&self) -> (s: String)
        ensures
            self matches RecentEntry::TwoWay { a, b } ==> exists|x: Seq<char>, y: Seq<char>|
                {
                    &&& s@ == x + " \u{2194} "@ + y
                    &&& shown_name(a@, x)
                    &&& shown_name(b@, y)
                },
            self matches RecentEntry::ThreeWay { base, local, remote } ==> exists|
                x: Seq<char>,
                y: Seq<char>,
                z: Seq<char>,
            |
                {
                    &&& s@ == x + " (3-way: "@ + y + " \u{2194} "@ + z + ")"@
                    &&& shown_name(base@, x)
                    &&& shown_name(local@, y)
                    &&& shown_name(remote@, z)
                },
    {
        match self {
            RecentEntry::TwoWay { a, b } => {
                let x = basename(a.as_str());
                let y = basename(b.as_str());
                let mut s = string_of_str(x.as_str());
                push_str(&mut s, " \u{2194} ");
                push_str(&mut s, y.as_str());
                proof {
                    assert(s@ == x@ + " \u{2194} "@ + y@);
                }
                s
            },
            RecentEntry::ThreeWay { base, local, remote } => {
                let x = basename(base.as_str());
                let y = basename(local.as_str());
                let z = basename(remote.as_str());
                let mut s = string_of_str(x.as_str());
                push_str(&mut s, " (3-way: ");
                push_str(&mut s, y.as_str());
                push_str(&mut s, " \u{2194} ");
                push_str(&mut s, z.as_str());
                push_str(&mut s, ")");
                proof {
                    assert(s@ == x@ + " (3-way: "@ + y@ + " \u{2194} "@ + z@ + ")"@);
                }
                s
            },
        }
    }
}

fn same_entry(x: &RecentEntry, y: &RecentEntry) -> (r: bool)
    ensures
        r == (x@ == y@),
{
    match x {
        RecentEntry::TwoWay { a: a1, b: b1 } => match y {
            RecentEntry::TwoWay { a: a2, b: b2 } => {
                let r = *a1 == *a2 && *b1 == *b2;
                proof {
                    if r {
                        assert(x@ == y@);
                    }
                }
                r
            },
            RecentEntry::ThreeWay { .. } => false,
        },
        RecentEntry::ThreeWay { base: x1, local: y1, remote: z1 } => match y {
            RecentEntry::ThreeWay { base: x2, local: y2, remote: z2 } => {
                let r = *x1 == *x2 && *y1 == *y2 && *z1 == *z2;
                proof {
                    if r {
                        assert(x@ == y@);
                    }
                }
                r
            },
            RecentEntry::TwoWay { .. } => false,
        },
    }
}

fn copy_entry(e: &RecentEntry) -> (r: RecentEntry)
    ensures
        r@ == e@,
{
    match e {
        RecentEntry::TwoWay { a, b } => RecentEntry::TwoWay { a: a.clone(), b: b.clone() },
        RecentEntry::ThreeWay { base, local, remote } => RecentEntry::ThreeWay {
            base: base.clone(),
            local: local.clone(),
            remote: remote.clone(),
        },
    }
}

/// The entries other than `e`, in order.
pub open spec fn without(v: Seq<RecentView>, e: RecentView) -> Seq<RecentView>
    decreases v.len(),
{
    if v.len() == 0 {
        Seq::empty()
    } else if v.last() == e {
        without(v.drop_last(), e)
    } else {
        without(v.drop_last(), e).push(v.last())
    }
}

/// The list after opening `e`: `e` first, then the others without it, cut
/// to `MAX_RECENTS` entries.
pub open spec fn after_add(v: Seq<RecentView>, e: RecentView) -> Seq<RecentView> {
    let all = seq![e] + without(v, e);
    if all.len() > MAX_RECENTS {
        all.take(MAX_RECENTS as int)
    } else {
        all
    }
}

/// Move-to-front: remove any copy of `entry`, put it first, and cap the list
/// at `MAX_RECENTS`.
pub fn add(entries: &mut Vec<RecentEntry>, entry: RecentEntry)
    ensures
        entries_view(final(entries)@) == after_add(entries_view(old(entries)@), entry@),
{
    let ghost ev = entries_view(entries@);
    let mut kept: Vec<RecentEntry> = Vec::new();
    let mut i: usize = 0;
    while i < entries.len()
        invariant
            i <= entries.len(),
            ev == entries_view(entries@),
            entries_view(kept@) == without(ev.take(i as int), entry@),
        decreases entries.len() - i,
    {
        proof {
            assert(ev.take(i + 1).drop_last() =~= ev.take(i as int));
        }
        if !same_entry(&entries[i], &entry) {
            let ghost k0 = kept@;
            kept.push(copy_entry(&entries[i]));
            proof {
                assert(entries_view(kept@) =~= entries_view(k0).push(entries@[i as int]@));
            }
        }
        i += 1;
    }
    proof {
        assert(ev.take(entries.len() as int) =~= ev);
    }
    let ghost k1 = kept@;
    kept.insert(0, entry);
    proof {
        assert(entries_view(kept@) =~= seq![entry@] + entries_view(k1));
    }
    if kept.len() > MAX_RECENTS {
        let ghost k2 = kept@;
        kept.truncate(MAX_RECENTS);
        proof {
            assert(entries_view(kept@) =~= entries_view(k2).take(MAX_RECENTS as int));
        }
    }
    *entries = kept;
}


/// No entry occurs twice.
pub open spec fn distinct(v: Seq<RecentView>) -> bool {
    forall|i: int, j: int| 0 <= i < j < v.len() ==> v[i] != v[j]
}

proof fn lemma_without_concat(a: Seq<RecentView>, b: Seq<RecentView>, e: RecentView)
    ensures
        without(a + b, e) == without(a, e) + without(b, e),
    decreases b.len(),
{
    if b.len() == 0 {
        assert(a + b =~= a);
        assert(without(a, e) + without(b, e) =~= without(a, e));
    } else {
        assert((a + b).drop_last() =~= a + b.drop_last());
        assert((a + b).last() == b.last());
        lemma_without_concat(a, b.drop_last(), e);
        if b.last() != e {
            assert(without(a + b, e) =~= without(a, e) + without(b, e));
        }
    }
}

proof fn lemma_without_props(v: Seq<RecentView>, e: RecentView)
    ensures
        !without(v, e).contains(e),
        without(v, e).len() <= v.len(),
        forall|x: RecentView| #[trigger] without(v, e).contains(x) ==> v.contains(x),
        distinct(v) ==> distinct(without(v, e)),
        !v.contains(e) ==> without(v, e) == v,
    decreases v.len(),
{
    if v.len() > 0 {
        let p = v.drop_last();
        lemma_without_props(p, e);
        let w = without(v, e);
        let wp = without(p, e);
        assert forall|x: RecentView| #[trigger] w.contains(x) implies v.contains(x) by {
            let k = choose|k: int| 0 <= k < w.len() && w[k] == x;
            if k < wp.len() {
                assert(wp[k] == x);
                assert(wp.contains(x));
                let m = choose|m: int| 0 <= m < p.len() && p[m] == x;
                assert(v[m] == x);
            } else {
                assert(v[v.len() - 1] == x);
            }
        }
        if v.last() != e {
            assert forall|y: RecentView| !w.contains(y) || y != e by {
                if w.contains(y) && y == e {
                    let k = choose|k: int| 0 <= k < w.len() && w[k] == y;
                    if k < wp.len() {
                        assert(wp.contains(y));
                    }
                }
            }
            if distinct(v) {
                assert(distinct(p)) by {
                    assert forall|i: int, j: int| 0 <= i < j < p.len() implies p[i] != p[j] by {
                        assert(p[i] == v[i] && p[j] == v[j]);
                    }
                }
                assert forall|i: int, j: int| 0 <= i < j < w.len() implies w[i] != w[j] by {
                    if j == w.len() - 1 && i < wp.len() {
                        if w[i] == w[j] {
                            assert(wp.contains(w[i]));
                            assert(p.contains(v.last()));
                            let m = choose|m: int| 0 <= m < p.len() && p[m] == v.last();
                            assert(v[m] == v[v.len() - 1]);
                        }
                    } else {
                        assert(w[i] == wp[i] && w[j] == wp[j]);
                    }
                }
            }
            if !v.contains(e) {
                assert(!p.contains(e)) by {
                    if p.contains(e) {
                        let m = choose|m: int| 0 <= m < p.len() && p[m] == e;
                        assert(v[m] == e);
                    }
                }
                assert(w =~= v);
            }
        } else {
            assert(v.contains(e)) by {
                assert(v[v.len() - 1] == e);
            }
            if distinct(v) {
                assert(distinct(p)) by {
                    assert forall|i: int, j: int| 0 <= i < j < p.len() implies p[i] != p[j] by {
                        assert(p[i] == v[i] && p[j] == v[j]);
                    }
                }
            }
        }
    } else {
        assert(without(v, e) =~= v);
    }
}

/// After opening `e` the list starts with `e`, holds it only there, and
/// has at most `MAX_RECENTS` entries.
pub proof fn lemma_add_puts_entry_first(v: Seq<RecentView>, e: RecentView)
    ensures
        after_add(v, e).len() >= 1,
        after_add(v, e).len() <= MAX_RECENTS,
        after_add(v, e)[0] == e,
        forall|i: int| 0 < i < after_add(v, e).len() ==> after_add(v, e)[i] != e,
{
    lemma_without_props(v, e);
    let all = seq![e] + without(v, e);
    assert forall|i: int| 0 < i < after_add(v, e).len() implies after_add(v, e)[i] != e by {
        assert(after_add(v, e)[i] == all[i]);
        assert(all[i] == without(v, e)[i - 1]);
        if all[i] == e {
            assert(without(v, e).contains(e));
        }
    }
}

/// Opening an entry keeps a list without duplicates free of them.
pub proof fn lemma_add_keeps_distinct(v: Seq<RecentView>, e: RecentView)
    requires
        distinct(v),
    ensures
        distinct(after_add(v, e)),
{
    lemma_without_props(v, e);
    let w = without(v, e);
    let all = seq![e] + w;
    assert(distinct(all)) by {
        assert forall|i: int, j: int| 0 <= i < j < all.len() implies all[i] != all[j] by {
            if i == 0 {
                if all[j] == e {
                    assert(w[j - 1] == e);
                    assert(w.contains(e));
                }
            } else {
                assert(all[i] == w[i - 1] && all[j] == w[j - 1]);
            }
        }
    }
    let r = after_add(v, e);
    assert forall|i: int, j: int| 0 <= i < j < r.len() implies r[i] != r[j] by {
        assert(r[i] == all[i] && r[j] == all[j]);
    }
}

/// Opening the same comparison twice in a row leaves the list as the first
/// time left it.
pub proof fn lemma_add_idempotent(v: Seq<RecentView>, e: RecentView)
    ensures
        after_add(after_add(v, e), e) == after_add(v, e),
{
    let w = after_add(v, e);
    lemma_add_puts_entry_first(v, e);
    let rest = w.drop_first();
    assert(!rest.contains(e)) by {
        if rest.contains(e) {
            let k = choose|k: int| 0 <= k < rest.len() && rest[k] == e;
            assert(w[k + 1] == e);
        }
    }
    assert(w =~= seq![e] + rest);
    lemma_without_concat(seq![e], rest, e);
    lemma_without_props(rest, e);
    assert(seq![e].drop_last() =~= Seq::<RecentView>::empty());
    assert(seq![e].last() == e);
    assert(without(Seq::<RecentView>::empty(), e) =~= Seq::<RecentView>::empty());
    assert(without(seq![e], e) =~= Seq::<RecentView>::empty());
    assert(without(w, e) =~= rest);
    assert(seq![e] + without(w, e) =~= w);
}

/// Opening `e` keeps the most recent of the other entries: behind `e` come
/// the entries of the old list other than `e`, in their old order, cut at
/// `MAX_RECENTS` entries in all, so the oldest are the ones dropped; in
/// particular the old first entry, when it is not `e`, comes right after it.
pub proof fn lemma_add_keeps_newest(v: Seq<RecentView>, e: RecentView)
    ensures
        ({
            let r = after_add(v, e);
            let w = without(v, e);
            &&& r.len() == if w.len() + 1 > MAX_RECENTS {
                MAX_RECENTS as int
            } else {
                w.len() + 1int
            }
            &&& forall|i: int| 0 <= i < r.len() - 1 ==> r[i + 1] == #[trigger] w[i]
            &&& v.len() > 0 && v[0] != e ==> r.len() >= 2 && r[1] == v[0]
        }),
{
    let w = without(v, e);
    let all = seq![e] + w;
    let r = after_add(v, e);
    assert forall|i: int| 0 <= i < r.len() - 1 implies r[i + 1] == #[trigger] w[i] by {
        assert(r[i + 1] == all[i + 1]);
    }
    if v.len() > 0 && v[0] != e {
        let rest = v.drop_first();
        assert(v =~= seq![v[0]] + rest);
        lemma_without_concat(seq![v[0]], rest, e);
        assert(seq![v[0]].drop_last() =~= Seq::<RecentView>::empty());
        assert(without(Seq::<RecentView>::empty(), e) =~= Seq::<RecentView>::empty());
        assert(without(seq![v[0]], e) =~= seq![v[0]]);
        assert(w[0] == v[0]);
        assert(r[1] == w[0]);
    }
}

} // verus!
