//! Three-way merge hunks as the merge view reads them: which pane shows
//! which lines, where the first change is, and which resolution pickers a
//! hunk offers.

use vstd::prelude::*;

use crate::selection::FocusedPane;
use crate::text::{decimal, push_decimal, push_str};

verus! {

/// One hunk of a three-way merge. `Stable` hunks agree on all sides (`text`
/// is the merged text, `base` the base side); the others carry each side's
/// lines.
#[derive(Clone, Debug)]
pub enum MergeHunk {
    Stable { id: u32, base: Vec<String>, text: Vec<String> },
    LocalOnly { id: u32, base: Vec<String>, local: Vec<String> },
    RemoteOnly { id: u32, base: Vec<String>, remote: Vec<String> },
    Conflict { id: u32, base: Vec<String>, local: Vec<String>, remote: Vec<String> },
}

/// How a hunk was resolved.
#[derive(Clone, Debug)]
pub enum Resolution {
    Local,
    Base,
    Remote,
    Custom { lines: Vec<String> },
}

/// A user-placed alignment of one line on each of the three sides
/// (1-based).
#[derive(Clone, Copy, Debug, PartialEq, Eq, Structural)]
pub struct MergeAnchor {
    pub base: u32,
    pub local: u32,
    pub remote: u32,
}

/// The three text panes of the merge view.
#[derive(Clone, Copy, Debug, PartialEq, Eq, Structural)]
pub enum Pane {
    Base,
    Local,
    Remote,
}

impl Pane {
    pub fn as_focused_pane(self) -> (p: FocusedPane)
        ensures
            p == match self {
                Pane::Base => FocusedPane::ThreeWayBase,
                Pane::Local => FocusedPane::ThreeWayLocal,
                Pane::Remote => FocusedPane::ThreeWayRemote,
            },
    {
        match self {
            Pane::Base => FocusedPane::ThreeWayBase,
            Pane::Local => FocusedPane::ThreeWayLocal,
            Pane::Remote => FocusedPane::ThreeWayRemote,
        }
    }
}

/// The kind of a hunk that changes something.
#[derive(Clone, Copy, Debug, PartialEq, Eq, Structural)]
pub enum HunkKind {
    LocalOnly,
    RemoteOnly,
    Conflict,
}

/// The kind of a resolution, without its custom text.
#[derive(Clone, Copy, Debug, PartialEq, Eq, Structural)]
pub enum ResKind {
    Local,
    Remote,
    Base,
    Custom,
}

/// The id of a hunk, whatever its kind.
pub open spec fn hunk_id(h: MergeHunk) -> u32 {
    match h {
        MergeHunk::Stable { id, .. } => id,
        MergeHunk::LocalOnly { id, .. } => id,
        MergeHunk::RemoteOnly { id, .. } => id,
        MergeHunk::Conflict { id, .. } => id,
    }
}

impl MergeHunk {
    pub fn id(&self) -> (r: u32)
        ensures
            r == hunk_id(*self),
    {
        match self {
            MergeHunk::Stable { id, .. } => *id,
            MergeHunk::LocalOnly { id, .. } => *id,
            MergeHunk::RemoteOnly { id, .. } => *id,
            MergeHunk::Conflict { id, .. } => *id,
        }
    }
}

/// The lines a pane shows for a hunk. A side that a hunk leaves unchanged
/// shows the base; a stable hunk shows its merged text on the local and
/// remote panes.
pub open spec fn pane_lines(h: MergeHunk, pane: Pane) -> Seq<String> {
    match h {
        MergeHunk::Stable { base, text, .. } => if pane == Pane::Base {
            base@
        } else {
            text@
        },
        MergeHunk::LocalOnly { base, local, .. } => if pane == Pane::Local {
            local@
        } else {
            base@
        },
        MergeHunk::RemoteOnly { base, remote, .. } => if pane == Pane::Remote {
            remote@
        } else {
            base@
        },
        MergeHunk::Conflict { base, local, remote, .. } => match pane {
            Pane::Base => base@,
            Pane::Local => local@,
            Pane::Remote => remote@,
        },
    }
}

/// The lines `pane` shows for hunk `h`.
pub fn pane_text(h: &MergeHunk, pane: Pane) -> (r: &[String])
    ensures
        r@ == pane_lines(*h, pane),
{
    match h {
        MergeHunk::Stable { base, text, .. } => match pane {
            Pane::Base => base.as_slice(),
            _ => text.as_slice(),
        },
        MergeHunk::LocalOnly { base, local, .. } => match pane {
            Pane::Local => local.as_slice(),
            _ => base.as_slice(),
        },
        MergeHunk::RemoteOnly { base, remote, .. } => match pane {
            Pane::Remote => remote.as_slice(),
            _ => base.as_slice(),
        },
        MergeHunk::Conflict { base, local, remote, .. } => match pane {
            Pane::Base => base.as_slice(),
            Pane::Local => local.as_slice(),
            Pane::Remote => remote.as_slice(),
        },
    }
}

pub open spec fn kind_of(h: MergeHunk) -> Option<HunkKind> {
    match h {
        MergeHunk::Stable { .. } => None,
        MergeHunk::LocalOnly { .. } => Some(HunkKind::LocalOnly),
        MergeHunk::RemoteOnly { .. } => Some(HunkKind::RemoteOnly),
        MergeHunk::Conflict { .. } => Some(HunkKind::Conflict),
    }
}

/// The kind of a hunk; `None` for a stable one.
pub fn hunk_kind(h: &MergeHunk) -> (k: Option<HunkKind>)
    ensures
        k == kind_of(*h),
{
    match h {
        MergeHunk::Stable { .. } => None,
        MergeHunk::LocalOnly { .. } => Some(HunkKind::LocalOnly),
        MergeHunk::RemoteOnly { .. } => Some(HunkKind::RemoteOnly),
        MergeHunk::Conflict { .. } => Some(HunkKind::Conflict),
    }
}

pub open spec fn res_kind_of(r: Resolution) -> ResKind {
    match r {
        Resolution::Local => ResKind::Local,
        Resolution::Remote => ResKind::Remote,
        Resolution::Base => ResKind::Base,
        Resolution::Custom { .. } => ResKind::Custom,
    }
}

/// The kind of an optional resolution.
pub fn resolution_kind(r: Option<&Resolution>) -> (k: Option<ResKind>)
    ensures
        k == match r {
            Some(res) => Some(res_kind_of(*res)),
            None => None::<ResKind>,
        },
{
    match r {
        Some(Resolution::Local) => Some(ResKind::Local),
        Some(Resolution::Remote) => Some(ResKind::Remote),
        Some(Resolution::Base) => Some(ResKind::Base),
        Some(Resolution::Custom { .. }) => Some(ResKind::Custom),
        None => None,
    }
}

// ---------------------------------------------------------------------------
// First change
// ---------------------------------------------------------------------------

pub open spec fn is_stable(h: MergeHunk) -> bool {
    h is Stable
}

/// Index of the first hunk at or after `i` that is not stable, or the length
/// when there is none.
pub open spec fn first_unstable_from(hs: Seq<MergeHunk>, i: int) -> int
    decreases hs.len() - i,
{
    if i < 0 || i >= hs.len() {
        hs.len() as int
    } else if !is_stable(hs[i]) {
        i
    } else {
        first_unstable_from(hs, i + 1)
    }
}

/// Number of lines `pane` shows for the first `n` hunks.
pub open spec fn lines_before(hs: Seq<MergeHunk>, n: int, pane: Pane) -> int
    decreases n,
{
    if n <= 0 {
        0
    } else {
        lines_before(hs, n - 1, pane) + pane_lines(hs[n - 1], pane).len()
    }
}

/// The 1-based first line of the first non-stable hunk on each pane.
pub open spec fn first_change_spec(hs: Seq<MergeHunk>) -> Option<(int, int, int)> {
    let k = first_unstable_from(hs, 0);
    if k < hs.len() {
        Some(
            (
                1 + lines_before(hs, k, Pane::Base),
                1 + lines_before(hs, k, Pane::Local),
                1 + lines_before(hs, k, Pane::Remote),
            ),
        )
    } else {
        None
    }
}

proof fn lemma_first_unstable(hs: Seq<MergeHunk>, i: int)
    requires
        0 <= i <= hs.len(),
    ensures
        i <= first_unstable_from(hs, i) <= hs.len(),
        forall|x: int| i <= x < first_unstable_from(hs, i) ==> is_stable(#[trigger] hs[x]),
        first_unstable_from(hs, i) < hs.len() ==> !is_stable(hs[first_unstable_from(hs, i)]),
    decreases hs.len() - i,
{
    if i < hs.len() && is_stable(hs[i]) {
        lemma_first_unstable(hs, i + 1);
    }
}

proof fn lemma_lines_before_mono(hs: Seq<MergeHunk>, m: int, n: int, pane: Pane)
    requires
        0 <= m <= n,
    ensures
        lines_before(hs, m, pane) <= lines_before(hs, n, pane),
    decreases n - m,
{
    if m < n {
        lemma_lines_before_mono(hs, m, n - 1, pane);
    }
}

/// The first change is found exactly when some hunk is not stable; it is
/// the first such hunk `k`, and on each pane it starts on the line after
/// all the lines the stable hunks before it show there.
pub proof fn lemma_first_change_found(hs: Seq<MergeHunk>) -> (k: int)
    ensures
        first_change_spec(hs) is None <==> forall|x: int| 0 <= x < hs.len() ==> #[trigger] hs[x] is Stable,
        first_change_spec(hs) is Some ==> {
            &&& 0 <= k < hs.len()
            &&& !(hs[k] is Stable)
            &&& forall|x: int| 0 <= x < k ==> #[trigger] hs[x] is Stable
            &&& first_change_spec(hs) == Some(
                (
                    1 + lines_before(hs, k, Pane::Base),
                    1 + lines_before(hs, k, Pane::Local),
                    1 + lines_before(hs, k, Pane::Remote),
                ),
            )
        },
{
    lemma_first_unstable(hs, 0);
    let k = first_unstable_from(hs, 0);
    if k < hs.len() {
        assert(!(hs[k] is Stable));
    }
    k
}

/// Line counts that the walk to the first change adds up fit in a `u32`.
pub open spec fn first_change_fits(hs: Seq<MergeHunk>) -> bool {
    let k = first_unstable_from(hs, 0);
    &&& lines_before(hs, k, Pane::Base) < u32::MAX
    &&& lines_before(hs, k, Pane::Local) < u32::MAX
}

/// The 1-based `(base, local, remote)` line where the first non-stable hunk
/// starts on each pane, or `None` when every hunk is stable. The local and
/// remote panes show a stable hunk's merged text, the base pane its base.
pub fn first_change_lines(hunks: &[MergeHunk]) -> (r: Option<(u32, u32, u32)>)
    requires
        first_change_fits(hunks@),
    ensures
        r matches Some(t) ==> first_change_spec(hunks@) == Some(
            (t.0 as int, t.1 as int, t.2 as int),
        ),
        r is None ==> first_change_spec(hunks@) is None,
{
    let mut base_line: u32 = 1;
    let mut local_line: u32 = 1;
    let mut remote_line: u32 = 1;
    let mut i: usize = 0;
    proof {
        lemma_first_unstable(hunks@, 0);
    }
    while i < hunks.len()
        invariant
            i <= hunks.len(),
            i <= first_unstable_from(hunks@, 0) <= hunks.len(),
            forall|x: int|
                0 <= x < first_unstable_from(hunks@, 0) ==> is_stable(#[trigger] hunks@[x]),
            first_unstable_from(hunks@, 0) < hunks@.len() ==> !is_stable(
                hunks@[first_unstable_from(hunks@, 0)],
            ),
            first_change_fits(hunks@),
            base_line == 1 + lines_before(hunks@, i as int, Pane::Base),
            local_line == 1 + lines_before(hunks@, i as int, Pane::Local),
            remote_line == 1 + lines_before(hunks@, i as int, Pane::Remote),
            remote_line == local_line,
        decreases hunks.len() - i,
    {
        let h = &hunks[i];
        match h {
            MergeHunk::Stable { base, text, .. } => {
                proof {
                    if i >= first_unstable_from(hunks@, 0) {
                        assert(i == first_unstable_from(hunks@, 0));
                    }
                    assert(i < first_unstable_from(hunks@, 0));
                    lemma_lines_before_mono(
                        hunks@,
                        i + 1,
                        first_unstable_from(hunks@, 0),
                        Pane::Base,
                    );
                    lemma_lines_before_mono(
                        hunks@,
                        i + 1,
                        first_unstable_from(hunks@, 0),
                        Pane::Local,
                    );
                    assert(pane_lines(hunks@[i as int], Pane::Local) == pane_lines(
                        hunks@[i as int],
                        Pane::Remote,
                    ));
                }
                base_line = base_line + base.len() as u32;
                local_line = local_line + text.len() as u32;
                remote_line = remote_line + text.len() as u32;
            },
            _ => {
                proof {
                    if i < first_unstable_from(hunks@, 0) {
                        assert(is_stable(hunks@[i as int]));
                    }
                }
                return Some((base_line, local_line, remote_line));
            },
        }
        i += 1;
    }
    None
}

// ---------------------------------------------------------------------------
// Resolution pickers
// ---------------------------------------------------------------------------

/// The shape a resolution picker is drawn with.
#[derive(Clone, Copy, Debug, PartialEq, Eq, Structural)]
pub enum IconShape {
    Diamond,
    Square,
    Circle,
}

/// One resolution picker: its shape, the resolution it sets when clicked,
/// and whether it is the current pick (drawn filled).
#[derive(Clone, Debug)]
pub struct PickerIcon {
    pub shape: IconShape,
    pub resolution: Resolution,
    pub filled: bool,
}

/// The pickers a hunk offers, as (shape, resolution kind, filled), given the
/// kind of its current resolution. A one-sided hunk defaults to its own
/// side when nothing was picked.
pub open spec fn picker_spec(h: MergeHunk, active: Option<ResKind>) -> Seq<(IconShape, ResKind, bool)> {
    match h {
        MergeHunk::Stable { .. } => Seq::empty(),
        MergeHunk::LocalOnly { .. } => seq![
            (IconShape::Square, ResKind::Base, active == Some(ResKind::Base)),
            (IconShape::Circle, ResKind::Local, active == Some(ResKind::Local) || active is None),
        ],
        MergeHunk::RemoteOnly { .. } => seq![
            (IconShape::Diamond, ResKind::Remote, active == Some(ResKind::Remote) || active is None),
            (IconShape::Square, ResKind::Base, active == Some(ResKind::Base)),
        ],
        MergeHunk::Conflict { .. } => seq![
            (IconShape::Diamond, ResKind::Remote, active == Some(ResKind::Remote)),
            (IconShape::Square, ResKind::Base, active == Some(ResKind::Base)),
            (IconShape::Circle, ResKind::Local, active == Some(ResKind::Local)),
        ],
    }
}

pub open spec fn icon_view(i: PickerIcon) -> (IconShape, ResKind, bool) {
    (i.shape, res_kind_of(i.resolution), i.filled)
}

fn icon(shape: IconShape, resolution: Resolution, filled: bool) -> (i: PickerIcon)
    ensures
        i.shape == shape,
        i.resolution == resolution,
        i.filled == filled,
{
    PickerIcon { shape, resolution, filled }
}

/// The resolution pickers for `hunk` in its current resolution state; a
/// stable hunk has none.
pub fn icons_for_hunk(hunk: &MergeHunk, resolution: Option<&Resolution>) -> (v: Vec<PickerIcon>)
    ensures
        v@.map_values(|i: PickerIcon| icon_view(i)) == picker_spec(
            *hunk,
            match resolution {
                Some(res) => Some(res_kind_of(*res)),
                None => None::<ResKind>,
            },
        ),
        forall|j: int| 0 <= j < v@.len() ==> !(v@[j].resolution is Custom),
{
    let active = resolution_kind(resolution);
    let is_base = match active {
        Some(ResKind::Base) => true,
        _ => false,
    };
    let is_local = match active {
        Some(ResKind::Local) => true,
        _ => false,
    };
    let is_remote = match active {
        Some(ResKind::Remote) => true,
        _ => false,
    };
    let none = active.is_none();
    let mut v: Vec<PickerIcon> = Vec::new();
    match hunk {
        MergeHunk::Stable { .. } => {},
        MergeHunk::LocalOnly { .. } => {
            v.push(icon(IconShape::Square, Resolution::Base, is_base));
            v.push(icon(IconShape::Circle, Resolution::Local, is_local || none));
        },
        MergeHunk::RemoteOnly { .. } => {
            v.push(icon(IconShape::Diamond, Resolution::Remote, is_remote || none));
            v.push(icon(IconShape::Square, Resolution::Base, is_base));
        },
        MergeHunk::Conflict { .. } => {
            v.push(icon(IconShape::Diamond, Resolution::Remote, is_remote));
            v.push(icon(IconShape::Square, Resolution::Base, is_base));
            v.push(icon(IconShape::Circle, Resolution::Local, is_local));
        },
    }
    proof {
        let sp = picker_spec(
            *hunk,
            match resolution {
                Some(res) => Some(res_kind_of(*res)),
                None => None::<ResKind>,
            },
        );
        assert(v@.map_values(|i: PickerIcon| icon_view(i)) =~= sp);
    }
    v
}

/// The word a status message uses for a resolution.
pub open spec fn label_spec(r: Resolution) -> Seq<char> {
    match r {
        Resolution::Local => "local"@,
        Resolution::Base => "base"@,
        Resolution::Remote => "remote"@,
        Resolution::Custom { .. } => "custom"@,
    }
}

pub fn resolution_label(res: &Resolution) -> (s: &'static str)
    ensures
        s@ == label_spec(*res),
{
    match res {
        Resolution::Local => "local",
        Resolution::Base => "base",
        Resolution::Remote => "remote",
        Resolution::Custom { .. } => "custom",
    }
}

/// The status line shown after resolution `res` was applied to hunk
/// `hunk_id`: `hunk {id}: use {label}`.
pub fn resolution_status(hunk_id: u32, res: &Resolution) -> (s: String)
    ensures
        s@ == "hunk "@ + decimal(hunk_id as int) + ": use "@ + label_spec(*res),
{
    let mut s = String::new();
    push_str(&mut s, "hunk ");
    push_decimal(&mut s, hunk_id as i64);
    push_str(&mut s, ": use ");
    push_str(&mut s, resolution_label(res));
    proof {
        assert(s@ =~= "hunk "@ + decimal(hunk_id as int) + ": use "@ + label_spec(*res));
    }
    s
}


// ---------------------------------------------------------------------------
// Pane layout
// ---------------------------------------------------------------------------

/// The laid-out hunks among the first `n`: every hunk that shows a line on
/// `pane`, as `(id, kind, first line, last line)` with 1-based lines.
pub open spec fn layout_spec(hs: Seq<MergeHunk>, pane: Pane, n: int) -> Seq<
    (u32, Option<HunkKind>, u32, u32),
>
    decreases n,
{
    if n <= 0 {
        Seq::empty()
    } else {
        let rest = layout_spec(hs, pane, n - 1);
        if pane_lines(hs[n - 1], pane).len() > 0 {
            rest.push(
                (
                    hunk_id(hs[n - 1]),
                    kind_of(hs[n - 1]),
                    (1 + lines_before(hs, n - 1, pane)) as u32,
                    lines_before(hs, n, pane) as u32,
                ),
            )
        } else {
            rest
        }
    }
}

/// The layout of a pane tiles its lines: its entries, in order, are the
/// hunks that show at least one line on the pane, each with the id, kind
/// and number of lines of its hunk; the first starts at line 1, each starts
/// right after the one before, and the last ends at the pane's last line.
pub proof fn lemma_layout_tiles(hs: Seq<MergeHunk>, pane: Pane, n: int)
    requires
        0 <= n <= hs.len(),
        lines_before(hs, n, pane) < u32::MAX,
    ensures
        ({
            let l = layout_spec(hs, pane, n);
            &&& forall|k: int| 0 <= k < l.len() ==> 1 <= (#[trigger] l[k]).2 <= l[k].3
            &&& forall|k: int| 0 < k < l.len() ==> (#[trigger] l[k]).2 == l[k - 1].3 + 1
            &&& l.len() > 0 ==> l[0].2 == 1 && l[l.len() - 1].3 == lines_before(hs, n, pane)
            &&& l.len() == 0 ==> lines_before(hs, n, pane) == 0
            &&& forall|k: int|
                0 <= k < l.len() ==> exists|j: int|
                    0 <= j < n && hunk_id(hs[j]) == (#[trigger] l[k]).0 && kind_of(hs[j]) == l[k].1
                        && pane_lines(hs[j], pane).len() == l[k].3 - l[k].2 + 1
        }),
    decreases n,
{
    if n > 0 {
        lemma_lines_before_mono(hs, n - 1, n, pane);
        lemma_layout_tiles(hs, pane, n - 1);
        let prev = layout_spec(hs, pane, n - 1);
        let l = layout_spec(hs, pane, n);
        let c = pane_lines(hs[n - 1], pane).len();
        if c > 0 {
            assert(l == prev.push(
                (
                    hunk_id(hs[n - 1]),
                    kind_of(hs[n - 1]),
                    (1 + lines_before(hs, n - 1, pane)) as u32,
                    lines_before(hs, n, pane) as u32,
                ),
            ));
            assert forall|k: int|
                0 <= k < l.len() implies exists|j: int|
                    0 <= j < n && hunk_id(hs[j]) == (#[trigger] l[k]).0 && kind_of(hs[j]) == l[k].1
                        && pane_lines(hs[j], pane).len() == l[k].3 - l[k].2 + 1 by {
                if k < prev.len() {
                    assert(l[k] == prev[k]);
                    let j = choose|j: int|
                        0 <= j < n - 1 && hunk_id(hs[j]) == (#[trigger] prev[k]).0 && kind_of(hs[j])
                            == prev[k].1 && pane_lines(hs[j], pane).len() == prev[k].3 - prev[k].2
                            + 1;
                    assert(0 <= j < n);
                } else {
                    assert(pane_lines(hs[n - 1], pane).len() == l[k].3 - l[k].2 + 1);
                }
            }
            assert forall|k: int| 0 < k < l.len() implies (#[trigger] l[k]).2 == l[k - 1].3 + 1 by {
                if k < prev.len() {
                    assert(l[k] == prev[k] && l[k - 1] == prev[k - 1]);
                } else if prev.len() == 0 {
                } else {
                    assert(l[k - 1] == prev[prev.len() - 1]);
                }
            }
            assert forall|k: int| 0 <= k < l.len() implies 1 <= (#[trigger] l[k]).2 <= l[k].3 by {
                if k < prev.len() {
                    assert(l[k] == prev[k]);
                }
            }
            if prev.len() > 0 {
                assert(l[0] == prev[0]);
            }
        } else {
            assert(l == prev);
        }
    }
}

/// Per-hunk line ranges of one pane of the merge view, for the connector
/// ribbons and scroll syncing.
pub fn build_layout(hunks: &[MergeHunk], pane: Pane) -> (v: Vec<(u32, Option<HunkKind>, u32, u32)>)
    requires
        lines_before(hunks@, hunks@.len() as int, pane) < u32::MAX,
    ensures
        v@ == layout_spec(hunks@, pane, hunks@.len() as int),
{
    let mut v: Vec<(u32, Option<HunkKind>, u32, u32)> = Vec::new();
    let mut line_n: u32 = 1;
    let mut i: usize = 0;
    while i < hunks.len()
        invariant
            i <= hunks.len(),
            lines_before(hunks@, hunks@.len() as int, pane) < u32::MAX,
            line_n == 1 + lines_before(hunks@, i as int, pane),
            v@ == layout_spec(hunks@, pane, i as int),
        decreases hunks.len() - i,
    {
        let h = &hunks[i];
        let start_line = line_n;
        let n = pane_text(h, pane).len();
        proof {
            lemma_lines_before_mono(hunks@, i + 1, hunks@.len() as int, pane);
        }
        line_n = line_n + n as u32;
        if n > 0 {
            v.push((h.id(), hunk_kind(h), start_line, line_n - 1));
        }
        i += 1;
    }
    v
}


// ---------------------------------------------------------------------------
// Result stripes
// ---------------------------------------------------------------------------

/// The theme color a result stripe is painted in.
#[derive(Clone, Copy, Debug, PartialEq, Eq, Structural)]
pub enum StripeTone {
    /// Taken from the local side.
    Green,
    /// Taken from the remote side.
    Sapphire,
    /// Reverted to the base.
    Yellow,
    /// Edited by hand.
    Overlay,
    /// An unresolved conflict.
    Red,
}

/// The stripe beside a hunk's output in the result pane: none for a stable
/// hunk; the side whose text the hunk's output holds otherwise, a one-sided
/// hunk taking its own side until resolved otherwise, a conflict red until
/// resolved.
pub open spec fn stripe_spec(h: MergeHunk, res: Option<ResKind>) -> Option<StripeTone> {
    match h {
        MergeHunk::Stable { .. } => None,
        MergeHunk::LocalOnly { .. } => Some(
            match res {
                Some(ResKind::Base) => StripeTone::Yellow,
                Some(ResKind::Custom) => StripeTone::Overlay,
                _ => StripeTone::Green,
            },
        ),
        MergeHunk::RemoteOnly { .. } => Some(
            match res {
                Some(ResKind::Base) => StripeTone::Yellow,
                Some(ResKind::Custom) => StripeTone::Overlay,
                _ => StripeTone::Sapphire,
            },
        ),
        MergeHunk::Conflict { .. } => Some(
            match res {
                None => StripeTone::Red,
                Some(ResKind::Local) => StripeTone::Green,
                Some(ResKind::Remote) => StripeTone::Sapphire,
                Some(ResKind::Base) => StripeTone::Yellow,
                Some(ResKind::Custom) => StripeTone::Overlay,
            },
        ),
    }
}

/// The stripe tone for a hunk in its current resolution state.
pub fn stripe_tone(hunk: &MergeHunk, resolution: Option<&Resolution>) -> (t: Option<StripeTone>)
    ensures
        t == stripe_spec(
            *hunk,
            match resolution {
                Some(r) => Some(res_kind_of(*r)),
                None => None::<ResKind>,
            },
        ),
        t is None <==> *hunk is Stable,
        !(*hunk is Stable) && resolution is Some && *resolution.unwrap() is Base ==> t == Some(
            StripeTone::Yellow,
        ),
{
    let res = resolution_kind(resolution);
    match hunk {
        MergeHunk::Stable { .. } => None,
        MergeHunk::LocalOnly { .. } => Some(
            match res {
                Some(ResKind::Base) => StripeTone::Yellow,
                Some(ResKind::Custom) => StripeTone::Overlay,
                _ => StripeTone::Green,
            },
        ),
        MergeHunk::RemoteOnly { .. } => Some(
            match res {
                Some(ResKind::Base) => StripeTone::Yellow,
                Some(ResKind::Custom) => StripeTone::Overlay,
                _ => StripeTone::Sapphire,
            },
        ),
        MergeHunk::Conflict { .. } => Some(
            match res {
                None => StripeTone::Red,
                Some(ResKind::Local) => StripeTone::Green,
                Some(ResKind::Remote) => StripeTone::Sapphire,
                Some(ResKind::Base) => StripeTone::Yellow,
                Some(ResKind::Custom) => StripeTone::Overlay,
            },
        ),
    }
}

/// The stripe names the side whose text a hunk's output holds: no stripe
/// exactly for a stable hunk; a hunk resolved to the base is yellow and one
/// edited by hand is overlay, whatever its kind; a conflict taken from local
/// is green, from remote sapphire, and red while unresolved; a one-sided
/// hunk not reverted or edited keeps its own side's tone.
pub proof fn lemma_stripe_names_output_side(h: MergeHunk, res: Option<ResKind>)
    ensures
        stripe_spec(h, res) is None <==> h is Stable,
        !(h is Stable) && res == Some(ResKind::Base) ==> stripe_spec(h, res) == Some(
            StripeTone::Yellow,
        ),
        !(h is Stable) && res == Some(ResKind::Custom) ==> stripe_spec(h, res) == Some(
            StripeTone::Overlay,
        ),
        h is Conflict && res is None ==> stripe_spec(h, res) == Some(StripeTone::Red),
        h is Conflict && res == Some(ResKind::Local) ==> stripe_spec(h, res) == Some(
            StripeTone::Green,
        ),
        h is Conflict && res == Some(ResKind::Remote) ==> stripe_spec(h, res) == Some(
            StripeTone::Sapphire,
        ),
        h is LocalOnly && res != Some(ResKind::Base) && res != Some(ResKind::Custom) ==> stripe_spec(
            h,
            res,
        ) == Some(StripeTone::Green),
        h is RemoteOnly && res != Some(ResKind::Base) && res != Some(ResKind::Custom)
            ==> stripe_spec(h, res) == Some(StripeTone::Sapphire),
{
}

/// The pickers show each choice in its own shape (base a square, local a
/// circle, remote a diamond) and fill exactly the current pick: the chosen
/// side, or, with nothing chosen, a one-sided hunk's own side; a hand edit
/// fills none. A stable hunk has no pickers, a one-sided hunk offers its
/// side and the base, and a conflict offers all three.
pub proof fn lemma_pickers_show_current_pick(h: MergeHunk, active: Option<ResKind>)
    ensures
        ({
            let ps = picker_spec(h, active);
            &&& ps.len() == match h {
                MergeHunk::Stable { .. } => 0int,
                MergeHunk::Conflict { .. } => 3int,
                _ => 2int,
            }
            &&& forall|i: int|
                0 <= i < ps.len() ==> (#[trigger] ps[i]).0 == match ps[i].1 {
                    ResKind::Base => IconShape::Square,
                    ResKind::Local => IconShape::Circle,
                    _ => IconShape::Diamond,
                }
            &&& forall|i: int|
                0 <= i < ps.len() ==> ((#[trigger] ps[i]).2 <==> (active == Some(ps[i].1) || (
                active is None && (h is LocalOnly && ps[i].1 == ResKind::Local || h is RemoteOnly
                    && ps[i].1 == ResKind::Remote))))
            &&& forall|i: int, j: int|
                0 <= i < j < ps.len() ==> (#[trigger] ps[i]).1 != (#[trigger] ps[j]).1
            &&& h is LocalOnly ==> ps.map_values(|p: (IconShape, ResKind, bool)| p.1) == seq![
                ResKind::Base,
                ResKind::Local,
            ]
            &&& h is RemoteOnly ==> ps.map_values(|p: (IconShape, ResKind, bool)| p.1) == seq![
                ResKind::Remote,
                ResKind::Base,
            ]
            &&& h is Conflict ==> ps.map_values(|p: (IconShape, ResKind, bool)| p.1) == seq![
                ResKind::Remote,
                ResKind::Base,
                ResKind::Local,
            ]
        }),
{
    let ps = picker_spec(h, active);
    assert(ps.map_values(|p: (IconShape, ResKind, bool)| p.1) =~= match h {
        MergeHunk::Stable { .. } => Seq::<ResKind>::empty(),
        MergeHunk::LocalOnly { .. } => seq![ResKind::Base, ResKind::Local],
        MergeHunk::RemoteOnly { .. } => seq![ResKind::Remote, ResKind::Base],
        MergeHunk::Conflict { .. } => seq![ResKind::Remote, ResKind::Base, ResKind::Local],
    });
}

} // verus!
