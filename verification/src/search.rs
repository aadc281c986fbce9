//! Find-in-panes state: the query and its options, the compiled query, the
//! matches each pane registered this frame, and the jump to the next or
//! previous match.
//!
//! The state is generic over the compiled query type `Q`; compiling a query
//! and finding its matches in a text are supplied by the caller.

use vstd::prelude::*;

use crate::selection::FocusedPane;

verus! {

/// Identifies a text pane within a session.
#[derive(Clone, Copy, Debug, PartialEq, Eq, Structural, Hash)]
pub enum PaneId {
    TwoWayA,
    TwoWayB,
    ThreeWayBase,
    ThreeWayLocal,
    ThreeWayRemote,
    Result,
}

impl PaneId {
    /// The pane a focus target names; the two enums have the same variants.
    pub fn from_focused(p: FocusedPane) -> (r: Self)
        ensures
            r == match p {
                FocusedPane::TwoWayA => PaneId::TwoWayA,
                FocusedPane::TwoWayB => PaneId::TwoWayB,
                FocusedPane::ThreeWayBase => PaneId::ThreeWayBase,
                FocusedPane::ThreeWayLocal => PaneId::ThreeWayLocal,
                FocusedPane::ThreeWayRemote => PaneId::ThreeWayRemote,
                FocusedPane::Result => PaneId::Result,
            },
    {
        match p {
            FocusedPane::TwoWayA => PaneId::TwoWayA,
            FocusedPane::TwoWayB => PaneId::TwoWayB,
            FocusedPane::ThreeWayBase => PaneId::ThreeWayBase,
            FocusedPane::ThreeWayLocal => PaneId::ThreeWayLocal,
            FocusedPane::ThreeWayRemote => PaneId::ThreeWayRemote,
            FocusedPane::Result => PaneId::Result,
        }
    }
}

/// The slot of a pane in the per-pane match table.
pub open spec fn pane_slot(p: PaneId) -> int {
    match p {
        PaneId::TwoWayA => 0,
        PaneId::TwoWayB => 1,
        PaneId::ThreeWayBase => 2,
        PaneId::ThreeWayLocal => 3,
        PaneId::ThreeWayRemote => 4,
        PaneId::Result => 5,
    }
}

fn slot_of(p: PaneId) -> (i: usize)
    ensures
        i as int == pane_slot(p),
{
    match p {
        PaneId::TwoWayA => 0,
        PaneId::TwoWayB => 1,
        PaneId::ThreeWayBase => 2,
        PaneId::ThreeWayLocal => 3,
        PaneId::ThreeWayRemote => 4,
        PaneId::Result => 5,
    }
}

/// Number of panes, and of slots in the match table.
pub const PANE_COUNT: usize = 6;

/// Direction of an Enter / Shift+Enter jump.
#[derive(Clone, Copy, Debug, PartialEq, Eq, Structural)]
pub enum JumpDir {
    Next,
    Prev,
}

/// One occurrence of the query in a pane's text: its 1-based line, its
/// character columns on that line, and its byte range in the text.
#[derive(Clone, Copy, Debug, PartialEq, Eq, Structural)]
pub struct Match {
    pub line: u32,
    pub start_col: usize,
    pub end_col: usize,
    pub byte_start: usize,
    pub byte_end: usize,
}

/// Where a jump landed: the new caret byte offset, the line to scroll to,
/// and the index of the match.
#[derive(Clone, Copy, Debug, PartialEq, Eq, Structural)]
pub struct JumpResult {
    pub caret_byte: usize,
    pub line: u32,
    pub match_index: usize,
}

/// Live find state, kept across frames.
pub struct AppSearch<Q> {
    pub query: String,
    pub case_sensitive: bool,
    pub whole_word: bool,
    pub regex: bool,
    /// `Ok(Some(q))` for a valid non-empty query, `Err(())` for one that does
    /// not compile, `Ok(None)` when the query is empty.
    pub compiled: Result<Option<Q>, ()>,
    /// Per-pane match lists registered this frame, one slot per pane
    /// (see `pane_slot`).
    pub matches: Vec<Option<Vec<Match>>>,
    /// Number of matches registered this frame.
    pub total_matches: usize,
    /// Set by Ctrl+F; consumed when the find input takes focus.
    pub focus_request: bool,
    /// Set by Enter / F3 / Shift+F3; consumed by the pane that jumps.
    pub jump_request: Option<JumpDir>,
    /// Pane and match index of the current match.
    pub current: Option<(PaneId, usize)>,
}

impl<Q> AppSearch<Q> {
    /// The match table has one slot per pane.
    pub open spec fn wf(&self) -> bool {
        self.matches@.len() == PANE_COUNT
    }

    /// The matches `p` registered this frame, if it registered any.
    pub open spec fn registered(&self, p: PaneId) -> Option<Seq<Match>> {
        match self.matches@[pane_slot(p)] {
            Some(v) => Some(v@),
            None => None,
        }
    }

    /// An empty query with every option off and nothing registered.
    pub fn new() -> (s: Self)
        ensures
            s.wf(),
            s.query@ == Seq::<char>::empty(),
            !s.case_sensitive,
            !s.whole_word,
            !s.regex,
            s.compiled == Ok::<Option<Q>, ()>(None),
            forall|p: PaneId| s.registered(p) is None,
            s.total_matches == 0,
            !s.focus_request,
            s.jump_request is None,
            s.current is None,
    {
        let mut matches: Vec<Option<Vec<Match>>> = Vec::new();
        let mut i: usize = 0;
        while i < PANE_COUNT
            invariant
                i <= PANE_COUNT,
                matches@.len() == i,
                forall|k: int| 0 <= k < i ==> matches@[k] is None,
            decreases PANE_COUNT - i,
        {
            matches.push(None);
            i += 1;
        }
        AppSearch {
            query: String::new(),
            case_sensitive: false,
            whole_word: false,
            regex: false,
            compiled: Ok(None),
            matches,
            total_matches: 0,
            focus_request: false,
            jump_request: None,
            current: None,
        }
    }

    /// Rebuild `compiled` from the query and its options with `build`, the
    /// query compiler; the current match is forgotten, since the match set
    /// changes. An empty query compiles to `Ok(None)` without calling
    /// `build`.
    pub fn recompile<F: FnOnce(&String, bool, bool, bool) -> Result<Q, ()>>(&mut self, build: F)
        requires
            build.requires(
                (&old(self).query, old(self).case_sensitive, old(self).whole_word, old(self).regex),
            ),
        ensures
            final(self).current is None,
            final(self).query == old(self).query,
            final(self).case_sensitive == old(self).case_sensitive,
            final(self).whole_word == old(self).whole_word,
            final(self).regex == old(self).regex,
            final(self).wf() == old(self).wf(),
            forall|p: PaneId| final(self).registered(p) == old(self).registered(p),
            final(self).total_matches == old(self).total_matches,
            final(self).focus_request == old(self).focus_request,
            final(self).jump_request == old(self).jump_request,
            old(self).query@.len() == 0 ==> final(self).compiled == Ok::<Option<Q>, ()>(None),
            old(self).query@.len() > 0 ==> exists|r: Result<Q, ()>|
                {
                    &&& build.ensures(
                        (
                            &old(self).query,
                            old(self).case_sensitive,
                            old(self).whole_word,
                            old(self).regex,
                        ),
                        r,
                    )
                    &&& final(self).compiled == match r {
                        Ok(q) => Ok::<Option<Q>, ()>(Some(q)),
                        Err(_) => Err::<Option<Q>, ()>(()),
                    }
                },
    {
        self.current = None;
        if self.query.as_str().is_empty() {
            self.compiled = Ok(None);
            return;
        }
        let r = build(&self.query, self.case_sensitive, self.whole_word, self.regex);
        match r {
            Ok(q) => self.compiled = Ok(Some(q)),
            Err(_) => self.compiled = Err(()),
        }
    }

    /// Whether the find field shows an error: a non-empty query that does
    /// not compile, or that compiles and matches nothing this frame.
    pub fn is_error_state(&self) -> (r: bool)
        ensures
            r == (self.query@.len() > 0 && match self.compiled {
                Err(_) => true,
                Ok(Some(_)) => self.total_matches == 0,
                Ok(None) => false,
            }),
    {
        if self.query.as_str().is_empty() {
            return false;
        }
        match &self.compiled {
            Err(_) => true,
            Ok(Some(_)) => self.total_matches == 0,
            Ok(None) => false,
        }
    }

    /// Clear the per-frame matches at the top of a frame.
    pub fn begin_frame(&mut self)
        requires
            old(self).wf(),
        ensures
            final(self).wf(),
            forall|p: PaneId| final(self).registered(p) is None,
            final(self).total_matches == 0,
            final(self).query == old(self).query,
            final(self).compiled == old(self).compiled,
            final(self).current == old(self).current,
            final(self).jump_request == old(self).jump_request,
            final(self).focus_request == old(self).focus_request,
            final(self).case_sensitive == old(self).case_sensitive,
            final(self).whole_word == old(self).whole_word,
            final(self).regex == old(self).regex,
    {
        let mut i: usize = 0;
        while i < PANE_COUNT
            invariant
                i <= PANE_COUNT,
                self.matches@.len() == PANE_COUNT,
                forall|k: int| 0 <= k < i ==> self.matches@[k] is None,
                self.query == old(self).query,
                self.compiled == old(self).compiled,
                self.current == old(self).current,
                self.jump_request == old(self).jump_request,
                self.focus_request == old(self).focus_request,
                self.case_sensitive == old(self).case_sensitive,
                self.whole_word == old(self).whole_word,
                self.regex == old(self).regex,
            decreases PANE_COUNT - i,
        {
            self.matches.set(i, None);
            i += 1;
        }
        self.total_matches = 0;
        proof {
            assert forall|p: PaneId| self.registered(p) is None by {
                assert(self.matches@[pane_slot(p)] is None);
            }
        }
    }

    /// Register `pane`'s match list for this frame, replacing any list it
    /// registered before, and add its length to the frame's total.
    pub fn register(&mut self, pane: PaneId, ms: Vec<Match>)
        requires
            old(self).wf(),
            old(self).total_matches + ms@.len() <= usize::MAX,
        ensures
            final(self).wf(),
            final(self).registered(pane) == Some(ms@),
            forall|p: PaneId| p != pane ==> final(self).registered(p) == old(self).registered(p),
            final(self).total_matches == old(self).total_matches + ms@.len(),
            final(self).query == old(self).query,
            final(self).compiled == old(self).compiled,
            final(self).current == old(self).current,
            final(self).jump_request == old(self).jump_request,
            final(self).focus_request == old(self).focus_request,
            final(self).case_sensitive == old(self).case_sensitive,
            final(self).whole_word == old(self).whole_word,
            final(self).regex == old(self).regex,
    {
        self.total_matches = self.total_matches + ms.len();
        let ghost msv = ms@;
        let slot = slot_of(pane);
        self.matches.set(slot, Some(ms));
        proof {
            assert forall|p: PaneId| p != pane implies self.registered(p) == old(
                self,
            ).registered(p) by {
                assert(pane_slot(p) != pane_slot(pane));
            }
        }
    }

    /// The matches `pane` registered this frame.
    pub fn matches_for(&self, pane: PaneId) -> (r: Option<&Vec<Match>>)
        requires
            self.wf(),
        ensures
            match r {
                Some(v) => self.registered(pane) == Some(v@),
                None => self.registered(pane) is None,
            },
    {
        match &self.matches[slot_of(pane)] {
            Some(v) => Some(v),
            None => None,
        }
    }

    /// The compiled query, when the query is valid and non-empty.
    pub fn active_query(&self) -> (r: Option<&Q>)
        ensures
            match self.compiled {
                Ok(Some(q)) => r == Some(&q),
                _ => r is None,
            },
    {
        match &self.compiled {
            Ok(Some(q)) => Some(q),
            _ => None,
        }
    }
}

impl<Q> Default for AppSearch<Q> {
    fn default() -> (s: Self)
        ensures
            s.wf(),
            s.query@ == Seq::<char>::empty(),
            s.compiled == Ok::<Option<Q>, ()>(None),
            forall|p: PaneId| s.registered(p) is None,
            s.total_matches == 0,
            s.jump_request is None,
            s.current is None,
    {
        Self::new()
    }
}

/// Find the matches of the active query in `text` with `find` and register
/// them for `pane`; with no active query, register an empty list. Returns
/// what was registered.
pub fn compute_and_register<Q, F: FnOnce(&str, &Q) -> Vec<Match>>(
    search: &mut AppSearch<Q>,
    pane: PaneId,
    text: &str,
    find: F,
) -> (ms: Vec<Match>)
    requires
        old(search).wf(),
        old(search).compiled matches Ok(Some(q)) ==> {
            &&& find.requires((text, &q))
            &&& forall|r: Vec<Match>|
                #[trigger] find.ensures((text, &q), r) ==> old(search).total_matches + r@.len()
                    <= usize::MAX
        },
    ensures
        final(search).wf(),
        old(search).compiled matches Ok(Some(q)) ==> find.ensures((text, &q), ms),
        !(old(search).compiled matches Ok(Some(_))) ==> ms@.len() == 0,
        final(search).registered(pane) == Some(ms@),
        forall|p: PaneId| p != pane ==> final(search).registered(p) == old(search).registered(p),
        final(search).total_matches == old(search).total_matches + ms@.len(),
        final(search).query == old(search).query,
        final(search).case_sensitive == old(search).case_sensitive,
        final(search).whole_word == old(search).whole_word,
        final(search).regex == old(search).regex,
        final(search).compiled == old(search).compiled,
        final(search).current == old(search).current,
        final(search).jump_request == old(search).jump_request,
        final(search).focus_request == old(search).focus_request,
{
    let found = match &search.compiled {
        Ok(Some(q)) => Some(find(text, q)),
        _ => None,
    };
    match found {
        Some(ms) => {
            let copy = ms.clone();
            search.register(pane, copy);
            ms
        },
        None => {
            search.register(pane, Vec::new());
            Vec::new()
        },
    }
}

// ---------------------------------------------------------------------------
// Jumping between matches
// ---------------------------------------------------------------------------

/// Index of the first match at or after `i` that starts at or after `caret`,
/// or the length when none does.
pub open spec fn first_starting_at_or_after(ms: Seq<Match>, caret: int, i: int) -> int
    decreases ms.len() - i,
{
    if i < 0 || i >= ms.len() {
        ms.len() as int
    } else if ms[i].byte_start >= caret {
        i
    } else {
        first_starting_at_or_after(ms, caret, i + 1)
    }
}

/// Index of the last of the first `n` matches that ends at or before
/// `caret`, or -1 when none does.
pub open spec fn last_ending_at_or_before(ms: Seq<Match>, caret: int, n: int) -> int
    decreases n,
{
    if n <= 0 {
        -1
    } else if ms[n - 1].byte_end <= caret {
        n - 1
    } else {
        last_ending_at_or_before(ms, caret, n - 1)
    }
}

/// The index a jump in direction `dir` lands on among `ms` (non-empty):
/// from the current match when it is in this pane (wrapping around), else
/// the first match starting at or after the caret (Next, default the first)
/// or the last one ending at or before it (Prev, default the last).
pub open spec fn jump_target(
    ms: Seq<Match>,
    dir: JumpDir,
    pinned: Option<int>,
    caret: int,
) -> int {
    let n = ms.len() as int;
    match pinned {
        Some(i) => match dir {
            JumpDir::Next => (i + 1) % n,
            JumpDir::Prev => (i + n - 1) % n,
        },
        None => match dir {
            JumpDir::Next => {
                let k = first_starting_at_or_after(ms, caret, 0);
                if k < n {
                    k
                } else {
                    0
                }
            },
            JumpDir::Prev => {
                let k = last_ending_at_or_before(ms, caret, n);
                if k >= 0 {
                    k
                } else {
                    n - 1
                }
            },
        },
    }
}

/// The current match's index when it lies in `pane` and is in range.
pub open spec fn pinned_index(current: Option<(PaneId, usize)>, pane: PaneId, n: int) -> Option<int> {
    match current {
        Some((p, i)) => if p == pane && i < n {
            Some(i as int)
        } else {
            None
        },
        None => None,
    }
}

/// Whether a pending jump is for `pane`: it is the focused pane, or nothing
/// is focused and it has matches.
pub open spec fn jump_applies(
    request: Option<JumpDir>,
    pane: PaneId,
    ms: Seq<Match>,
    focused: Option<PaneId>,
) -> bool {
    &&& request is Some
    &&& ms.len() > 0
    &&& match focused {
        Some(f) => f == pane,
        None => true,
    }
}

proof fn lemma_first_starting(ms: Seq<Match>, caret: int, i: int)
    requires
        0 <= i <= ms.len(),
    ensures
        i <= first_starting_at_or_after(ms, caret, i) <= ms.len(),
    decreases ms.len() - i,
{
    if i < ms.len() && ms[i].byte_start < caret {
        lemma_first_starting(ms, caret, i + 1);
    }
}

proof fn lemma_last_ending(ms: Seq<Match>, caret: int, n: int)
    requires
        0 <= n <= ms.len(),
    ensures
        -1 <= last_ending_at_or_before(ms, caret, n) < n,
    decreases n,
{
    if n > 0 && ms[n - 1].byte_end > caret {
        lemma_last_ending(ms, caret, n - 1);
    }
}

fn first_from_caret(matches: &[Match], caret_byte: usize) -> (k: usize)
    ensures
        k as int == first_starting_at_or_after(matches@, caret_byte as int, 0),
{
    let mut i: usize = 0;
    while i < matches.len()
        invariant
            i <= matches.len(),
            first_starting_at_or_after(matches@, caret_byte as int, 0)
                == first_starting_at_or_after(matches@, caret_byte as int, i as int),
        decreases matches.len() - i,
    {
        if matches[i].byte_start >= caret_byte {
            return i;
        }
        i += 1;
    }
    i
}

fn last_before_caret(matches: &[Match], caret_byte: usize) -> (k: Option<usize>)
    ensures
        match k {
            Some(j) => j as int == last_ending_at_or_before(
                matches@,
                caret_byte as int,
                matches@.len() as int,
            ),
            None => last_ending_at_or_before(matches@, caret_byte as int, matches@.len() as int)
                == -1,
        },
{
    let mut n: usize = matches.len();
    while n > 0
        invariant
            n <= matches.len(),
            last_ending_at_or_before(matches@, caret_byte as int, matches@.len() as int)
                == last_ending_at_or_before(matches@, caret_byte as int, n as int),
        decreases n,
    {
        if matches[n - 1].byte_end <= caret_byte {
            return Some(n - 1);
        }
        n -= 1;
    }
    None
}

/// If a jump is pending and is for `pane` (the focused pane, or, with no
/// pane focused, a pane with matches), pick the next or previous match,
/// clear the request, make that match current and return where it is.
pub fn consume_jump_for_pane<Q>(
    search: &mut AppSearch<Q>,
    pane: PaneId,
    matches: &[Match],
    caret_byte: usize,
    focused: Option<PaneId>,
) -> (r: Option<JumpResult>)
    ensures
        !jump_applies(old(search).jump_request, pane, matches@, focused) ==> {
            &&& r is None
            &&& *final(search) == *old(search)
        },
        jump_applies(old(search).jump_request, pane, matches@, focused) ==> {
            let idx = jump_target(
                matches@,
                old(search).jump_request->Some_0,
                pinned_index(old(search).current, pane, matches@.len() as int),
                caret_byte as int,
            );
            &&& 0 <= idx < matches@.len()
            &&& r == Some(
                JumpResult {
                    caret_byte: matches@[idx].byte_end,
                    line: matches@[idx].line,
                    match_index: idx as usize,
                },
            )
            &&& final(search).jump_request is None
            &&& final(search).current == Some((pane, idx as usize))
            &&& final(search).query == old(search).query
            &&& final(search).compiled == old(search).compiled
            &&& final(search).wf() == old(search).wf()
            &&& forall|p: PaneId| final(search).registered(p) == old(search).registered(p)
            &&& final(search).total_matches == old(search).total_matches
            &&& final(search).focus_request == old(search).focus_request
        },
{
    let dir = match search.jump_request {
        Some(d) => d,
        None => return None,
    };
    let target_ok = match focused {
        Some(f) => f == pane,
        None => matches.len() > 0,
    };
    if !target_ok || matches.len() == 0 {
        return None;
    }
    let n = matches.len();
    let pinned: Option<usize> = match search.current {
        Some((p, i)) => if p == pane && i < n {
            Some(i)
        } else {
            None
        },
        None => None,
    };
    let idx: usize = match pinned {
        Some(i) => match dir {
            JumpDir::Next => if i + 1 == n {
                0
            } else {
                i + 1
            },
            JumpDir::Prev => if i == 0 {
                n - 1
            } else {
                i - 1
            },
        },
        None => match dir {
            JumpDir::Next => {
                let k = first_from_caret(matches, caret_byte);
                proof {
                    lemma_first_starting(matches@, caret_byte as int, 0);
                }
                if k < n {
                    k
                } else {
                    0
                }
            },
            JumpDir::Prev => {
                proof {
                    lemma_last_ending(matches@, caret_byte as int, n as int);
                }
                match last_before_caret(matches, caret_byte) {
                    Some(k) => k,
                    None => n - 1,
                }
            },
        },
    };
    proof {
        let ghost target = jump_target(
            matches@,
            dir,
            pinned_index(search.current, pane, n as int),
            caret_byte as int,
        );
        if pinned is Some {
            let i = pinned->Some_0 as int;
            if dir == JumpDir::Next {
                if i + 1 == n {
                    assert((i + 1) % (n as int) == 0) by (nonlinear_arith)
                        requires
                            i + 1 == n,
                            n > 0,
                    ;
                } else {
                    assert((i + 1) % (n as int) == i + 1) by (nonlinear_arith)
                        requires
                            0 <= i + 1 < n,
                    ;
                }
            } else {
                if i == 0 {
                    assert((i + n - 1) % (n as int) == n - 1) by (nonlinear_arith)
                        requires
                            i == 0,
                            n > 0,
                    ;
                } else {
                    assert((i + n - 1) % (n as int) == i - 1) by (nonlinear_arith)
                        requires
                            0 < i < n,
                    ;
                }
            }
        }
        assert(idx as int == target);
    }
    let m = matches[idx];
    search.jump_request = None;
    search.current = Some((pane, idx));
    Some(JumpResult { caret_byte: m.byte_end, line: m.line, match_index: idx })
}


proof fn lemma_first_starting_finds(ms: Seq<Match>, caret: int, i: int)
    requires
        0 <= i <= ms.len(),
    ensures
        i <= first_starting_at_or_after(ms, caret, i) <= ms.len(),
        forall|j: int|
            i <= j < first_starting_at_or_after(ms, caret, i) ==> (#[trigger] ms[j]).byte_start
                < caret,
        first_starting_at_or_after(ms, caret, i) < ms.len() ==> ms[first_starting_at_or_after(
            ms,
            caret,
            i,
        )].byte_start >= caret,
    decreases ms.len() - i,
{
    if i < ms.len() && ms[i].byte_start < caret {
        lemma_first_starting_finds(ms, caret, i + 1);
    }
}

proof fn lemma_last_ending_finds(ms: Seq<Match>, caret: int, n: int)
    requires
        0 <= n <= ms.len(),
    ensures
        -1 <= last_ending_at_or_before(ms, caret, n) < n,
        forall|j: int|
            last_ending_at_or_before(ms, caret, n) < j < n ==> (#[trigger] ms[j]).byte_end > caret,
        last_ending_at_or_before(ms, caret, n) >= 0 ==> ms[last_ending_at_or_before(
            ms,
            caret,
            n,
        )].byte_end <= caret,
    decreases n,
{
    if n > 0 && ms[n - 1].byte_end > caret {
        lemma_last_ending_finds(ms, caret, n - 1);
    }
}

/// Where a jump lands. From a current match in the pane it moves one match
/// on (Next) or back (Prev), wrapping around at the ends. Without one, Next
/// lands on the first match that starts at or after the caret, or on the
/// first match when none does; Prev lands on the last match that ends at or
/// before the caret, or on the last match when none does.
pub proof fn lemma_jump_lands(ms: Seq<Match>, dir: JumpDir, pinned: Option<int>, caret: int)
    requires
        ms.len() > 0,
        pinned is Some ==> 0 <= pinned->Some_0 < ms.len(),
    ensures
        ({
            let n = ms.len() as int;
            let k = jump_target(ms, dir, pinned, caret);
            &&& 0 <= k < n
            &&& pinned is Some && dir == JumpDir::Next ==> k == if pinned->Some_0 + 1 < n {
                pinned->Some_0 + 1
            } else {
                0
            }
            &&& pinned is Some && dir == JumpDir::Prev ==> k == if pinned->Some_0 > 0 {
                pinned->Some_0 - 1
            } else {
                n - 1
            }
            &&& pinned is None && dir == JumpDir::Next && (exists|j: int|
                0 <= j < n && (#[trigger] ms[j]).byte_start >= caret) ==> {
                &&& ms[k].byte_start >= caret
                &&& forall|j: int| 0 <= j < k ==> (#[trigger] ms[j]).byte_start < caret
            }
            &&& pinned is None && dir == JumpDir::Next && !(exists|j: int|
                0 <= j < n && (#[trigger] ms[j]).byte_start >= caret) ==> k == 0
            &&& pinned is None && dir == JumpDir::Prev && (exists|j: int|
                0 <= j < n && (#[trigger] ms[j]).byte_end <= caret) ==> {
                &&& ms[k].byte_end <= caret
                &&& forall|j: int| k < j < n ==> (#[trigger] ms[j]).byte_end > caret
            }
            &&& pinned is None && dir == JumpDir::Prev && !(exists|j: int|
                0 <= j < n && (#[trigger] ms[j]).byte_end <= caret) ==> k == n - 1
        }),
{
    let n = ms.len() as int;
    lemma_first_starting_finds(ms, caret, 0);
    lemma_last_ending_finds(ms, caret, n);
    if pinned is Some {
        let i = pinned->Some_0;
        if i + 1 < n {
            assert((i + 1) % n == i + 1) by (nonlinear_arith)
                requires
                    0 <= i + 1 < n,
            ;
        } else {
            assert((i + 1) % n == 0) by (nonlinear_arith)
                requires
                    i + 1 == n,
                    n > 0,
            ;
        }
        if i > 0 {
            assert((i + n - 1) % n == i - 1) by (nonlinear_arith)
                requires
                    0 < i < n,
            ;
        } else {
            assert((i + n - 1) % n == n - 1) by (nonlinear_arith)
                requires
                    i == 0,
                    n > 0,
            ;
        }
    }
}

/// From a current match, a jump to the next match followed by a jump to the
/// previous one lands on the match it started from, and so does the
/// reverse, wrapping around at both ends.
pub proof fn lemma_next_then_prev_returns(ms: Seq<Match>, i: int, caret: int)
    requires
        0 <= i < ms.len(),
    ensures
        jump_target(ms, JumpDir::Prev, Some(jump_target(ms, JumpDir::Next, Some(i), caret)), caret)
            == i,
        jump_target(ms, JumpDir::Next, Some(jump_target(ms, JumpDir::Prev, Some(i), caret)), caret)
            == i,
        0 <= jump_target(ms, JumpDir::Next, Some(i), caret) < ms.len(),
        0 <= jump_target(ms, JumpDir::Prev, Some(i), caret) < ms.len(),
{
    let n = ms.len() as int;
    if i + 1 < n {
        assert((i + 1) % n == i + 1) by (nonlinear_arith)
            requires
                0 <= i + 1 < n,
        ;
        assert((i + 1 + n - 1) % n == i) by (nonlinear_arith)
            requires
                0 <= i < n,
        ;
    } else {
        assert((i + 1) % n == 0) by (nonlinear_arith)
            requires
                i + 1 == n,
                n > 0,
        ;
        assert((0 + n - 1) % n == n - 1) by (nonlinear_arith)
            requires
                n > 0,
        ;
    }
    if i > 0 {
        assert((i + n - 1) % n == i - 1) by (nonlinear_arith)
            requires
                0 < i < n,
        ;
        assert((i - 1 + 1) % n == i) by (nonlinear_arith)
            requires
                0 <= i < n,
        ;
    } else {
        assert((i + n - 1) % n == n - 1) by (nonlinear_arith)
            requires
                i == 0,
                n > 0,
        ;
        assert((n - 1 + 1) % n == 0) by (nonlinear_arith)
            requires
                n > 0,
        ;
    }
}

} // verus!
