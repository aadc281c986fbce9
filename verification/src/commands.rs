//! What a diff session looks like to a front end: the lines, anchors and
//! hunks of a two-way or three-way session, flattened into one view value.

use vstd::prelude::*;

use crate::diff::{Anchor, Hunk};
use crate::merge::{MergeAnchor, MergeHunk};

verus! {

/// Identifies a session.
pub type SessionId = u64;

/// The content of a session, by kind.
pub enum SessionMode {
    TwoWay { a_lines: Vec<String>, b_lines: Vec<String>, anchors: Vec<Anchor>, hunks: Vec<Hunk> },
    ThreeWay {
        base_lines: Vec<String>,
        local_lines: Vec<String>,
        remote_lines: Vec<String>,
        anchors: Vec<MergeAnchor>,
        hunks: Vec<MergeHunk>,
    },
}

/// A diff session: its id, the engine that computed it, its content, and a
/// hand-edited result if the user wrote one.
pub struct DiffSession {
    pub id: SessionId,
    pub engine: String,
    pub mode: SessionMode,
    pub manual_result: Option<String>,
}

/// A two-way session as a front end sees it.
pub struct TwoWayView {
    pub session_id: SessionId,
    pub engine: String,
    pub a_lines: Vec<String>,
    pub b_lines: Vec<String>,
    pub anchors: Vec<Anchor>,
    pub hunks: Vec<Hunk>,
    pub manual_result: Option<String>,
}

/// A three-way session as a front end sees it.
pub struct ThreeWayView {
    pub session_id: SessionId,
    pub engine: String,
    pub base_lines: Vec<String>,
    pub local_lines: Vec<String>,
    pub remote_lines: Vec<String>,
    pub anchors: Vec<MergeAnchor>,
    pub hunks: Vec<MergeHunk>,
    pub manual_result: Option<String>,
}

/// A session view, tagged by kind.
pub enum SessionView {
    TwoWay(TwoWayView),
    ThreeWay(ThreeWayView),
}

/// The view of a session: every field of the session moves into the view of
/// its kind, unchanged.
pub fn to_view(s: DiffSession) -> (v: SessionView)
    ensures
        match (s.mode, v) {
            (SessionMode::TwoWay { a_lines, b_lines, anchors, hunks }, SessionView::TwoWay(t)) => {
                &&& t.session_id == s.id
                &&& t.engine == s.engine
                &&& t.a_lines == a_lines
                &&& t.b_lines == b_lines
                &&& t.anchors == anchors
                &&& t.hunks == hunks
                &&& t.manual_result == s.manual_result
            },
            (
                SessionMode::ThreeWay { base_lines, local_lines, remote_lines, anchors, hunks },
                SessionView::ThreeWay(t),
            ) => {
                &&& t.session_id == s.id
                &&& t.engine == s.engine
                &&& t.base_lines == base_lines
                &&& t.local_lines == local_lines
                &&& t.remote_lines == remote_lines
                &&& t.anchors == anchors
                &&& t.hunks == hunks
                &&& t.manual_result == s.manual_result
            },
            _ => false,
        },
{
    match s.mode {
        SessionMode::TwoWay { a_lines, b_lines, anchors, hunks } => {
            SessionView::TwoWay(
                TwoWayView {
                    session_id: s.id,
                    engine: s.engine,
                    a_lines,
                    b_lines,
                    anchors,
                    hunks,
                    manual_result: s.manual_result,
                },
            )
        },
        SessionMode::ThreeWay { base_lines, local_lines, remote_lines, anchors, hunks } => {
            SessionView::ThreeWay(
                ThreeWayView {
                    session_id: s.id,
                    engine: s.engine,
                    base_lines,
                    local_lines,
                    remote_lines,
                    anchors,
                    hunks,
                    manual_result: s.manual_result,
                },
            )
        },
    }
}

} // verus!
