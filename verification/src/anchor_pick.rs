//! Hover-to-anchor interaction on the anchor rails of a 2-way view: a pure
//! state machine from the current pick state and one frame's rail event to
//! the next state and the store mutation to perform.

use vstd::prelude::*;

use crate::diff::LineNo;
use crate::selection::Side;

verus! {

/// An icon on a rail: its side, its 1-based line, and the index of the anchor
/// that already includes the line, if any.
#[derive(Clone, Copy, Debug, PartialEq, Eq, Structural)]
pub struct RailClick {
    pub side: Side,
    pub line: LineNo,
    pub anchor_idx: Option<usize>,
}

/// Live interaction state for hover-to-anchor.
#[derive(Clone, Copy, Debug, PartialEq, Eq, Structural, Default)]
pub enum AnchorPick {
    #[default]
    Idle,
    /// An unanchored icon was clicked; its partner on the other rail is awaited.
    Picking { side: Side, line: LineNo },
}

/// One frame's input that can affect `AnchorPick`.
#[derive(Clone, Copy, Debug, PartialEq, Eq, Structural)]
pub enum RailEvent {
    /// Mouse-down on a rail icon.
    Click(RailClick),
    /// Mouse-down inside the view but not on a rail icon.
    ClickedElsewhere,
    /// Escape pressed.
    Escape,
    /// Nothing happened.
    NoEvent,
}

/// Store mutation to apply after a transition.
#[derive(Clone, Copy, Debug, PartialEq, Eq, Structural)]
pub enum RailAction {
    NoAction,
    /// Remove the anchor at this index.
    RemoveAnchor { idx: usize },
    /// Add an anchor joining left line `a` and right line `b`.
    AddAnchor { a: LineNo, b: LineNo },
}

/// The transition table.
pub open spec fn anchor_step(current: AnchorPick, event: RailEvent) -> (AnchorPick, RailAction) {
    match event {
        RailEvent::NoEvent => (current, RailAction::NoAction),
        RailEvent::Escape => (AnchorPick::Idle, RailAction::NoAction),
        RailEvent::ClickedElsewhere => (AnchorPick::Idle, RailAction::NoAction),
        RailEvent::Click(c) => match current {
            AnchorPick::Idle => match c.anchor_idx {
                Some(idx) => (AnchorPick::Idle, RailAction::RemoveAnchor { idx }),
                Option::None => (AnchorPick::Picking { side: c.side, line: c.line }, RailAction::NoAction),
            },
            AnchorPick::Picking { side, line } => if c.side == side {
                (AnchorPick::Picking { side: c.side, line: c.line }, RailAction::NoAction)
            } else {
                match c.anchor_idx {
                    Some(_) => (current, RailAction::NoAction),
                    Option::None => (
                        AnchorPick::Idle,
                        match side {
                            Side::Left => RailAction::AddAnchor { a: line, b: c.line },
                            Side::Right => RailAction::AddAnchor { a: c.line, b: line },
                        },
                    ),
                }
            },
        },
    }
}

/// One step of the hover-to-anchor state machine: the next pick state and
/// the store mutation the caller must apply.
pub fn next_anchor_pick(current: AnchorPick, event: RailEvent) -> (r: (AnchorPick, RailAction))
    ensures
        r == anchor_step(current, event),
        // Nothing happening changes nothing.
        event == RailEvent::NoEvent ==> r == (current, RailAction::NoAction),
        // Escape and a click elsewhere always cancel.
        (event == RailEvent::Escape || event == RailEvent::ClickedElsewhere) ==> r == (
            AnchorPick::Idle,
            RailAction::NoAction,
        ),
        // Anchors are only removed from the idle state, at the clicked anchor.
        r.1 matches RailAction::RemoveAnchor { idx } ==> {
            &&& current == AnchorPick::Idle
            &&& event matches RailEvent::Click(c)
            &&& c.anchor_idx == Some(idx)
        },
        // A new anchor always joins a left line to a right line: the picked
        // source line and the unanchored line clicked on the other rail.
        r.1 matches RailAction::AddAnchor { a, b } ==> {
            &&& r.0 == AnchorPick::Idle
            &&& current matches AnchorPick::Picking { side, line }
            &&& event matches RailEvent::Click(c)
            &&& c.side != side
            &&& c.anchor_idx is None
            &&& (a, b) == match side {
                Side::Left => (line, c.line),
                Side::Right => (c.line, line),
            }
        },
{
    match event {
        RailEvent::NoEvent => (current, RailAction::NoAction),
        RailEvent::Escape => (AnchorPick::Idle, RailAction::NoAction),
        RailEvent::ClickedElsewhere => (AnchorPick::Idle, RailAction::NoAction),
        RailEvent::Click(c) => match current {
            AnchorPick::Idle => match c.anchor_idx {
                Some(idx) => (AnchorPick::Idle, RailAction::RemoveAnchor { idx }),
                Option::None => (AnchorPick::Picking { side: c.side, line: c.line }, RailAction::NoAction),
            },
            AnchorPick::Picking { side, line } => if c.side == side {
                (AnchorPick::Picking { side: c.side, line: c.line }, RailAction::NoAction)
            } else {
                match c.anchor_idx {
                    Some(_) => (current, RailAction::NoAction),
                    Option::None => (
                        AnchorPick::Idle,
                        match side {
                            Side::Left => RailAction::AddAnchor { a: line, b: c.line },
                            Side::Right => RailAction::AddAnchor { a: c.line, b: line },
                        },
                    ),
                }
            },
        },
    }
}

/// What a click on a rail icon does. From idle, a click on an anchored line
/// removes that anchor and one on an unanchored line starts a pick of that
/// side and line. While picking, a click on the same rail re-picks there, a
/// click on an anchored line of the other rail is ignored, and one on an
/// unanchored line of the other rail adds the anchor joining the two lines,
/// left line first, and ends the pick.
pub proof fn lemma_rail_clicks(current: AnchorPick, c: RailClick)
    ensures
        ({
            let r = anchor_step(current, RailEvent::Click(c));
            &&& current == AnchorPick::Idle && c.anchor_idx is None ==> r == (
                AnchorPick::Picking { side: c.side, line: c.line },
                RailAction::NoAction,
            )
            &&& current == AnchorPick::Idle && c.anchor_idx is Some ==> r == (
                AnchorPick::Idle,
                RailAction::RemoveAnchor { idx: c.anchor_idx->Some_0 },
            )
            &&& current matches AnchorPick::Picking { side, line } ==> {
                &&& c.side == side ==> r == (
                    AnchorPick::Picking { side: c.side, line: c.line },
                    RailAction::NoAction,
                )
                &&& c.side != side && c.anchor_idx is Some ==> r == (current, RailAction::NoAction)
                &&& c.side != side && c.anchor_idx is None ==> r == (
                    AnchorPick::Idle,
                    if side == Side::Left {
                        RailAction::AddAnchor { a: line, b: c.line }
                    } else {
                        RailAction::AddAnchor { a: c.line, b: line }
                    },
                )
            }
        }),
{
}

/// From idle, clicking an unanchored line on one rail and then an unanchored
/// line on the other adds the anchor joining them (left line first) and
/// returns to idle, whichever rail was clicked first.
pub proof fn lemma_two_clicks_add_anchor(c1: RailClick, c2: RailClick)
    requires
        c1.anchor_idx is None,
        c2.anchor_idx is None,
        c1.side != c2.side,
    ensures
        ({
            let first = anchor_step(AnchorPick::Idle, RailEvent::Click(c1));
            let second = anchor_step(first.0, RailEvent::Click(c2));
            let (left, right) = if c1.side == Side::Left {
                (c1.line, c2.line)
            } else {
                (c2.line, c1.line)
            };
            &&& first.1 == RailAction::NoAction
            &&& second == (AnchorPick::Idle, RailAction::AddAnchor { a: left, b: right })
        }),
{
}

} // verus!
