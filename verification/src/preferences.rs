//! Preferences that outlive a session: the last window geometry, and the
//! files to open at launch.

use vstd::prelude::*;

verus! {

/// Last known window geometry, restored at startup. Every field is optional
/// so that a fresh install falls back to the built-in size and the
/// platform's default position.
#[derive(Default, Debug, Clone, Copy, PartialEq, Eq, Structural)]
pub struct WindowPlacement {
    pub x: Option<i32>,
    pub y: Option<i32>,
    pub width: Option<u32>,
    pub height: Option<u32>,
    pub maximized: bool,
}

/// The placement after recording the window's state: the maximized flag
/// always; the size, and the position when it is known, only while the
/// window is not maximized (so that un-maximizing restores them).
pub open spec fn recorded_placement(
    prev: WindowPlacement,
    maximized: bool,
    size: (u32, u32),
    pos: Option<(i32, i32)>,
) -> WindowPlacement {
    if maximized {
        WindowPlacement { maximized: true, ..prev }
    } else {
        match pos {
            Some(p) => WindowPlacement {
                x: Some(p.0),
                y: Some(p.1),
                width: Some(size.0),
                height: Some(size.1),
                maximized: false,
            },
            None => WindowPlacement {
                width: Some(size.0),
                height: Some(size.1),
                maximized: false,
                ..prev
            },
        }
    }
}

impl WindowPlacement {
    /// Record the window's maximized state, inner size and outer position
    /// (`None` where the platform cannot tell it). Returns whether anything
    /// changed, i.e. whether the preferences need saving.
    pub fn record(&mut self, maximized: bool, size: (u32, u32), pos: Option<(i32, i32)>) -> (changed: bool)
        ensures
            *final(self) == recorded_placement(*old(self), maximized, size, pos),
            changed == (*final(self) != *old(self)),
    {
        let mut changed = false;
        if self.maximized != maximized {
            self.maximized = maximized;
            changed = true;
        }
        if !maximized {
            let same_size = match (self.width, self.height) {
                (Some(w), Some(h)) => w == size.0 && h == size.1,
                _ => false,
            };
            if !same_size {
                self.width = Some(size.0);
                self.height = Some(size.1);
                changed = true;
            }
            if let Some(p) = pos {
                let same_pos = match (self.x, self.y) {
                    (Some(x), Some(y)) => x == p.0 && y == p.1,
                    _ => false,
                };
                if !same_pos {
                    self.x = Some(p.0);
                    self.y = Some(p.1);
                    changed = true;
                }
            }
        }
        changed
    }
}

/// Files to open at launch, given on the command line.
#[derive(Debug, Clone)]
pub enum InitialOpen {
    TwoWay { a: String, b: String },
    ThreeWay {
        base: String,
        local: String,
        remote: String,
        /// Where the merged result is saved; loaded at launch when it exists.
        result: String,
    },
}


/// Recording the same window state twice changes nothing the second time,
/// so nothing needs saving then.
pub proof fn lemma_record_idempotent(
    p: WindowPlacement,
    maximized: bool,
    size: (u32, u32),
    pos: Option<(i32, i32)>,
)
    ensures
        recorded_placement(recorded_placement(p, maximized, size, pos), maximized, size, pos)
            == recorded_placement(p, maximized, size, pos),
{
}

/// Recording always stores the maximized flag. While maximized, the stored
/// size and position stay those of the last normal window, so that leaving
/// the maximized state restores them; otherwise the size is the window's,
/// and so is the position when it is known (an unknown one keeps the old).
pub proof fn lemma_record_keeps_normal_geometry(
    p: WindowPlacement,
    maximized: bool,
    size: (u32, u32),
    pos: Option<(i32, i32)>,
)
    ensures
        ({
            let r = recorded_placement(p, maximized, size, pos);
            &&& r.maximized == maximized
            &&& maximized ==> r.x == p.x && r.y == p.y && r.width == p.width && r.height == p.height
            &&& !maximized ==> r.width == Some(size.0) && r.height == Some(size.1)
            &&& !maximized && pos is Some ==> r.x == Some(pos->Some_0.0) && r.y == Some(
                pos->Some_0.1,
            )
            &&& !maximized && pos is None ==> r.x == p.x && r.y == p.y
        }),
{
}

} // verus!
