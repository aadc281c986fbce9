//! The read-only information tab of a Swarm review or changelist: its file
//! rows and the loading progress line.

use vstd::prelude::*;

use crate::commands::SessionId;
use crate::text::{digits, push_str, push_unsigned};

verus! {

/// One row of the file list; clicking it switches to that file's tab.
pub struct InfoFileRow {
    pub depot_path: String,
    pub action_label: String,
    /// `None` while the file's tab has not been created yet.
    pub session_id: Option<SessionId>,
}

/// The progress line while files load: `Loaded {done} / {total}`, and
/// `Loaded {total} files` once every file is in.
pub fn progress_label(done: usize, total: usize) -> (s: String)
    ensures
        done < total ==> s@ == "Loaded "@ + digits(done as nat) + " / "@ + digits(total as nat),
        done >= total ==> s@ == "Loaded "@ + digits(total as nat) + " files"@,
{
    let mut s = String::new();
    push_str(&mut s, "Loaded ");
    if done < total {
        push_unsigned(&mut s, done as u64);
        push_str(&mut s, " / ");
        push_unsigned(&mut s, total as u64);
    } else {
        push_unsigned(&mut s, total as u64);
        push_str(&mut s, " files");
    }
    s
}

} // verus!
