//! Diffie: the logic of a side-by-side diff and three-way merge viewer —
//! character and line diffs, pane rows and selections, anchors, search,
//! merge hunks, syntax highlighting, and the bookkeeping around them.

pub mod text;
pub mod utf8_offsets;
pub mod char_diff;
pub mod diff;
pub mod selection;
pub mod diff_rows;
pub mod anchor_pick;
pub mod merge;
pub mod commands;
pub mod search;
pub mod syntax;
pub mod highlight;
pub mod syntax_paint;
pub mod fonts;
pub mod dual_monitor;
pub mod recents;
pub mod preferences;
pub mod input;
pub mod tabs;
pub mod window_title;
pub mod shortcuts;
pub mod io;
pub mod swarm_creds;
pub mod swarm_info;
pub mod swarm_login;
