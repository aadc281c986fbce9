//! Window titles and tab labels built from the files a tab has open.

use vstd::prelude::*;

use crate::text::{basename, push_str, shown_name, string_of_str};

verus! {

/// Whether a tab compares two files or merges three.
#[derive(Clone, Copy, Debug, PartialEq, Eq, Structural)]
pub enum TabMode {
    TwoWay,
    ThreeWay,
}

/// What a title is built from: the tab's mode, its file paths in role order
/// (A, B for a comparison; base, local, remote for a merge) and, for a
/// merge, where the result is saved.
pub struct TabFiles {
    pub mode: TabMode,
    pub paths: Vec<String>,
    pub result_path: Option<String>,
}

/// What a label shows for an optional path: its name, `(untitled)` when
/// there is no path or it is empty.
pub open spec fn label_name(p: Option<String>, name: Seq<char>) -> bool {
    match p {
        Some(path) => if path@.len() == 0 {
            name == "(untitled)"@
        } else {
            shown_name(path@, name)
        },
        None => name == "(untitled)"@,
    }
}

/// A file's name for a label, `(untitled)` when there is no path or it is
/// empty.
pub fn pretty_basename(p: Option<&String>) -> (s: String)
    ensures
        label_name(
            match p {
                Some(path) => Some(*path),
                None => None::<String>,
            },
            s@,
        ),
{
    match p {
        Some(path) => if path.as_str().is_empty() {
            string_of_str("(untitled)")
        } else {
            basename(path.as_str())
        },
        None => string_of_str("(untitled)"),
    }
}

/// The `i`-th path, if there is one.
pub open spec fn nth(paths: Seq<String>, i: int) -> Option<String> {
    if 0 <= i < paths.len() {
        Some(paths[i])
    } else {
        None
    }
}

/// The name a merge's window title shows: the result file's name when a
/// result file is bound and its name is not empty, else the local file's.
pub open spec fn merge_title_name(result: Option<String>, local: Option<String>, n: Seq<char>) -> bool {
    match result {
        Some(r) => (n.len() > 0 && shown_name(r@, n)) || (shown_name(r@, Seq::empty()) && label_name(
            local,
            n,
        )),
        None => label_name(local, n),
    }
}

fn nth_path(paths: &Vec<String>, i: usize) -> (r: Option<&String>)
    ensures
        i < paths@.len() ==> r == Some(&paths@[i as int]),
        i >= paths@.len() ==> r is None,
        match r {
            Some(x) => nth(paths@, i as int) == Some(*x),
            None => nth(paths@, i as int) is None,
        },
{
    if i < paths.len() {
        Some(&paths[i])
    } else {
        None
    }
}

/// A tab's label: both file names around a link glyph for a comparison,
/// the local file's name for a merge.
pub fn tab_label(tab: &TabFiles) -> (s: String)
    ensures
        tab.mode == TabMode::TwoWay ==> exists|a: Seq<char>, b: Seq<char>|
            {
                &&& s@ == a + " \u{f0ec} "@ + b
                &&& label_name(nth(tab.paths@, 0), a)
                &&& label_name(nth(tab.paths@, 1), b)
            },
        tab.mode == TabMode::ThreeWay ==> label_name(nth(tab.paths@, 1), s@),
{
    match tab.mode {
        TabMode::TwoWay => {
            let a = pretty_basename(nth_path(&tab.paths, 0));
            let b = pretty_basename(nth_path(&tab.paths, 1));
            let mut s = string_of_str(a.as_str());
            push_str(&mut s, " \u{f0ec} ");
            push_str(&mut s, b.as_str());
            proof {
                assert(s@ == a@ + " \u{f0ec} "@ + b@);
            }
            s
        },
        TabMode::ThreeWay => pretty_basename(nth_path(&tab.paths, 1)),
    }
}

/// The window title: `Diffie` with no active tab; for a comparison, both
/// file names after it; for a merge, the result file's name, or the local
/// file's when no result file is bound (or its name is empty).
pub fn compute_window_title(active: Option<&TabFiles>) -> (s: String)
    ensures
        active is None ==> s@ == "Diffie"@,
        active matches Some(t) ==> t.mode == TabMode::TwoWay ==> exists|a: Seq<char>, b: Seq<char>|
            {
                &&& s@ == "Diffie \u{2014} "@ + a + " \u{2014} "@ + b
                &&& label_name(nth(t.paths@, 0), a)
                &&& label_name(nth(t.paths@, 1), b)
            },
        active matches Some(t) ==> t.mode == TabMode::ThreeWay ==> exists|n: Seq<char>|
            {
                &&& s@ == "Diffie \u{2014} "@ + n
                &&& merge_title_name(t.result_path, nth(t.paths@, 1), n)
            },
{
    let tab = match active {
        Some(t) => t,
        None => {
            return string_of_str("Diffie");
        },
    };
    let mut s = string_of_str("Diffie \u{2014} ");
    match tab.mode {
        TabMode::TwoWay => {
            let a = pretty_basename(nth_path(&tab.paths, 0));
            let b = pretty_basename(nth_path(&tab.paths, 1));
            push_str(&mut s, a.as_str());
            push_str(&mut s, " \u{2014} ");
            push_str(&mut s, b.as_str());
            proof {
                assert(s@ == "Diffie \u{2014} "@ + a@ + " \u{2014} "@ + b@);
            }
        },
        TabMode::ThreeWay => {
            let from_result = match &tab.result_path {
                Some(p) => {
                    let n = basename(p.as_str());
                    if n.as_str().is_empty() {
                        proof {
                            assert(n@ =~= Seq::<char>::empty());
                        }
                        None
                    } else {
                        Some(n)
                    }
                },
                None => None,
            };
            let name = match from_result {
                Some(n) => n,
                None => pretty_basename(nth_path(&tab.paths, 1)),
            };
            proof {
                assert(merge_title_name(tab.result_path, nth(tab.paths@, 1), name@));
            }
            push_str(&mut s, name.as_str());
        },
    }
    s
}

} // verus!
