//! Application keyboard shortcuts: which commands one frame's Ctrl-key
//! presses ask for.

use vstd::prelude::*;

use crate::window_title::TabMode;

verus! {

/// The shortcut keys pressed this frame.
#[derive(Clone, Copy, Debug, Default, PartialEq, Eq, Structural)]
pub struct KeysPressed {
    pub o: bool,
    pub s: bool,
    pub w: bool,
    pub q: bool,
    pub tab: bool,
    /// `=` or keypad `+`.
    pub zoom_in: bool,
    /// `-` or keypad `-`.
    pub zoom_out: bool,
    /// `0` or keypad `0`.
    pub zoom_reset: bool,
    pub z: bool,
}

/// An application command.
#[derive(Clone, Copy, Debug, PartialEq, Eq, Structural)]
pub enum Command {
    OpenTwoWay,
    OpenThreeWay,
    SaveSideA,
    SaveSideB,
    SaveResult,
    CloseTab,
    Quit,
    NextTab,
    PrevTab,
    ZoomIn,
    ZoomOut,
    ZoomReset,
    Undo,
    Redo,
}

pub open spec fn opt(c: bool, cmd: Command) -> Seq<Command> {
    if c {
        seq![cmd]
    } else {
        Seq::empty()
    }
}

/// The commands for one frame, in the order they are carried out. Nothing
/// without Ctrl. Ctrl+O opens a comparison (with Shift a merge); Ctrl+S
/// saves side A of a comparison (with Shift side B) or a merge's result
/// (not with Shift); Ctrl+W closes the tab and Ctrl+Q quits (not with
/// Shift); Ctrl+Tab moves to the next tab (with Shift the previous one);
/// Ctrl+= / Ctrl+- / Ctrl+0 zoom the code font (not with Shift); Ctrl+Z
/// undoes (with Shift redoes) unless the merge result pane has the focus,
/// whose text editor keeps its own undo.
pub open spec fn commands_spec(
    ctrl: bool,
    shift: bool,
    k: KeysPressed,
    mode: Option<TabMode>,
    result_focused: bool,
) -> Seq<Command> {
    if !ctrl {
        Seq::empty()
    } else {
        opt(k.o, if shift { Command::OpenThreeWay } else { Command::OpenTwoWay })
            + opt(k.s && mode == Some(TabMode::TwoWay), if shift { Command::SaveSideB } else { Command::SaveSideA })
            + opt(k.s && mode == Some(TabMode::ThreeWay) && !shift, Command::SaveResult)
            + opt(!shift && k.w, Command::CloseTab)
            + opt(!shift && k.q, Command::Quit)
            + opt(k.tab, if shift { Command::PrevTab } else { Command::NextTab })
            + opt(!shift && k.zoom_in, Command::ZoomIn)
            + opt(!shift && k.zoom_out, Command::ZoomOut)
            + opt(!shift && k.zoom_reset, Command::ZoomReset)
            + opt(k.z && !result_focused, if shift { Command::Redo } else { Command::Undo })
    }
}

fn push_if(v: &mut Vec<Command>, c: bool, cmd: Command)
    ensures
        final(v)@ == old(v)@ + opt(c, cmd),
{
    if c {
        v.push(cmd);
    }
    proof {
        assert(v@ =~= old(v)@ + opt(c, cmd));
    }
}

/// The commands one frame's shortcut keys ask for.
pub fn shortcut_commands(
    ctrl: bool,
    shift: bool,
    keys: KeysPressed,
    mode: Option<TabMode>,
    result_focused: bool,
) -> (v: Vec<Command>)
    ensures
        v@ == commands_spec(ctrl, shift, keys, mode, result_focused),
{
    let mut v: Vec<Command> = Vec::new();
    if !ctrl {
        return v;
    }
    let two_way = match mode {
        Some(TabMode::TwoWay) => true,
        _ => false,
    };
    let three_way = match mode {
        Some(TabMode::ThreeWay) => true,
        _ => false,
    };
    push_if(&mut v, keys.o, if shift { Command::OpenThreeWay } else { Command::OpenTwoWay });
    push_if(&mut v, keys.s && two_way, if shift { Command::SaveSideB } else { Command::SaveSideA });
    push_if(&mut v, keys.s && three_way && !shift, Command::SaveResult);
    push_if(&mut v, !shift && keys.w, Command::CloseTab);
    push_if(&mut v, !shift && keys.q, Command::Quit);
    push_if(&mut v, keys.tab, if shift { Command::PrevTab } else { Command::NextTab });
    push_if(&mut v, !shift && keys.zoom_in, Command::ZoomIn);
    push_if(&mut v, !shift && keys.zoom_out, Command::ZoomOut);
    push_if(&mut v, !shift && keys.zoom_reset, Command::ZoomReset);
    push_if(&mut v, keys.z && !result_focused, if shift { Command::Redo } else { Command::Undo });
    proof {
        assert(v@ =~= commands_spec(ctrl, shift, keys, mode, result_focused));
    }
    v
}

proof fn lemma_opt(c: bool, cmd: Command, x: Command)
    ensures
        opt(c, cmd).contains(x) <==> c && x == cmd,
{
    if c && x == cmd {
        assert(opt(c, cmd)[0] == x);
    }
}

/// Joining two lists of commands: the join holds what either holds.
proof fn lemma_opts_join(a: Seq<Command>, b: Seq<Command>, x: Command)
    ensures
        (a + b).contains(x) <==> a.contains(x) || b.contains(x),
{
    if (a + b).contains(x) {
        let i = choose|i: int| 0 <= i < (a + b).len() && (a + b)[i] == x;
        if i < a.len() {
            assert(a[i] == x);
        } else {
            assert(b[i - a.len()] == x);
        }
    }
    if a.contains(x) {
        let i = choose|i: int| 0 <= i < a.len() && a[i] == x;
        assert((a + b)[i] == x);
    }
    if b.contains(x) {
        let i = choose|i: int| 0 <= i < b.len() && b[i] == x;
        assert((a + b)[a.len() + i] == x);
    }
}

/// Which commands a frame asks for: each exactly when Ctrl and its key are
/// down, with or without Shift as its shortcut says (saving depends on the
/// kind of tab, undo and redo on the merge result pane not having the
/// focus); nothing at all without Ctrl.
#[verifier::spinoff_prover]
#[verifier::rlimit(60)]
pub proof fn lemma_shortcut_commands(
    ctrl: bool,
    shift: bool,
    k: KeysPressed,
    mode: Option<TabMode>,
    result_focused: bool,
)
    ensures
        ({
            let cs = commands_spec(ctrl, shift, k, mode, result_focused);
            &&& cs.contains(Command::OpenTwoWay) <==> ctrl && k.o && !shift
            &&& cs.contains(Command::OpenThreeWay) <==> ctrl && k.o && shift
            &&& cs.contains(Command::SaveSideA) <==> ctrl && k.s && mode == Some(TabMode::TwoWay) && !shift
            &&& cs.contains(Command::SaveSideB) <==> ctrl && k.s && mode == Some(TabMode::TwoWay) && shift
            &&& cs.contains(Command::SaveResult) <==> ctrl && k.s && mode == Some(TabMode::ThreeWay) && !shift
            &&& cs.contains(Command::CloseTab) <==> ctrl && k.w && !shift
            &&& cs.contains(Command::Quit) <==> ctrl && k.q && !shift
            &&& cs.contains(Command::NextTab) <==> ctrl && k.tab && !shift
            &&& cs.contains(Command::PrevTab) <==> ctrl && k.tab && shift
            &&& cs.contains(Command::ZoomIn) <==> ctrl && k.zoom_in && !shift
            &&& cs.contains(Command::ZoomOut) <==> ctrl && k.zoom_out && !shift
            &&& cs.contains(Command::ZoomReset) <==> ctrl && k.zoom_reset && !shift
            &&& cs.contains(Command::Undo) <==> ctrl && k.z && !shift && !result_focused
            &&& cs.contains(Command::Redo) <==> ctrl && k.z && shift && !result_focused
        }),
{
    let cs = commands_spec(ctrl, shift, k, mode, result_focused);
    if ctrl {
        let a0 = opt(k.o, if shift { Command::OpenThreeWay } else { Command::OpenTwoWay });
        let a1 = opt(k.s && mode == Some(TabMode::TwoWay), if shift { Command::SaveSideB } else { Command::SaveSideA });
        let a2 = opt(k.s && mode == Some(TabMode::ThreeWay) && !shift, Command::SaveResult);
        let a3 = opt(!shift && k.w, Command::CloseTab);
        let a4 = opt(!shift && k.q, Command::Quit);
        let a5 = opt(k.tab, if shift { Command::PrevTab } else { Command::NextTab });
        let a6 = opt(!shift && k.zoom_in, Command::ZoomIn);
        let a7 = opt(!shift && k.zoom_out, Command::ZoomOut);
        let a8 = opt(!shift && k.zoom_reset, Command::ZoomReset);
        let a9 = opt(k.z && !result_focused, if shift { Command::Redo } else { Command::Undo });
        let p1 = a0 + a1;
        let p2 = p1 + a2;
        let p3 = p2 + a3;
        let p4 = p3 + a4;
        let p5 = p4 + a5;
        let p6 = p5 + a6;
        let p7 = p6 + a7;
        let p8 = p7 + a8;
        let p9 = p8 + a9;
        assert(cs == p9);
        assert forall|x: Command| #[trigger] cs.contains(x) <==> (((k.o) && x == (if shift { Command::OpenThreeWay } else { Command::OpenTwoWay })) || ((k.s && mode == Some(TabMode::TwoWay)) && x == (if shift { Command::SaveSideB } else { Command::SaveSideA })) || ((k.s && mode == Some(TabMode::ThreeWay) && !shift) && x == (Command::SaveResult)) || ((!shift && k.w) && x == (Command::CloseTab)) || ((!shift && k.q) && x == (Command::Quit)) || ((k.tab) && x == (if shift { Command::PrevTab } else { Command::NextTab })) || ((!shift && k.zoom_in) && x == (Command::ZoomIn)) || ((!shift && k.zoom_out) && x == (Command::ZoomOut)) || ((!shift && k.zoom_reset) && x == (Command::ZoomReset)) || ((k.z && !result_focused) && x == (if shift { Command::Redo } else { Command::Undo }))) by {
            lemma_opt(k.o, if shift { Command::OpenThreeWay } else { Command::OpenTwoWay }, x);
            lemma_opt(k.s && mode == Some(TabMode::TwoWay), if shift { Command::SaveSideB } else { Command::SaveSideA }, x);
            lemma_opt(k.s && mode == Some(TabMode::ThreeWay) && !shift, Command::SaveResult, x);
            lemma_opt(!shift && k.w, Command::CloseTab, x);
            lemma_opt(!shift && k.q, Command::Quit, x);
            lemma_opt(k.tab, if shift { Command::PrevTab } else { Command::NextTab }, x);
            lemma_opt(!shift && k.zoom_in, Command::ZoomIn, x);
            lemma_opt(!shift && k.zoom_out, Command::ZoomOut, x);
            lemma_opt(!shift && k.zoom_reset, Command::ZoomReset, x);
            lemma_opt(k.z && !result_focused, if shift { Command::Redo } else { Command::Undo }, x);
            lemma_opts_join(a0, a1, x);
            lemma_opts_join(p1, a2, x);
            lemma_opts_join(p2, a3, x);
            lemma_opts_join(p3, a4, x);
            lemma_opts_join(p4, a5, x);
            lemma_opts_join(p5, a6, x);
            lemma_opts_join(p6, a7, x);
            lemma_opts_join(p7, a8, x);
            lemma_opts_join(p8, a9, x);
        }
    } else {
        assert(cs.len() == 0);
    }
}

} // verus!
