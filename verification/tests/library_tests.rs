use diffie::commands::{to_view, DiffSession, SessionMode, SessionView};
use diffie::diff::{group_into_hunks, split_lines, Anchor, DiffOp, Hunk};
use diffie::diff_rows::{
    anchor_idx_for, build_minimap_bands, build_pane, build_pane_ranges, MinimapBand, RowClass,
};
use diffie::fonts::{all_fonts, CodeFont};
use diffie::highlight::{
    classify_kind, hash_lines, join_with_newlines, sort_ranges_by_start, sort_spans_by_start,
    spans_from_visits, HighlightCache, VisitedNode,
};
use diffie::input::{Modifiers, MouseButtons};
use diffie::io::decode_text;
use diffie::merge::{
    build_layout, first_change_lines as merge_first_change, hunk_kind, icons_for_hunk, pane_text,
    resolution_kind, resolution_status, stripe_tone, HunkKind, IconShape, MergeHunk, Pane, ResKind,
    Resolution, StripeTone,
};
use diffie::preferences::WindowPlacement;
use diffie::recents::{add, RecentEntry, MAX_RECENTS};
use diffie::search::{
    compute_and_register, consume_jump_for_pane, AppSearch, JumpDir, Match, PaneId,
};
use diffie::shortcuts::{shortcut_commands, Command, KeysPressed};
use diffie::selection::{
    build_selection_splice, char_class, extract_selection_text, first_change_lines, select_all,
    CharClass, FocusedPane,
    SelPoint, Selection, Side,
};
use diffie::swarm_creds::{account_name, load, load_user, pair_credentials};
use diffie::swarm_info::progress_label;
use diffie::swarm_login::{open_with, AuthEvent, AuthRequest, SwarmAuth};
use diffie::syntax::{lang_for_extension, lang_for_path, Lang, LineSpan, SyntaxKind};
use diffie::syntax_paint::{
    line_paint_chunks, snap_to_char_boundary, whitespace_ghost, GlyphSettings, TextChunk,
};
use diffie::tabs::{close_tab, cycle_tab};
use diffie::window_title::{compute_window_title, pretty_basename, tab_label, TabFiles, TabMode};

fn s(v: &[&str]) -> Vec<String> {
    v.iter().map(|x| x.to_string()).collect()
}

// ---------------------------------------------------------------------------
// Lines and hunks
// ---------------------------------------------------------------------------

#[test]
fn split_lines_then_join_gives_text_back() {
    for text in ["a\nb\nc", "one line", "", "x\n\ny"] {
        let lines = split_lines(text);
        assert_eq!(join_with_newlines(&lines), text);
    }
    assert_eq!(split_lines("a\nb\n"), s(&["a", "b"]));
}

fn eq(a: u32, b: u32, t: &str) -> DiffOp {
    DiffOp::Equal { a, b, text: t.to_string() }
}
fn del(a: u32, t: &str) -> DiffOp {
    DiffOp::Delete { a, text: t.to_string() }
}
fn ins(b: u32, t: &str) -> DiffOp {
    DiffOp::Insert { b, text: t.to_string() }
}

fn sample_hunks() -> Vec<Hunk> {
    let ops = vec![eq(1, 1, "same"), del(2, "old line"), ins(2, "new line"), ins(3, "added"), eq(3, 4, "tail")];
    group_into_hunks(&ops)
}

#[test]
fn hunks_group_equal_and_changed_runs() {
    let hunks = sample_hunks();
    assert_eq!(hunks.len(), 3);
    assert_eq!(hunks[0].a_range, (1, 1));
    assert_eq!(hunks[1].a_range, (2, 2));
    assert_eq!(hunks[1].b_range, (2, 3));
    assert_eq!(hunks[2].b_range, (4, 4));
    assert_eq!(first_change_lines(&hunks), Some((2, 2)));
}

#[test]
fn pane_rows_pair_changed_lines() {
    let hunks = sample_hunks();
    let left = build_pane(&hunks, Side::Left);
    let right = build_pane(&hunks, Side::Right);
    assert_eq!(left.rows.len(), 3);
    assert_eq!(right.rows.len(), 4);
    assert_eq!(left.rows[1].line_no, Some(2));
    assert_eq!(left.rows[1].cls, RowClass::Delete);
    let left_text: Vec<(&str, bool)> =
        left.rows[1].segments.iter().map(|s| (s.text.as_str(), s.hl)).collect();
    assert_eq!(left_text, vec![("old", true), (" line", false)]);
    assert_eq!(right.rows[2].segments.len(), 1);
    assert!(right.rows[2].segments[0].hl);
    assert_eq!(right.rows[2].hunk_first_row, 1);
    assert_eq!(left.ranges, vec![(0, 0, 1), (1, 1, 2), (2, 2, 3)]);
    assert_eq!(right.ranges, vec![(0, 0, 1), (1, 1, 3), (2, 3, 4)]);
}

#[test]
fn minimap_bands_and_ranges_follow_hunks() {
    let hunks = sample_hunks();
    assert_eq!(build_minimap_bands(&hunks, Side::Left), vec![MinimapBand { line_lo: 2, line_hi: 2 }]);
    assert_eq!(build_minimap_bands(&hunks, Side::Right), vec![MinimapBand { line_lo: 2, line_hi: 3 }]);
    assert_eq!(build_pane_ranges(&hunks, Side::Right), vec![(0, 0, 1), (1, 1, 3), (2, 3, 4)]);
    let anchors = [Anchor { a: 3, b: 4 }, Anchor { a: 5, b: 6 }];
    assert_eq!(anchor_idx_for(&anchors, Side::Right, 6), Some(1));
    assert_eq!(anchor_idx_for(&anchors, Side::Left, 6), None);
}

// ---------------------------------------------------------------------------
// Selections
// ---------------------------------------------------------------------------

fn two_way_session(a: Vec<String>, b: Vec<String>) -> DiffSession {
    DiffSession {
        id: 9,
        engine: "myers".to_string(),
        mode: SessionMode::TwoWay { a_lines: a, b_lines: b, anchors: vec![], hunks: vec![] },
        manual_result: None,
    }
}

fn three_way_session() -> DiffSession {
    DiffSession {
        id: 10,
        engine: "myers".to_string(),
        mode: SessionMode::ThreeWay {
            base_lines: s(&["b"]),
            local_lines: s(&["l"]),
            remote_lines: s(&["r"]),
            anchors: vec![],
            hunks: vec![],
        },
        manual_result: None,
    }
}

#[test]
fn select_all_then_copy_gives_whole_pane() {
    let snap = two_way_session(s(&["alpha", "beta", "gamma"]), s(&[]));
    let sel = select_all(&snap, Side::Left).expect("non-empty pane");
    assert_eq!(extract_selection_text(&snap, &sel), "alpha\nbeta\ngamma");
    assert!(select_all(&snap, Side::Right).is_none());
    let merge = three_way_session();
    assert!(select_all(&merge, Side::Left).is_none());
    assert_eq!(extract_selection_text(&merge, &sel), "");
}

#[test]
fn selection_splice_merges_boundary_lines() {
    let snap = two_way_session(s(&["hello world", "second", "third line"]), s(&[]));
    let sel = Selection {
        side: Side::Left,
        anchor: SelPoint { line_no: 3, col: 5 },
        caret: SelPoint { line_no: 1, col: 5 },
    };
    assert_eq!(extract_selection_text(&snap, &sel), " world\nsecond\nthird");
    let sp = build_selection_splice(&snap, &sel, 9).expect("a splice");
    assert_eq!((sp.session_id, sp.start, sp.end), (9, 0, 3));
    assert_eq!(sp.replacement, s(&["hello line"]));
    let empty = Selection { side: Side::Left, anchor: SelPoint { line_no: 2, col: 1 }, caret: SelPoint { line_no: 2, col: 1 } };
    assert!(build_selection_splice(&snap, &empty, 9).is_none());
    assert!(build_selection_splice(&three_way_session(), &sel, 10).is_none());
}

// ---------------------------------------------------------------------------
// Recents
// ---------------------------------------------------------------------------

fn two(a: &str, b: &str) -> RecentEntry {
    RecentEntry::TwoWay { a: a.to_string(), b: b.to_string() }
}

#[test]
fn recents_move_to_front_without_duplicates() {
    let mut v = vec![two("a", "b"), two("c", "d"), two("e", "f")];
    add(&mut v, two("c", "d"));
    assert_eq!(v, vec![two("c", "d"), two("a", "b"), two("e", "f")]);
    let before = v.clone();
    add(&mut v, two("c", "d"));
    assert_eq!(v, before);
}

#[test]
fn recents_are_capped() {
    let mut v = Vec::new();
    for i in 0..20 {
        add(&mut v, two(&format!("x{i}"), "y"));
    }
    assert_eq!(v.len(), MAX_RECENTS);
    assert_eq!(v[0], two("x19", "y"));
}

#[test]
fn recent_labels_use_file_names() {
    assert_eq!(two("/tmp/a.txt", "/home/b.rs").label(), "a.txt \u{2194} b.rs");
    let three = RecentEntry::ThreeWay {
        base: "/x/base.c".to_string(),
        local: "/x/local.c".to_string(),
        remote: "/x/remote.c".to_string(),
    };
    assert_eq!(three.label(), "base.c (3-way: local.c \u{2194} remote.c)");
}

// ---------------------------------------------------------------------------
// Search
// ---------------------------------------------------------------------------

fn mk(line: u32, start: usize, end: usize) -> Match {
    Match { line, start_col: start, end_col: end, byte_start: start, byte_end: end }
}

#[test]
fn search_registers_and_reports_errors() {
    let mut st: AppSearch<String> = AppSearch::new();
    assert!(!st.is_error_state());
    st.query = "foo".to_string();
    st.recompile(|q, _, _, _| Ok(q.clone()));
    assert_eq!(st.active_query(), Some(&"foo".to_string()));
    st.begin_frame();
    assert!(st.is_error_state());
    let ms = compute_and_register(&mut st, PaneId::TwoWayA, "foo bar foo", |text, q| {
        text.match_indices(q.as_str()).map(|(i, _)| mk(1, i, i + q.len())).collect()
    });
    assert_eq!(ms.len(), 2);
    assert_eq!(st.total_matches, 2);
    assert_eq!(st.matches_for(PaneId::TwoWayA).map(|v| v.len()), Some(2));
    assert!(st.matches_for(PaneId::Result).is_none());
    assert!(!st.is_error_state());
    st.recompile(|_, _, _, _| Err(()));
    assert!(st.is_error_state());
    assert_eq!(PaneId::from_focused(FocusedPane::ThreeWayLocal), PaneId::ThreeWayLocal);
}

#[test]
fn jumps_move_between_matches_and_wrap() {
    let ms = vec![mk(1, 0, 3), mk(2, 10, 13), mk(3, 20, 23)];
    let mut st: AppSearch<String> = AppSearch::new();
    // No request: nothing happens.
    assert!(consume_jump_for_pane(&mut st, PaneId::TwoWayA, &ms, 0, None).is_none());
    st.jump_request = Some(JumpDir::Next);
    let r = consume_jump_for_pane(&mut st, PaneId::TwoWayA, &ms, 5, Some(PaneId::TwoWayA)).unwrap();
    assert_eq!((r.match_index, r.caret_byte, r.line), (1, 13, 2));
    assert!(st.jump_request.is_none());
    st.jump_request = Some(JumpDir::Next);
    let r = consume_jump_for_pane(&mut st, PaneId::TwoWayA, &ms, 0, Some(PaneId::TwoWayA)).unwrap();
    assert_eq!(r.match_index, 2);
    st.jump_request = Some(JumpDir::Next);
    let r = consume_jump_for_pane(&mut st, PaneId::TwoWayA, &ms, 0, Some(PaneId::TwoWayA)).unwrap();
    assert_eq!(r.match_index, 0);
    st.jump_request = Some(JumpDir::Prev);
    let r = consume_jump_for_pane(&mut st, PaneId::TwoWayA, &ms, 0, Some(PaneId::TwoWayA)).unwrap();
    assert_eq!(r.match_index, 2);
    // A jump meant for another pane is left pending.
    st.jump_request = Some(JumpDir::Prev);
    assert!(consume_jump_for_pane(&mut st, PaneId::TwoWayB, &ms, 0, Some(PaneId::TwoWayA)).is_none());
    assert_eq!(st.jump_request, Some(JumpDir::Prev));
    // Without a current match in the pane, Prev takes the last match ending before the caret.
    let mut fresh: AppSearch<String> = AppSearch::new();
    fresh.jump_request = Some(JumpDir::Prev);
    let r = consume_jump_for_pane(&mut fresh, PaneId::Result, &ms, 15, None).unwrap();
    assert_eq!(r.match_index, 1);
}

// ---------------------------------------------------------------------------
// Merge hunks
// ---------------------------------------------------------------------------

fn merge_hunks() -> Vec<MergeHunk> {
    vec![
        MergeHunk::Stable { id: 0, base: s(&["a", "b"]), text: s(&["a", "b", "c"]) },
        MergeHunk::Conflict { id: 1, base: s(&["x"]), local: s(&["y"]), remote: s(&["z"]) },
    ]
}

#[test]
fn merge_first_change_counts_lines_per_pane() {
    assert_eq!(merge_first_change(&merge_hunks()), Some((3, 4, 4)));
    let stable = vec![MergeHunk::Stable { id: 0, base: s(&["a"]), text: s(&["a"]) }];
    assert_eq!(merge_first_change(&stable), None);
}

#[test]
fn merge_panes_show_each_side() {
    let h = MergeHunk::LocalOnly { id: 4, base: s(&["b"]), local: s(&["l"]) };
    assert_eq!(pane_text(&h, Pane::Local), &s(&["l"])[..]);
    assert_eq!(pane_text(&h, Pane::Remote), &s(&["b"])[..]);
    assert_eq!(h.id(), 4);
    assert_eq!(hunk_kind(&h), Some(HunkKind::LocalOnly));
    assert_eq!(Pane::Remote.as_focused_pane(), FocusedPane::ThreeWayRemote);
}

#[test]
fn pickers_fill_the_current_resolution() {
    let h = MergeHunk::RemoteOnly { id: 2, base: s(&["b"]), remote: s(&["r"]) };
    let icons = icons_for_hunk(&h, None);
    let shapes: Vec<(IconShape, bool)> = icons.iter().map(|i| (i.shape, i.filled)).collect();
    assert_eq!(shapes, vec![(IconShape::Diamond, true), (IconShape::Square, false)]);
    let conflict = &merge_hunks()[1];
    let icons = icons_for_hunk(conflict, Some(&Resolution::Local));
    let filled: Vec<bool> = icons.iter().map(|i| i.filled).collect();
    assert_eq!(filled, vec![false, false, true]);
    assert!(icons_for_hunk(&merge_hunks()[0], None).is_empty());
    assert_eq!(resolution_kind(Some(&Resolution::Custom { lines: vec![] })), Some(ResKind::Custom));
    assert_eq!(resolution_status(17, &Resolution::Remote), "hunk 17: use remote");
}

#[test]
fn merge_layout_and_stripes() {
    let hs = merge_hunks();
    assert_eq!(build_layout(&hs, Pane::Base), vec![(0, None, 1, 2), (1, Some(HunkKind::Conflict), 3, 3)]);
    assert_eq!(build_layout(&hs, Pane::Local), vec![(0, None, 1, 3), (1, Some(HunkKind::Conflict), 4, 4)]);
    assert_eq!(stripe_tone(&hs[0], None), None);
    assert_eq!(stripe_tone(&hs[1], None), Some(StripeTone::Red));
    assert_eq!(stripe_tone(&hs[1], Some(&Resolution::Remote)), Some(StripeTone::Sapphire));
    let local_only = MergeHunk::LocalOnly { id: 5, base: s(&[]), local: s(&["l"]) };
    assert_eq!(stripe_tone(&local_only, None), Some(StripeTone::Green));
    assert_eq!(stripe_tone(&local_only, Some(&Resolution::Base)), Some(StripeTone::Yellow));
    assert_eq!(build_layout(&[local_only], Pane::Base), vec![]);
}

// ---------------------------------------------------------------------------
// Syntax highlighting
// ---------------------------------------------------------------------------

#[test]
fn node_kinds_are_classified() {
    assert_eq!(classify_kind("if", false), Some((SyntaxKind::Keyword, false)));
    assert_eq!(classify_kind("+", false), None);
    assert_eq!(classify_kind("x", false), None);
    assert_eq!(classify_kind("line_comment", true), Some((SyntaxKind::Comment, true)));
    assert_eq!(classify_kind("string_literal", true), Some((SyntaxKind::String, true)));
    assert_eq!(classify_kind("identifier", true), None);
}

#[test]
fn languages_by_extension() {
    assert_eq!(lang_for_path("src/main.RS"), Some(Lang::Rust));
    assert_eq!(lang_for_path("shader.hlsli"), Some(Lang::Hlsl));
    assert_eq!(lang_for_path("x.CPP"), Some(Lang::Cpp));
    assert_eq!(lang_for_path("README"), None);
    assert_eq!(lang_for_extension("cs"), Some(Lang::CSharp));
    assert_eq!(lang_for_path(".bashrc"), None);
    assert_eq!(lang_for_path("dir.rs/notes"), None);
    assert_eq!(lang_for_path("a/b/c.h"), Some(Lang::Cpp));
}

#[test]
fn highlight_cache_colors_rust_and_reuses_results() {
    let mut cache = HighlightCache::new();
    let lines = s(&["fn main() {", "    // hi", "    let s = \"x\";", "}"]);
    let spans: Vec<Vec<_>> = cache.highlights(7, Some(Lang::Rust), &lines).to_vec();
    assert_eq!(spans.len(), 4);
    assert!(spans[0].iter().any(|sp| sp.kind == SyntaxKind::Keyword && sp.start_col == 0 && sp.end_col == 2));
    assert!(spans[1].iter().any(|sp| sp.kind == SyntaxKind::Comment && sp.start_col == 4));
    assert!(spans[2].iter().any(|sp| sp.kind == SyntaxKind::String));
    assert!(spans[0].iter().any(|sp| matches!(sp.kind, SyntaxKind::Bracket(0))));
    for line in &spans {
        for w in line.windows(2) {
            assert!(w[0].start_col <= w[1].start_col);
        }
    }
    let again: Vec<Vec<_>> = cache.highlights(7, Some(Lang::Rust), &lines).to_vec();
    assert_eq!(again, spans);
    assert!(cache.highlights(8, None, &lines).is_empty());
    cache.forget(7);
    assert!(!cache.entries.contains_key(&7));
}

#[test]
fn content_hash_depends_on_line_boundaries() {
    assert_ne!(hash_lines(&s(&["ab", "c"])), hash_lines(&s(&["a", "bc"])));
    assert_eq!(hash_lines(&s(&["ab", "c"])), hash_lines(&s(&["ab", "c"])));
    assert_eq!(sort_ranges_by_start(vec![(5, 6), (1, 2), (3, 4), (1, 9)]), vec![(1, 2), (1, 9), (3, 4), (5, 6)]);
}

// ---------------------------------------------------------------------------
// Painting helpers
// ---------------------------------------------------------------------------

#[test]
fn whitespace_ghost_marks_spaces_and_tabs() {
    assert_eq!(whitespace_ghost("a b\tc", '\u{00b6}'), " \u{00b7} \u{2192} \u{00b6}");
    assert_eq!(whitespace_ghost("", '\u{23ce}'), "\u{23ce}");
}

#[test]
fn eol_glyph_falls_back_for_invalid_codepoints() {
    let mut g = GlyphSettings::new();
    assert_eq!(g.eol_glyph(), '\u{23ce}');
    g.set_eol_glyph(0xd800);
    assert_eq!(g.eol_glyph(), '\u{00b6}');
    g.set_eol_glyph(CodeFont::NotoSansMono.eol_codepoint());
    assert_eq!(g.eol_glyph(), '\u{00b6}');
    g.set_show_whitespace(true);
    assert!(g.show_whitespace_enabled());
}

#[test]
fn snapping_twice_is_snapping_once() {
    let s = "a\u{00e9}\u{1f600}z";
    for i in 0..=s.len() + 2 {
        let once = snap_to_char_boundary(s, i);
        assert!(s.is_char_boundary(once));
        assert_eq!(snap_to_char_boundary(s, once), once);
    }
}

#[test]
fn fonts_and_labels() {
    let fonts = all_fonts();
    assert_eq!(fonts.len(), 4);
    assert_eq!(fonts[1].label(), "Fira Code");
    assert_eq!(CodeFont::default(), CodeFont::JetBrainsMono);
    assert_eq!(MouseButtons::default(), MouseButtons { left_down: false, left_clicked: false, right_clicked: false });
    assert!(!Modifiers::default().shift);
}

// ---------------------------------------------------------------------------
// Files, tabs, titles, preferences, credentials
// ---------------------------------------------------------------------------

#[test]
fn decoding_keeps_valid_utf8_and_replaces_invalid_bytes() {
    assert_eq!(decode_text("h\u{00e9}llo".as_bytes()), "h\u{00e9}llo");
    assert_eq!(decode_text(&[0x61, 0xff, 0x62]), "a\u{fffd}b");
}

#[test]
fn tabs_cycle_and_close() {
    let ids = [10, 20, 30];
    assert_eq!(cycle_tab(&ids, Some(30), 1), Some(10));
    assert_eq!(cycle_tab(&ids, Some(10), -1), Some(30));
    assert_eq!(cycle_tab(&ids, None, 1), Some(20));
    assert_eq!(cycle_tab(&[], Some(5), 1), Some(5));
    for id in ids {
        assert_eq!(cycle_tab(&ids, cycle_tab(&ids, Some(id), 1), -1), Some(id));
        assert_eq!(cycle_tab(&ids, cycle_tab(&ids, Some(id), -1), 1), Some(id));
    }
    assert_eq!(close_tab(&ids, 20), (vec![10, 30], Some(30)));
    assert_eq!(close_tab(&ids, 30), (vec![10, 20], Some(20)));
    assert_eq!(close_tab(&[7], 7), (vec![], None));
    assert_eq!(close_tab(&ids, 99), (vec![10, 20, 30], None));
}

#[test]
fn window_titles_and_tab_labels() {
    assert_eq!(compute_window_title(None), "Diffie");
    let two_way = TabFiles { mode: TabMode::TwoWay, paths: s(&["/a/x.rs", "/b/y.rs"]), result_path: None };
    assert_eq!(compute_window_title(Some(&two_way)), "Diffie \u{2014} x.rs \u{2014} y.rs");
    assert_eq!(tab_label(&two_way), "x.rs \u{f0ec} y.rs");
    let merge = TabFiles { mode: TabMode::ThreeWay, paths: s(&["b", "/l/local.c", "r"]), result_path: Some("/o/out.c".to_string()) };
    assert_eq!(compute_window_title(Some(&merge)), "Diffie \u{2014} out.c");
    let unbound = TabFiles { mode: TabMode::ThreeWay, paths: s(&["b", "/l/local.c", "r"]), result_path: None };
    assert_eq!(compute_window_title(Some(&unbound)), "Diffie \u{2014} local.c");
    assert_eq!(pretty_basename(Some(&String::new())), "(untitled)");
    assert_eq!(pretty_basename(None), "(untitled)");
    assert_eq!(pretty_basename(Some(&"/srv/src/main.rs".to_string())), "main.rs");
    assert_eq!(pretty_basename(Some(&"notes.txt".to_string())), "notes.txt");
    assert_eq!(pretty_basename(Some(&"/".to_string())), "/");
}

#[test]
fn window_placement_records_changes_once() {
    let mut p = WindowPlacement::default();
    assert!(p.record(false, (800, 600), Some((10, 20))));
    assert_eq!(p, WindowPlacement { x: Some(10), y: Some(20), width: Some(800), height: Some(600), maximized: false });
    assert!(!p.record(false, (800, 600), Some((10, 20))));
    assert!(p.record(true, (1920, 1080), Some((0, 0))));
    assert_eq!(p.width, Some(800));
    assert!(p.maximized);
}

#[test]
fn credential_accounts_are_per_host() {
    assert_eq!(account_name("swarm.example.com", "ticket"), "swarm.example.com:ticket");
    // Nothing was stored for this host, so nothing is loaded.
    assert!(load("no-such-host.invalid").is_none());
    assert!(load_user("no-such-host.invalid").is_none());
}

#[test]
fn session_views_carry_every_field() {
    let s1 = DiffSession {
        id: 3,
        engine: "myers".to_string(),
        mode: SessionMode::TwoWay { a_lines: s(&["a"]), b_lines: s(&["b"]), anchors: vec![Anchor { a: 1, b: 1 }], hunks: vec![] },
        manual_result: None,
    };
    match to_view(s1) {
        SessionView::TwoWay(v) => {
            assert_eq!((v.session_id, v.engine.as_str()), (3, "myers"));
            assert_eq!(v.a_lines, s(&["a"]));
            assert_eq!(v.anchors, vec![Anchor { a: 1, b: 1 }]);
        },
        SessionView::ThreeWay(_) => panic!("wrong kind"),
    }
}

#[test]
fn shortcuts_map_ctrl_keys_to_commands() {
    let keys = KeysPressed { s: true, tab: true, z: true, ..KeysPressed::default() };
    assert!(shortcut_commands(false, false, keys, Some(TabMode::TwoWay), false).is_empty());
    assert_eq!(
        shortcut_commands(true, true, keys, Some(TabMode::TwoWay), false),
        vec![Command::SaveSideB, Command::PrevTab, Command::Redo]
    );
    assert_eq!(
        shortcut_commands(true, false, keys, Some(TabMode::ThreeWay), true),
        vec![Command::SaveResult, Command::NextTab]
    );
    let quit = KeysPressed { q: true, w: true, ..KeysPressed::default() };
    assert_eq!(shortcut_commands(true, false, quit, None, false), vec![Command::CloseTab, Command::Quit]);
    assert!(shortcut_commands(true, true, quit, None, false).is_empty());
}

#[test]
fn progress_line_counts_loaded_files() {
    assert_eq!(progress_label(3, 10), "Loaded 3 / 10");
    assert_eq!(progress_label(10, 10), "Loaded 10 files");
    assert_eq!(progress_label(0, 0), "Loaded 0 files");
}

#[test]
fn credentials_need_both_user_and_ticket() {
    let u = Some("ann".to_string());
    let t = Some("T0K".to_string());
    assert_eq!(pair_credentials(u.clone(), t.clone()), Some(("ann".to_string(), "T0K".to_string())));
    assert_eq!(pair_credentials(u, None), None);
    assert_eq!(pair_credentials(None, t), None);
}

#[test]
fn swarm_login_opens_with_remembered_credentials() {
    let (state, req) = open_with(
        "swarm.example.com",
        Some("ana".to_string()),
        Some(("ana".to_string(), "T1".to_string())),
    );
    match state {
        SwarmAuth::Pending { host, user_input, password_input, error, busy } => {
            assert_eq!(host, "swarm.example.com");
            assert_eq!(user_input, "ana");
            assert!(password_input.is_empty());
            assert!(error.is_none());
            assert!(busy);
        }
        _ => panic!("expected the form"),
    }
    match req {
        Some(AuthRequest::Probe { host, user, ticket }) => {
            assert_eq!((host.as_str(), user.as_str(), ticket.as_str()), ("swarm.example.com", "ana", "T1"));
        }
        _ => panic!("expected a probe"),
    }
    let (state, req) = open_with("h", None, None);
    assert!(req.is_none());
    assert!(matches!(state, SwarmAuth::Pending { busy: false, .. }));
}

fn idle_form() -> SwarmAuth {
    SwarmAuth::Pending {
        host: "h".to_string(),
        user_input: "bo".to_string(),
        password_input: "pw".to_string(),
        error: Some("old".to_string()),
        busy: false,
    }
}

#[test]
fn swarm_login_steps() {
    let mut auth = idle_form();
    // A stray outcome while nothing runs changes nothing.
    assert!(matches!(auth.step(AuthEvent::Checked(Err("x".to_string()))), (false, None)));
    assert!(matches!(&auth, SwarmAuth::Pending { busy: false, .. }));

    let (done, req) = auth.step(AuthEvent::LoginPressed);
    assert!(!done);
    match req {
        Some(AuthRequest::Login { host, user, password }) => {
            assert_eq!((host.as_str(), user.as_str(), password.as_str()), ("h", "bo", "pw"));
        }
        _ => panic!("expected a login"),
    }
    match &auth {
        SwarmAuth::Pending { password_input, error, busy, .. } => {
            assert!(password_input.is_empty());
            assert!(error.is_none());
            assert!(*busy);
        }
        _ => panic!("expected the form"),
    }
    // Buttons are ignored while the check runs.
    assert!(matches!(auth.step(AuthEvent::CancelPressed), (false, None)));

    assert!(matches!(auth.step(AuthEvent::Checked(Err("denied".to_string()))), (false, None)));
    match &auth {
        SwarmAuth::Pending { error, busy, user_input, .. } => {
            assert_eq!(error.as_deref(), Some("denied"));
            assert!(!*busy);
            assert_eq!(user_input, "bo");
        }
        _ => panic!("expected the form"),
    }

    assert!(matches!(auth.step(AuthEvent::CancelPressed), (true, None)));
    assert!(matches!(auth, SwarmAuth::Cancelled));
    assert!(matches!(auth.step(AuthEvent::LoginPressed), (false, None)));
}

#[test]
fn swarm_login_accepts_checked_credentials() {
    let (mut auth, _) = open_with("h2", None, Some(("cy".to_string(), "T9".to_string())));
    assert!(matches!(auth.step(AuthEvent::Checked(Ok(("cy".to_string(), "T9".to_string())))), (true, None)));
    match auth {
        SwarmAuth::Ready { host, user, ticket } => {
            assert_eq!((host.as_str(), user.as_str(), ticket.as_str()), ("h2", "cy", "T9"));
        }
        _ => panic!("expected ready"),
    }
}

fn chunk(start_byte: usize, end_byte: usize, kind: Option<SyntaxKind>) -> TextChunk {
    TextChunk { start_byte, end_byte, kind }
}

fn span(start_col: usize, end_col: usize, kind: SyntaxKind) -> LineSpan {
    LineSpan { start_col, end_col, kind }
}

#[test]
fn line_paint_chunks_splits_gaps_spans_and_tail() {
    let spans = vec![span(0, 2, SyntaxKind::Keyword), span(3, 5, SyntaxKind::String)];
    assert_eq!(
        line_paint_chunks("ab cd!", &spans),
        vec![
            chunk(0, 2, Some(SyntaxKind::Keyword)),
            chunk(2, 3, None),
            chunk(3, 5, Some(SyntaxKind::String)),
            chunk(5, 6, None),
        ]
    );
    // Columns are characters: `é` takes two bytes.
    assert_eq!(
        line_paint_chunks("\u{e9}=1", &[span(2, 3, SyntaxKind::Number)]),
        vec![chunk(0, 3, None), chunk(3, 4, Some(SyntaxKind::Number))]
    );
    // A span past the end is cut; an empty one is skipped.
    assert_eq!(
        line_paint_chunks("ab", &[span(1, 1, SyntaxKind::Type), span(1, 9, SyntaxKind::Comment)]),
        vec![chunk(0, 1, None), chunk(1, 2, Some(SyntaxKind::Comment))]
    );
    assert_eq!(line_paint_chunks("xy", &[]), vec![chunk(0, 2, None)]);
    assert!(line_paint_chunks("", &[span(0, 3, SyntaxKind::Keyword)]).is_empty());
}

#[test]
fn whitespace_class_follows_unicode() {
    assert_eq!(char_class('\u{3000}'), CharClass::Whitespace);
    assert_eq!(char_class('\u{85}'), CharClass::Whitespace);
    assert_eq!(char_class('\t'), CharClass::Whitespace);
    assert_eq!(char_class('\u{200b}'), CharClass::Punct);
    assert_eq!(char_class('x'), CharClass::Word);
    for c in ['\u{a0}', '\u{1680}', '\u{2000}', '\u{200a}', '\u{2028}', '\u{202f}', '\u{205f}', '\u{200b}', 'a', '-'] {
        assert_eq!(char_class(c) == CharClass::Whitespace, c.is_whitespace());
    }
}

#[test]
fn span_sort_keeps_ties_in_order() {
    let v = vec![
        span(4, 5, SyntaxKind::Bracket(1)),
        span(0, 9, SyntaxKind::Type),
        span(4, 8, SyntaxKind::Keyword),
        span(0, 2, SyntaxKind::Comment),
    ];
    assert_eq!(
        sort_spans_by_start(v),
        vec![
            span(0, 9, SyntaxKind::Type),
            span(0, 2, SyntaxKind::Comment),
            span(4, 5, SyntaxKind::Bracket(1)),
            span(4, 8, SyntaxKind::Keyword),
        ]
    );
}

fn visit(kind: &str, named: bool, start: usize, end: usize) -> VisitedNode {
    VisitedNode { kind: kind.to_string(), named, start, end }
}

#[test]
fn spans_from_visited_nodes_and_brackets() {
    let lines = s(&["fn f() {}", "// (x)"]);
    let visits = vec![
        visit("source_file", true, 0, 16),
        visit("function_item", true, 0, 9),
        visit("fn", false, 0, 2),
        visit("identifier", true, 3, 4),
        visit("line_comment", true, 10, 16),
    ];
    let spans = spans_from_visits(&visits, &lines);
    assert_eq!(
        spans,
        vec![
            vec![
                span(0, 2, SyntaxKind::Keyword),
                span(4, 5, SyntaxKind::Bracket(0)),
                span(5, 6, SyntaxKind::Bracket(0)),
                span(7, 8, SyntaxKind::Bracket(0)),
                span(8, 9, SyntaxKind::Bracket(0)),
            ],
            vec![span(0, 6, SyntaxKind::Comment)],
        ]
    );
    // Without the comment node its brackets are colored too.
    let spans = spans_from_visits(&visits[..4], &lines);
    assert_eq!(spans[1], vec![span(3, 4, SyntaxKind::Bracket(0)), span(5, 6, SyntaxKind::Bracket(0))]);
}

#[test]
fn languages_of_windows_style_paths() {
    assert_eq!(lang_for_path("C:\\src\\main.rs"), Some(Lang::Rust));
    assert_eq!(lang_for_path("x\\y.RS"), Some(Lang::Rust));
    assert_eq!(lang_for_path("a:b.cs"), Some(Lang::CSharp));
    assert_eq!(lang_for_path("D:\\shaders\\lit.hlsl"), Some(Lang::Hlsl));
    assert_eq!(lang_for_path("C:\\src\\Makefile"), None);
    assert_eq!(lang_for_path("README"), None);
}
