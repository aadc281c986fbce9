use diffie::anchor_pick::{next_anchor_pick, AnchorPick, RailAction, RailClick, RailEvent};
use diffie::char_diff::{char_diff, left_segments, right_segments, CharKind, CharRun};
use diffie::dual_monitor::{
    adjacent_pairs, are_adjacent, match_saved_pair, pair_label, pick_pair_near, union_rect,
    MonitorPair, MonitorRect,
};
use diffie::selection::{double_click_word_bounds, Side};
use diffie::syntax_paint::snap_to_char_boundary;

fn flat(runs: &[CharRun]) -> String {
    runs.iter()
        .map(|r| {
            let tag = match r.kind {
                CharKind::Equal => "=",
                CharKind::Del => "-",
                CharKind::Ins => "+",
            };
            format!("{}{}", tag, r.text)
        })
        .collect::<Vec<_>>()
        .join("|")
}

// ---------------------------------------------------------------------------
// Character diff
// ---------------------------------------------------------------------------

#[test]
fn equal_strings() {
    let r = char_diff("hello", "hello");
    assert_eq!(flat(&r), "=hello");
}

#[test]
fn pure_insert() {
    let r = char_diff("", "abc");
    assert_eq!(flat(&r), "+abc");
}

#[test]
fn pure_delete() {
    let r = char_diff("abc", "");
    assert_eq!(flat(&r), "-abc");
}

#[test]
fn middle_change() {
    let r = char_diff("foo_bar", "foo_baz");
    assert_eq!(flat(&r), "=foo_ba|-r|+z");
}

#[test]
fn left_segments_drops_inserts() {
    let r = char_diff("foo_bar", "foo_baz");
    let s = left_segments(&r);
    assert_eq!(s.len(), 2);
    assert_eq!(s[0].text, "foo_ba");
    assert!(!s[0].hl);
    assert_eq!(s[1].text, "r");
    assert!(s[1].hl);
}

// ---------------------------------------------------------------------------
// Double-click word bounds
// ---------------------------------------------------------------------------

#[test]
fn word_run() {
    let s = "alpha beta gamma";
    assert_eq!(double_click_word_bounds(s, 6), (6, 10));
    assert_eq!(double_click_word_bounds(s, 7), (6, 10));
    assert_eq!(double_click_word_bounds(s, 9), (6, 10));
}

#[test]
fn punct_is_single_char() {
    let s = "#[cfg(target_arch = \"wasm32\")]";
    assert_eq!(double_click_word_bounds(s, 18), (18, 19));
    assert_eq!(double_click_word_bounds(s, 0), (0, 1));
    assert_eq!(double_click_word_bounds(s, 28), (28, 29));
}

#[test]
fn whitespace_run() {
    let s = "a   b";
    assert_eq!(double_click_word_bounds(s, 2), (1, 4));
}

#[test]
fn underscore_is_word() {
    let s = "target_arch";
    assert_eq!(double_click_word_bounds(s, 6), (0, 11));
}

#[test]
fn empty_and_out_of_bounds() {
    assert_eq!(double_click_word_bounds("", 0), (0, 0));
    assert_eq!(double_click_word_bounds("ab", 100), (0, 2));
}

#[test]
fn utf8() {
    let s = "café word";
    assert_eq!(double_click_word_bounds(s, 3), (0, 5));
    assert_eq!(double_click_word_bounds(s, 6), (6, 10));
}

// ---------------------------------------------------------------------------
// Anchor picking on the rails
// ---------------------------------------------------------------------------

fn click(side: Side, line: u32, anchor_idx: Option<usize>) -> RailClick {
    RailClick { side, line, anchor_idx }
}

#[test]
fn idle_unanchored_click_enters_picking() {
    let (next, act) = next_anchor_pick(AnchorPick::Idle, RailEvent::Click(click(Side::Left, 3, None)));
    assert_eq!(next, AnchorPick::Picking { side: Side::Left, line: 3 });
    assert_eq!(act, RailAction::NoAction);
}

#[test]
fn idle_anchored_click_removes() {
    let (next, act) =
        next_anchor_pick(AnchorPick::Idle, RailEvent::Click(click(Side::Right, 7, Some(2))));
    assert_eq!(next, AnchorPick::Idle);
    assert_eq!(act, RailAction::RemoveAnchor { idx: 2 });
}

#[test]
fn picking_escape_cancels() {
    let (next, act) =
        next_anchor_pick(AnchorPick::Picking { side: Side::Left, line: 4 }, RailEvent::Escape);
    assert_eq!(next, AnchorPick::Idle);
    assert_eq!(act, RailAction::NoAction);
}

#[test]
fn picking_elsewhere_cancels() {
    let (next, act) = next_anchor_pick(
        AnchorPick::Picking { side: Side::Right, line: 9 },
        RailEvent::ClickedElsewhere,
    );
    assert_eq!(next, AnchorPick::Idle);
    assert_eq!(act, RailAction::NoAction);
}

#[test]
fn picking_opposite_unanchored_creates() {
    let (next, act) = next_anchor_pick(
        AnchorPick::Picking { side: Side::Left, line: 5 },
        RailEvent::Click(click(Side::Right, 11, None)),
    );
    assert_eq!(next, AnchorPick::Idle);
    assert_eq!(act, RailAction::AddAnchor { a: 5, b: 11 });
}

#[test]
fn picking_opposite_anchored_is_noop() {
    let pick = AnchorPick::Picking { side: Side::Left, line: 5 };
    let (next, act) = next_anchor_pick(pick, RailEvent::Click(click(Side::Right, 11, Some(0))));
    assert_eq!(next, pick);
    assert_eq!(act, RailAction::NoAction);
}

#[test]
fn picking_same_side_replaces_source() {
    let (next, act) = next_anchor_pick(
        AnchorPick::Picking { side: Side::Left, line: 5 },
        RailEvent::Click(click(Side::Left, 9, None)),
    );
    assert_eq!(next, AnchorPick::Picking { side: Side::Left, line: 9 });
    assert_eq!(act, RailAction::NoAction);
}

#[test]
fn picking_starts_with_right_side() {
    let (next, act) = next_anchor_pick(
        AnchorPick::Picking { side: Side::Right, line: 8 },
        RailEvent::Click(click(Side::Left, 2, None)),
    );
    assert_eq!(next, AnchorPick::Idle);
    assert_eq!(act, RailAction::AddAnchor { a: 2, b: 8 });
}

#[test]
fn none_event_preserves_state() {
    let s = AnchorPick::Picking { side: Side::Left, line: 1 };
    assert_eq!(next_anchor_pick(s, RailEvent::NoEvent), (s, RailAction::NoAction));
}

// ---------------------------------------------------------------------------
// Dual-monitor mode
// ---------------------------------------------------------------------------

fn m(x: i32, y: i32, w: u32, h: u32) -> MonitorRect {
    MonitorRect { x, y, w, h }
}

#[test]
fn adjacent_horizontal_pair_is_detected() {
    let a = m(0, 0, 1920, 1080);
    let b = m(1920, 0, 1920, 1080);
    assert!(are_adjacent(&a, &b));
}

#[test]
fn non_adjacent_pair_rejected() {
    let a = m(0, 0, 1920, 1080);
    let b = m(3000, 0, 1920, 1080);
    assert!(!are_adjacent(&a, &b));
}

#[test]
fn three_monitor_layout_lists_two_adjacent_pairs() {
    let mons = vec![m(0, 0, 1920, 1080), m(1920, 0, 1920, 1080), m(3840, 0, 1920, 1080)];
    let pairs = adjacent_pairs(&mons);
    assert_eq!(pairs.len(), 2);
}

#[test]
fn union_rect_spans_both_monitors() {
    let p = MonitorPair(m(0, 0, 1920, 1080), m(1920, 0, 1920, 1080));
    assert_eq!(union_rect(&p), m(0, 0, 3840, 1080));
}

#[test]
fn pick_pair_near_prefers_containing_pair() {
    let mons = vec![m(0, 0, 1920, 1080), m(1920, 0, 1920, 1080), m(3840, 0, 1920, 1080)];
    let p = pick_pair_near(&mons, (4500, 500)).expect("a pair");
    assert_eq!(p, MonitorPair(m(1920, 0, 1920, 1080), m(3840, 0, 1920, 1080)));
}

#[test]
fn match_saved_pair_tolerates_small_drift() {
    let mons = vec![m(0, 0, 1920, 1080), m(1920, 0, 1920, 1080)];
    let saved = [m(1, 0, 1920, 1080), m(1921, 0, 1920, 1080)];
    assert!(match_saved_pair(&mons, &saved).is_some());
}

#[test]
fn match_saved_pair_ignores_saved_order() {
    let mons = vec![m(0, 0, 1920, 1080), m(1920, 0, 1920, 1080), m(3840, 0, 1280, 1024)];
    let saved = [m(1921, 0, 1920, 1080), m(2, 1, 1920, 1080)];
    let swapped = [saved[1], saved[0]];
    let a = match_saved_pair(&mons, &saved);
    let b = match_saved_pair(&mons, &swapped);
    assert_eq!(a, b);
    assert_eq!(a, Some(MonitorPair(m(0, 0, 1920, 1080), m(1920, 0, 1920, 1080))));
}

#[test]
fn match_saved_pair_fails_when_signatures_differ() {
    let mons = vec![m(0, 0, 1920, 1080), m(1920, 0, 1920, 1080)];
    let saved = [m(0, 0, 2560, 1440), m(2560, 0, 2560, 1440)];
    assert!(match_saved_pair(&mons, &saved).is_none());
}

// ---------------------------------------------------------------------------
// Snapping to character boundaries
// ---------------------------------------------------------------------------

#[test]
fn snap_to_boundary_is_no_op_for_ascii() {
    let s = "hello";
    for i in 0..=s.len() {
        assert_eq!(snap_to_char_boundary(s, i), i);
    }
}

#[test]
fn snap_to_boundary_clamps_past_end() {
    let s = "hi";
    assert_eq!(snap_to_char_boundary(s, 99), s.len());
}

#[test]
fn snap_to_boundary_snaps_mid_codepoint() {
    let s = "h\u{00e9}";
    assert_eq!(snap_to_char_boundary(s, 0), 0);
    assert_eq!(snap_to_char_boundary(s, 1), 1);
    assert_eq!(snap_to_char_boundary(s, 2), 1);
    assert_eq!(snap_to_char_boundary(s, 3), 3);
}

#[test]
fn snap_to_boundary_empty_string() {
    assert_eq!(snap_to_char_boundary("", 0), 0);
    assert_eq!(snap_to_char_boundary("", 99), 0);
}

// ---------------------------------------------------------------------------
// Laws on concrete values
// ---------------------------------------------------------------------------

#[test]
fn char_diff_segments_spell_both_sides() {
    let pairs = [("kitten", "sitting"), ("", "x"), ("abc", "abc"), ("naïve", "native")];
    for (a, b) in pairs {
        let runs = char_diff(a, b);
        let left: String = left_segments(&runs).iter().map(|s| s.text.as_str()).collect();
        let right: String = right_segments(&runs).iter().map(|s| s.text.as_str()).collect();
        assert_eq!(left, a);
        assert_eq!(right, b);
    }
}

#[test]
fn char_diff_keeps_a_longest_common_subsequence() {
    // The longest common subsequence of "kitten" and "sitting" is "ittn".
    let runs = char_diff("kitten", "sitting");
    let kept: usize = runs
        .iter()
        .filter(|r| r.kind == CharKind::Equal)
        .map(|r| r.text.chars().count())
        .sum();
    assert_eq!(kept, 4);
}

#[test]
fn adjacency_is_symmetric_on_examples() {
    let a = m(0, 0, 1920, 1080);
    let b = m(1920, 0, 1920, 1080);
    let c = m(0, 1082, 1000, 500);
    let d = m(5000, 5000, 10, 10);
    for (x, y) in [(a, b), (a, c), (b, c), (a, d)] {
        assert_eq!(are_adjacent(&x, &y), are_adjacent(&y, &x));
    }
    assert!(are_adjacent(&a, &c));
}

#[test]
fn union_covers_vertically_stacked_pair() {
    let p = MonitorPair(m(100, 0, 1920, 1080), m(0, 1080, 2560, 1440));
    let u = union_rect(&p);
    assert_eq!(u, m(0, 0, 2560, 2520));
    assert_eq!(u.right(), 2560);
    assert_eq!(u.bottom(), 2520);
}

#[test]
fn adjacent_pairs_put_top_left_monitor_first() {
    let mons = vec![m(1920, 0, 1920, 1080), m(0, 0, 1920, 1080)];
    let pairs = adjacent_pairs(&mons);
    assert_eq!(pairs, vec![MonitorPair(m(0, 0, 1920, 1080), m(1920, 0, 1920, 1080))]);
}

#[test]
fn pick_pair_near_falls_back_to_nearest_center() {
    let mons = vec![m(0, 0, 1000, 1000), m(1000, 0, 1000, 1000), m(5000, 0, 1000, 1000), m(6000, 0, 1000, 1000)];
    let p = pick_pair_near(&mons, (4000, 500)).expect("a pair");
    assert_eq!(p, MonitorPair(m(5000, 0, 1000, 1000), m(6000, 0, 1000, 1000)));
    assert!(pick_pair_near(&[m(0, 0, 10, 10)], (0, 0)).is_none());
}

#[test]
fn pair_label_formats_origins_and_size() {
    let p = MonitorPair(m(0, 0, 1920, 1080), m(1920, -10, 1920, 1080));
    assert_eq!(pair_label(&p), "(0, 0) + (1920, -10)  \u{2014}  3840\u{d7}1090");
}

#[test]
fn char_diff_prefers_deleting_on_ties() {
    let r = char_diff("ab", "ba");
    let got: Vec<(CharKind, &str)> = r.iter().map(|x| (x.kind, x.text.as_str())).collect();
    assert_eq!(got, vec![(CharKind::Del, "a"), (CharKind::Equal, "b"), (CharKind::Ins, "a")]);
}
