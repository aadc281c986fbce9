use diffie::merge::{icons_for_hunk, stripe_tone, MergeHunk, Resolution, StripeTone};

fn stable() -> MergeHunk {
    MergeHunk::Stable { id: 0, base: vec![], text: vec![] }
}
fn local_only() -> MergeHunk {
    MergeHunk::LocalOnly { id: 1, base: vec![], local: vec!["L".into()] }
}
fn remote_only() -> MergeHunk {
    MergeHunk::RemoteOnly { id: 2, base: vec![], remote: vec!["R".into()] }
}
fn conflict() -> MergeHunk {
    MergeHunk::Conflict { id: 3, base: vec![], local: vec![], remote: vec![] }
}

#[test]
fn stable_has_no_stripe() {
    assert_eq!(stripe_tone(&stable(), None), None);
}

#[test]
fn local_only_defaults_to_green() {
    assert_eq!(stripe_tone(&local_only(), None), Some(StripeTone::Green));
}

#[test]
fn local_only_base_resolution_is_yellow() {
    assert_eq!(stripe_tone(&local_only(), Some(&Resolution::Base)), Some(StripeTone::Yellow));
}

#[test]
fn remote_only_defaults_to_sapphire() {
    assert_eq!(stripe_tone(&remote_only(), None), Some(StripeTone::Sapphire));
}

#[test]
fn conflict_unresolved_is_red() {
    assert_eq!(stripe_tone(&conflict(), None), Some(StripeTone::Red));
}

#[test]
fn conflict_resolutions_match_chosen_side() {
    assert_eq!(stripe_tone(&conflict(), Some(&Resolution::Local)), Some(StripeTone::Green));
    assert_eq!(stripe_tone(&conflict(), Some(&Resolution::Remote)), Some(StripeTone::Sapphire));
    assert_eq!(stripe_tone(&conflict(), Some(&Resolution::Base)), Some(StripeTone::Yellow));
    assert_eq!(
        stripe_tone(&conflict(), Some(&Resolution::Custom { lines: vec![] })),
        Some(StripeTone::Overlay)
    );
}

#[test]
fn stable_has_no_pickers() {
    assert!(icons_for_hunk(&stable(), None).is_empty());
}

#[test]
fn local_only_pickers_default_local_filled() {
    let icons = icons_for_hunk(&local_only(), None);
    assert_eq!(icons.len(), 2);
    assert!(!icons[0].filled);
    assert!(icons[1].filled);
    assert!(matches!(icons[0].resolution, Resolution::Base));
    assert!(matches!(icons[1].resolution, Resolution::Local));
}

#[test]
fn local_only_base_pick_flips_filled() {
    let icons = icons_for_hunk(&local_only(), Some(&Resolution::Base));
    assert!(icons[0].filled);
    assert!(!icons[1].filled);
}

#[test]
fn remote_only_pickers_default_remote_filled() {
    let icons = icons_for_hunk(&remote_only(), None);
    assert_eq!(icons.len(), 2);
    assert!(icons[0].filled);
    assert!(!icons[1].filled);
    assert!(matches!(icons[0].resolution, Resolution::Remote));
    assert!(matches!(icons[1].resolution, Resolution::Base));
}

#[test]
fn conflict_pickers_unresolved_all_outlined() {
    let icons = icons_for_hunk(&conflict(), None);
    assert_eq!(icons.len(), 3);
    for icon in &icons {
        assert!(!icon.filled, "expected outlined for unresolved conflict");
    }
}

#[test]
fn conflict_picks_match_filled_icon() {
    let icons = icons_for_hunk(&conflict(), Some(&Resolution::Remote));
    assert!(icons[0].filled);
    assert!(!icons[1].filled);
    assert!(!icons[2].filled);

    let icons = icons_for_hunk(&conflict(), Some(&Resolution::Base));
    assert!(!icons[0].filled);
    assert!(icons[1].filled);
    assert!(!icons[2].filled);

    let icons = icons_for_hunk(&conflict(), Some(&Resolution::Local));
    assert!(!icons[0].filled);
    assert!(!icons[1].filled);
    assert!(icons[2].filled);
}

#[test]
fn custom_resolution_leaves_all_outlined() {
    let icons = icons_for_hunk(&conflict(), Some(&Resolution::Custom { lines: vec![] }));
    for icon in &icons {
        assert!(!icon.filled);
    }
    let icons = icons_for_hunk(&local_only(), Some(&Resolution::Custom { lines: vec![] }));
    for icon in &icons {
        assert!(!icon.filled);
    }
}
