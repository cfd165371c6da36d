use dropshot_api_manager::diffing::{diff_action, DiffAction};

#[test]
fn actions_by_presence_and_contents() {
    // Added locally, compared with the previous blessed version.
    assert_eq!(diff_action(true, false, false, true, false), DiffAction::AddedSincePrevious);
    assert_eq!(diff_action(true, false, false, true, true), DiffAction::Nothing);
    // Added locally with nothing blessed before it.
    assert_eq!(diff_action(true, false, false, false, false), DiffAction::AddedWhole);
    // Removed locally.
    assert_eq!(diff_action(false, true, false, false, false), DiffAction::Removed);
    // Both present.
    assert_eq!(diff_action(true, true, true, false, false), DiffAction::Nothing);
    assert_eq!(diff_action(true, true, false, true, true), DiffAction::Modified);
    assert_eq!(DiffAction::AddedWhole.words(), ("added", " (new locally)"));
    assert_eq!(DiffAction::Removed.words(), ("removed", " (removed locally)"));
    assert_eq!(DiffAction::Modified.words(), ("modified", ""));
}
