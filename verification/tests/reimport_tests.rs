use skills_manager::skills::{decide_reimport, reconcile, Reconcile, ReimportDecision, SideState};

fn side(hash: Option<&str>, mtime_ms: Option<i64>) -> SideState {
    SideState {
        hash: hash.map(|s| s.to_string()),
        mtime_ms,
    }
}

#[test]
fn decide_reimport_identical_content_skips() {
    assert_eq!(
        decide_reimport(&side(Some("h"), Some(1)), &side(Some("h"), Some(9_999)), 1000),
        ReimportDecision::SkipInSync
    );
}

#[test]
fn decide_reimport_source_strictly_newer_overwrites() {
    assert_eq!(
        decide_reimport(
            &side(Some("src"), Some(5_000)),
            &side(Some("ctr"), Some(1_000)),
            1000
        ),
        ReimportDecision::OverwriteCenter
    );
}

#[test]
fn decide_reimport_center_strictly_newer_keeps_center() {
    assert_eq!(
        decide_reimport(
            &side(Some("src"), Some(1_000)),
            &side(Some("ctr"), Some(5_000)),
            1000
        ),
        ReimportDecision::KeepCenter
    );
}

#[test]
fn decide_reimport_tie_within_threshold_keeps_center() {
    assert_eq!(
        decide_reimport(
            &side(Some("src"), Some(1_500)),
            &side(Some("ctr"), Some(1_000)),
            1000
        ),
        ReimportDecision::KeepCenter
    );
}

#[test]
fn decide_reimport_unrankable_missing_mtime_keeps_center() {
    assert_eq!(
        decide_reimport(
            &side(Some("src"), None),
            &side(Some("ctr"), Some(1_000)),
            1000
        ),
        ReimportDecision::KeepCenter
    );
}

#[test]
fn reconcile_missing_hashes_are_not_in_sync() {
    assert_eq!(reconcile(&side(None, Some(1)), &side(None, Some(1)), 1000), Reconcile::Diverged);
}

#[test]
fn reconcile_threshold_boundary_is_a_tie() {
    assert_eq!(
        reconcile(&side(Some("a"), Some(2_000)), &side(Some("b"), Some(1_000)), 1000),
        Reconcile::Diverged
    );
    assert_eq!(
        reconcile(&side(Some("a"), Some(2_001)), &side(Some("b"), Some(1_000)), 1000),
        Reconcile::TakeA
    );
    assert_eq!(
        reconcile(&side(Some("a"), Some(1_000)), &side(Some("b"), Some(2_001)), 1000),
        Reconcile::TakeB
    );
}

#[test]
fn reimport_never_overwrites_a_newer_center() {
    for (s, c) in [(1_000i64, 5_000i64), (5_000, 5_500), (0, 0)] {
        let d = decide_reimport(&side(Some("x"), Some(s)), &side(Some("y"), Some(c)), 1000);
        assert_ne!(d, ReimportDecision::OverwriteCenter);
    }
}
