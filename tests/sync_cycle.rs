use sb_mirror::segment::Segment;
use sb_mirror::sync::{Phase, Step, SyncCycle, MAX_CONSECUTIVE_FAILURES};

fn seg(id: &str) -> Segment {
    Segment {
        id: id.to_string(),
        video_id: "abc".to_string(),
        hash_full: "deadbeef1234".to_string(),
        start_bits: 1.0f64.to_bits(),
        end_bits: 2.0f64.to_bits(),
        category: "sponsor".to_string(),
        user_id: "u".to_string(),
        votes: 0,
        service: "YouTube".to_string(),
        action_type: "skip".to_string(),
        video_duration_bits: 60.0f64.to_bits(),
        locked: 0,
    }
}

#[test]
fn complete_cycle_commits_blob_length() {
    let mut c = SyncCycle::new(9_000);
    assert_eq!(c.on_record(&seg("a"), false), Step::Apply);
    assert_eq!(c.on_record(&seg("b"), false), Step::Apply);
    assert_eq!(c.phase(), Phase::Running);
    assert_eq!(c.finish(), Some(9_000));
}

#[test]
fn malformed_run_aborts_without_commit() {
    let mut c = SyncCycle::new(1_000);
    assert_eq!(c.on_malformed(), Step::SkipLine);
    assert_eq!(c.on_record(&seg("good"), false), Step::Apply);
    let mut steps = Vec::new();
    for _ in 0..26 {
        steps.push(c.on_malformed());
    }
    assert_eq!(MAX_CONSECUTIVE_FAILURES, 20);
    assert!(steps[..20].iter().all(|s| *s == Step::SkipLine));
    assert!(steps[20..].iter().all(|s| *s == Step::Abort));
    assert_eq!(c.phase(), Phase::Corrupt);
    assert_eq!(c.finish(), None);
}

#[test]
fn failures_count_only_in_a_row() {
    let mut c = SyncCycle::new(1_000);
    for _ in 0..20 {
        assert_eq!(c.on_malformed(), Step::SkipLine);
    }
    assert_eq!(c.on_record(&seg("a"), false), Step::Apply);
    for _ in 0..20 {
        assert_eq!(c.on_malformed(), Step::SkipLine);
    }
    assert_eq!(c.finish(), Some(1_000));
}

#[test]
fn cancellation_rolls_back() {
    let mut c = SyncCycle::new(5_000);
    assert_eq!(c.on_record(&seg("a"), false), Step::Apply);
    assert_eq!(c.on_record(&seg("b"), true), Step::Rollback);
    assert_eq!(c.phase(), Phase::Cancelled);
    assert_eq!(c.on_record(&seg("c"), false), Step::Rollback);
    assert_eq!(c.on_malformed(), Step::Rollback);
    assert_eq!(c.finish(), None);
}

#[test]
fn rerun_after_cancel_commits() {
    let mut first = SyncCycle::new(5_000);
    assert_eq!(first.on_record(&seg("a"), true), Step::Rollback);
    assert_eq!(first.finish(), None);
    let mut second = SyncCycle::new(5_000);
    assert_eq!(second.on_record(&seg("a"), false), Step::Apply);
    assert_eq!(second.finish(), Some(5_000));
}
