use sb_mirror::download::{judge_response, request_plan, sidecar_update, SidecarUpdate, Verdict};

fn csv() -> Option<String> {
    Some("text/csv".to_string())
}

#[test]
fn first_fetch_is_unconditional() {
    let p = request_plan(None, Some("\"abc\"".to_string()));
    assert_eq!(p.if_none_match, None);
    assert_eq!(p.range_from, None);
}

#[test]
fn later_fetch_sends_validator_and_range() {
    let p = request_plan(Some(4096), Some("\"abc\"".to_string()));
    assert_eq!(p.if_none_match, Some("\"abc\"".to_string()));
    assert_eq!(p.range_from, Some(4096));
    let q = request_plan(Some(7), None);
    assert_eq!(q.if_none_match, None);
    assert_eq!(q.range_from, Some(7));
}

#[test]
fn matching_validator_leaves_blob_alone() {
    assert_eq!(judge_response(304, None, None, true), Verdict::Unchanged);
    assert_eq!(judge_response(416, csv(), Some(10), true), Verdict::Unchanged);
}

#[test]
fn expected_status_and_csv_is_appended() {
    assert_eq!(judge_response(200, csv(), Some(10), false), Verdict::Append);
    assert_eq!(judge_response(206, csv(), Some(10), true), Verdict::Append);
    assert_eq!(
        judge_response(200, Some("text/csv; charset=utf-8".to_string()), Some(0), false),
        Verdict::Append
    );
}

#[test]
fn unexpected_responses_fail() {
    assert_eq!(judge_response(200, csv(), Some(10), true), Verdict::Failed);
    assert_eq!(judge_response(206, csv(), Some(10), false), Verdict::Failed);
    assert_eq!(judge_response(500, csv(), Some(10), false), Verdict::Failed);
    assert_eq!(judge_response(200, Some("text/html".to_string()), Some(10), false), Verdict::Failed);
    assert_eq!(judge_response(200, Some("text/cs".to_string()), Some(10), false), Verdict::Failed);
    assert_eq!(judge_response(200, None, Some(10), false), Verdict::Failed);
}

#[test]
fn missing_length_fails() {
    assert_eq!(judge_response(200, csv(), None, false), Verdict::Failed);
}

#[test]
fn validator_sidecar_follows_server() {
    assert!(matches!(sidecar_update(Some("v1".to_string())), SidecarUpdate::Write(ref v) if v == "v1"));
    assert!(matches!(sidecar_update(None), SidecarUpdate::Remove));
}
