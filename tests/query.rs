use sb_mirror::segment::{hash_prefix, parse_categories, Segment, SegmentFilter};

fn seg(id: &str, video: &str, hash: &str, start: f64, category: &str, service: &str) -> Segment {
    Segment {
        id: id.to_string(),
        video_id: video.to_string(),
        hash_full: hash.to_string(),
        start_bits: start.to_bits(),
        end_bits: (start + 1.0).to_bits(),
        category: category.to_string(),
        user_id: "user".to_string(),
        votes: -1,
        service: service.to_string(),
        action_type: "skip".to_string(),
        video_duration_bits: 100.0f64.to_bits(),
        locked: 1,
    }
}

fn filter(cats: &[&str], service: Option<&str>) -> SegmentFilter {
    SegmentFilter {
        categories: cats.iter().map(|c| c.to_string()).collect(),
        service: service.map(|s| s.to_string()),
    }
}

#[test]
fn shared_video_returns_only_asked_category() {
    let rows = vec![
        seg("s1", "abc", "deadbeef1234", 5.0, "sponsor", "YouTube"),
        seg("s2", "abc", "deadbeef1234", 9.0, "selfpromo", "YouTube"),
    ];
    let r = Segment::get_by_hash(&rows, "dead".to_string(), filter(&["sponsor"], None));
    assert_eq!(r.len(), 1);
    assert_eq!(r[0].video_id, "abc");
    assert_eq!(r[0].hash_full, "deadbeef1234");
    assert_eq!(r[0].segments.len(), 1);
    assert_eq!(r[0].segments[0].id, "s1");
    assert_eq!(r[0].segments[0].category, "sponsor");
}

#[test]
fn filters_by_prefix_service_and_category() {
    let rows = vec![
        seg("a", "v1", "dead0001", 3.0, "sponsor", "YouTube"),
        seg("b", "v1", "beef0001", 1.0, "sponsor", "YouTube"),
        seg("c", "v2", "dead0002", 2.0, "intro", "YouTube"),
        seg("d", "v3", "dead0003", 2.0, "sponsor", "PeerTube"),
        seg("e", "v4", "dead0004", 7.0, "outro", "YouTube"),
    ];
    let mut r = Segment::get_by_hash(&rows, "dead".to_string(), filter(&["sponsor", "intro"], None));
    r.sort_by(|x, y| x.video_id.cmp(&y.video_id));
    assert_eq!(r.len(), 2);
    assert_eq!(r[0].video_id, "v1");
    assert_eq!(r[0].segments.len(), 1);
    assert_eq!(r[0].segments[0].id, "a");
    assert_eq!(r[1].video_id, "v2");
    assert_eq!(r[1].segments[0].id, "c");

    let p = Segment::get_by_hash(&rows, "dead".to_string(), filter(&["sponsor"], Some("PeerTube")));
    assert_eq!(p.len(), 1);
    assert_eq!(p[0].segments[0].id, "d");
}

#[test]
fn segments_ordered_by_start() {
    let rows = vec![
        seg("late", "v", "abcd99", 30.5, "sponsor", "YouTube"),
        seg("early", "v", "abcd99", 0.25, "sponsor", "YouTube"),
        seg("mid", "v", "abcd99", 12.0, "sponsor", "YouTube"),
    ];
    let r = Segment::get_by_hash(&rows, "abcd".to_string(), filter(&["sponsor"], None));
    assert_eq!(r.len(), 1);
    let ids: Vec<&str> = r[0].segments.iter().map(|s| s.id.as_str()).collect();
    assert_eq!(ids, vec!["early", "mid", "late"]);
}

#[test]
fn empty_store_returns_nothing() {
    let r = Segment::get_by_hash(&Vec::new(), "dead".to_string(), filter(&["sponsor"], None));
    assert!(r.is_empty());
    let rows = vec![seg("a", "v1", "dead0001", 3.0, "sponsor", "YouTube")];
    assert!(Segment::get_by_hash(&rows, "dead".to_string(), filter(&[], None)).is_empty());
}

#[test]
fn prefix_is_first_four_characters() {
    assert_eq!(hash_prefix(&"deadbeef".to_string()), "dead");
    assert_eq!(hash_prefix(&"abc".to_string()), "abc");
}

#[test]
fn categories_parameter_is_json() {
    assert_eq!(
        parse_categories(&"[\"sponsor\",\"intro\"]".to_string()),
        Some(vec!["sponsor".to_string(), "intro".to_string()])
    );
    assert_eq!(parse_categories(&"[]".to_string()), Some(Vec::new()));
    assert_eq!(parse_categories(&"sponsor".to_string()), None);
}
