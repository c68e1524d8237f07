use vstd::prelude::*;
use vstd::string::*;
use vstd::seq_lib::*;

verus! {

/// Length of the indexed hash prefix.
pub const PREFIX_LEN: usize = 4;

/// One mirrored record. Times and the video duration are kept as the bit
/// patterns of their IEEE-754 doubles; `time_key` orders them as numbers.
#[derive(Clone, Debug)]
pub struct Segment {
    pub id: String,
    pub video_id: String,
    pub hash_full: String,
    pub start_bits: u64,
    pub end_bits: u64,
    pub category: String,
    pub user_id: String,
    pub votes: i64,
    pub service: String,
    pub action_type: String,
    pub video_duration_bits: u64,
    pub locked: u8,
}

/// What a lookup asks for besides the hash prefix.
pub struct SegmentFilter {
    pub categories: Vec<String>,
    pub service: Option<String>,
}

/// The segments of one video, as a lookup returns them.
#[derive(Debug)]
pub struct SegmentHashContainer {
    pub video_id: String,
    pub hash_full: String,
    pub segments: Vec<Segment>,
}

/// The prefix of a content hash that the store indexes.
pub open spec fn prefix_of(h: Seq<char>) -> Seq<char> {
    if h.len() <= PREFIX_LEN {
        h
    } else {
        h.subrange(0, PREFIX_LEN as int)
    }
}

pub fn hash_prefix(hash: &String) -> (r: String)
    ensures
        r@ == prefix_of(hash@),
{
    let s = hash.as_str();
    let n = s.unicode_len();
    let end: usize = if n <= PREFIX_LEN { n } else { PREFIX_LEN };
    let sub = s.substring_char(0, end);
    proof {
        if n <= PREFIX_LEN {
            assert(hash@.subrange(0, n as int) =~= hash@);
        }
    }
    String::from_str(sub)
}

/// Order of a double's bit pattern that agrees with the numeric order of
/// the doubles it encodes (NaNs aside).
pub open spec fn time_key(bits: u64) -> u64 {
    if bits >= 0x8000_0000_0000_0000 {
        (0xffff_ffff_ffff_ffffu64 - bits) as u64
    } else {
        (bits + 0x8000_0000_0000_0000u64) as u64
    }
}

pub fn start_key(s: &Segment) -> (r: u64)
    ensures
        r == time_key(s.start_bits),
{
    let b = s.start_bits;
    if b >= 0x8000_0000_0000_0000 {
        0xffff_ffff_ffff_ffffu64 - b
    } else {
        b + 0x8000_0000_0000_0000u64
    }
}

/// The service a filter asks for; YouTube where it names none.
pub open spec fn service_of(f: SegmentFilter) -> Seq<char> {
    match f.service {
        Some(s) => s@,
        None => "YouTube"@,
    }
}

pub open spec fn category_listed(cats: Seq<String>, c: Seq<char>) -> bool {
    exists|i: int| 0 <= i < cats.len() && (#[trigger] cats[i])@ == c
}

/// Whether a stored segment answers a lookup.
pub open spec fn matches(s: Segment, prefix: Seq<char>, cats: Seq<String>, service: Seq<char>) -> bool {
    prefix_of(s.hash_full@) == prefix && s.service@ == service && category_listed(cats, s.category@)
}

/// The segments among `rows` that answer a lookup, in the order of `rows`.
pub open spec fn selected(rows: Seq<Segment>, prefix: Seq<char>, cats: Seq<String>, service: Seq<char>) -> Seq<Segment>
    decreases rows.len(),
{
    if rows.len() == 0 {
        Seq::empty()
    } else {
        let rest = selected(rows.drop_last(), prefix, cats, service);
        if matches(rows.last(), prefix, cats, service) {
            rest.push(rows.last())
        } else {
            rest
        }
    }
}

fn listed(cats: &Vec<String>, c: &String) -> (r: bool)
    ensures
        r == category_listed(cats@, c@),
{
    let mut i: usize = 0;
    while i < cats.len()
        invariant
            i <= cats.len(),
            forall|j: int| 0 <= j < i ==> (#[trigger] cats@[j])@ != c@,
        decreases cats.len() - i,
    {
        if cats[i] == *c {
            return true;
        }
        i += 1;
    }
    false
}

fn copy_segment(s: &Segment) -> (r: Segment)
    ensures
        r == *s,
{
    Segment {
        id: s.id.clone(),
        video_id: s.video_id.clone(),
        hash_full: s.hash_full.clone(),
        start_bits: s.start_bits,
        end_bits: s.end_bits,
        category: s.category.clone(),
        user_id: s.user_id.clone(),
        votes: s.votes,
        service: s.service.clone(),
        action_type: s.action_type.clone(),
        video_duration_bits: s.video_duration_bits,
        locked: s.locked,
    }
}

/// The rows that answer a lookup for `prefix` under `filter`, in order.
pub fn select(rows: &Vec<Segment>, prefix: &String, filter: &SegmentFilter) -> (r: Vec<Segment>)
    ensures
        r@ == selected(rows@, prefix@, filter.categories@, service_of(*filter)),
{
    let service = match &filter.service {
        Some(s) => s.clone(),
        None => "YouTube".to_string(),
    };
        let mut out: Vec<Segment> = Vec::new();
    let mut i: usize = 0;
    while i < rows.len()
        invariant
            i <= rows.len(),
            service@ == service_of(*filter),
            out@ == selected(rows@.subrange(0, i as int), prefix@, filter.categories@, service@),
        decreases rows.len() - i,
    {
        let row = &rows[i];
        let p = hash_prefix(&row.hash_full);
        let hit = p == *prefix && row.service == service && listed(&filter.categories, &row.category);
        assert(rows@.subrange(0, i + 1).drop_last() =~= rows@.subrange(0, i as int));
        if hit {
            out.push(copy_segment(row));
        }
        i += 1;
    }
    assert(rows@.subrange(0, rows.len() as int) =~= rows@);
    out
}

pub open spec fn sorted_by_start(s: Seq<Segment>) -> bool {
    forall|a: int, b: int|
        0 <= a < b < s.len() ==> time_key(#[trigger] s[a].start_bits) <= time_key(#[trigger] s[b].start_bits)
}

/// The segments of `s` that belong to video `vid`, in the order of `s`.
pub open spec fn of_video(s: Seq<Segment>, vid: Seq<char>) -> Seq<Segment>
    decreases s.len(),
{
    if s.len() == 0 {
        Seq::empty()
    } else if s.last().video_id@ == vid {
        of_video(s.drop_last(), vid).push(s.last())
    } else {
        of_video(s.drop_last(), vid)
    }
}

proof fn lemma_of_video_from(s: Seq<Segment>, vid: Seq<char>)
    ensures
        forall|a: int| 0 <= a < of_video(s, vid).len() ==>
            exists|b: int| 0 <= b < s.len() && s[b] == #[trigger] of_video(s, vid)[a],
    decreases s.len(),
{
    if s.len() > 0 {
        let t = s.drop_last();
        lemma_of_video_from(t, vid);
        assert forall|a: int| 0 <= a < of_video(s, vid).len() implies
            exists|b: int| 0 <= b < s.len() && s[b] == #[trigger] of_video(s, vid)[a] by {
            if a < of_video(t, vid).len() {
                let b = choose|b: int| 0 <= b < t.len() && t[b] == of_video(t, vid)[a];
                assert(s[b] == t[b]);
            } else {
                assert(s[s.len() - 1] == of_video(s, vid)[a]);
            }
        }
    }
}

proof fn lemma_of_video_sorted(s: Seq<Segment>, vid: Seq<char>)
    requires
        sorted_by_start(s),
    ensures
        sorted_by_start(of_video(s, vid)),
    decreases s.len(),
{
    if s.len() > 0 {
        let t = s.drop_last();
        lemma_of_video_sorted(t, vid);
        lemma_of_video_from(t, vid);
        let g = of_video(t, vid);
        assert forall|a: int| 0 <= a < g.len() implies
            time_key(#[trigger] g[a].start_bits) <= time_key(s.last().start_bits) by {
            let b = choose|b: int| 0 <= b < t.len() && t[b] == g[a];
            assert(s[b] == t[b]);
        }
    }
}

proof fn lemma_of_video_count(s: Seq<Segment>, vid: Seq<char>, x: Segment)
    ensures
        of_video(s, vid).to_multiset().count(x) == (if x.video_id@ == vid { s.to_multiset().count(x) } else { 0 }),
    decreases s.len(),
{
    broadcast use group_to_multiset_ensures;
    if s.len() > 0 {
        lemma_of_video_count(s.drop_last(), vid, x);
        assert(s =~= s.drop_last().push(s.last()));
    }
}

proof fn lemma_of_video_nonempty(s: Seq<Segment>, k: int)
    requires
        0 <= k < s.len(),
    ensures
        of_video(s, s[k].video_id@).len() > 0,
    decreases s.len(),
{
    if k < s.len() - 1 {
        lemma_of_video_nonempty(s.drop_last(), k);
    }
}

fn video_segments(s: &Vec<Segment>, vid: &String) -> (r: Vec<Segment>)
    ensures
        r@ == of_video(s@, vid@),
{
    let mut out: Vec<Segment> = Vec::new();
    let mut i: usize = 0;
    while i < s.len()
        invariant
            i <= s.len(),
            out@ == of_video(s@.subrange(0, i as int), vid@),
        decreases s.len() - i,
    {
        assert(s@.subrange(0, i + 1).drop_last() =~= s@.subrange(0, i as int));
        if s[i].video_id == *vid {
            out.push(copy_segment(&s[i]));
        }
        i += 1;
    }
    assert(s@.subrange(0, s.len() as int) =~= s@);
    out
}

/// Whether some string of `vs` is `v`.
pub open spec fn listed_video(vs: Seq<String>, v: Seq<char>) -> bool {
    exists|m: int| 0 <= m < vs.len() && (#[trigger] vs[m])@ == v
}

/// Whether one of the first `n` segments of `s` belongs to video `v`.
pub open spec fn video_among(s: Seq<Segment>, n: int, v: Seq<char>) -> bool {
    exists|k: int| 0 <= k < n && (#[trigger] s[k]).video_id@ == v
}

fn distinct_videos(s: &Vec<Segment>) -> (r: Vec<String>)
    ensures
        forall|a: int, b: int| 0 <= a < b < r.len() ==> (#[trigger] r@[a])@ != (#[trigger] r@[b])@,
        forall|k: int| 0 <= k < s.len() ==> listed_video(r@, (#[trigger] s@[k]).video_id@),
        forall|j: int| 0 <= j < r.len() ==> video_among(s@, s.len() as int, (#[trigger] r@[j])@),
{
    let mut out: Vec<String> = Vec::new();
    let mut i: usize = 0;
    while i < s.len()
        invariant
            i <= s.len(),
            forall|a: int, b: int| 0 <= a < b < out.len() ==> (#[trigger] out@[a])@ != (#[trigger] out@[b])@,
            forall|k: int| 0 <= k < i ==> listed_video(out@, (#[trigger] s@[k]).video_id@),
            forall|j: int| 0 <= j < out.len() ==> video_among(s@, i as int, (#[trigger] out@[j])@),
        decreases s.len() - i,
    {
        let mut j: usize = 0;
        let mut found = false;
        while j < out.len()
            invariant
                j <= out.len(),
                i < s.len(),
                !found ==> forall|m: int| 0 <= m < j ==> (#[trigger] out@[m])@ != s@[i as int].video_id@,
                found ==> listed_video(out@, s@[i as int].video_id@),
            decreases out.len() - j,
        {
            if out[j] == s[i].video_id {
                found = true;
            }
            j += 1;
        }
        let ghost before = out@;
        if !found {
            out.push(s[i].video_id.clone());
            proof {
                let v = s@[i as int].video_id@;
                assert(out@[out.len() - 1]@ == v);
                assert forall|k: int| 0 <= k < i + 1 implies listed_video(out@, (#[trigger] s@[k]).video_id@) by {
                    if k < i {
                        assert(listed_video(before, s@[k].video_id@));
                        let m = choose|m: int| 0 <= m < before.len() && (#[trigger] before[m])@ == s@[k].video_id@;
                        assert(out@[m] == before[m]);
                    } else {
                        assert(out@[out.len() - 1]@ == s@[k].video_id@);
                    }
                }
                assert forall|m: int| 0 <= m < out.len() implies video_among(s@, i + 1, (#[trigger] out@[m])@) by {
                    if m < before.len() {
                        assert(out@[m] == before[m]);
                        assert(video_among(s@, i as int, before[m]@));
                    } else {
                        assert(s@[i as int].video_id@ == out@[m]@);
                    }
                }
            }
        } else {
            proof {
                assert forall|k: int| 0 <= k < i + 1 implies listed_video(out@, (#[trigger] s@[k]).video_id@) by {
                }
                assert forall|m: int| 0 <= m < out.len() implies video_among(s@, i + 1, (#[trigger] out@[m])@) by {
                    assert(video_among(s@, i as int, out@[m]@));
                }
            }
        }
        i += 1;
    }
    out
}

fn sort_by_start(v: &Vec<Segment>) -> (r: Vec<Segment>)
    ensures
        sorted_by_start(r@),
        r@.to_multiset() == v@.to_multiset(),
{
    broadcast use group_to_multiset_ensures;
    let mut out: Vec<Segment> = Vec::new();
    let mut i: usize = 0;
    while i < v.len()
        invariant
            i <= v.len(),
            out.len() == i,
            sorted_by_start(out@),
            out@.to_multiset() == v@.subrange(0, i as int).to_multiset(),
        decreases v.len() - i,
    {
        let k = start_key(&v[i]);
        let mut j: usize = 0;
        while j < out.len() && start_key(&out[j]) <= k
            invariant
                j <= out.len(),
                forall|m: int| 0 <= m < j ==> time_key(#[trigger] out@[m].start_bits) <= k,
            decreases out.len() - j,
        {
            j += 1;
        }
        let ghost before = out@;
        out.insert(j, copy_segment(&v[i]));
        proof {
            to_multiset_insert(before, j as int, v@[i as int]);
            to_multiset_build(v@.subrange(0, i as int), v@[i as int]);
            assert(v@.subrange(0, i + 1) =~= v@.subrange(0, i as int).push(v@[i as int]));
            assert forall|a: int, b: int| 0 <= a < b < out.len() implies
                time_key(#[trigger] out@[a].start_bits) <= time_key(#[trigger] out@[b].start_bits) by {
                if b < j {
                } else if b == j {
                } else if a < j {
                    assert(time_key(before[j as int].start_bits) > k);
                } else if a == j {
                    assert(time_key(before[j as int].start_bits) > k);
                }
            }
        }
        i += 1;
    }
    assert(v@.subrange(0, v.len() as int) =~= v@);
    out
}

/// Whether some container of `cs` holds video `v`.
pub open spec fn has_container(cs: Seq<SegmentHashContainer>, v: Seq<char>) -> bool {
    exists|j: int| 0 <= j < cs.len() && (#[trigger] cs[j]).video_id@ == v
}

/// What a lookup returns for the segments `sel` that answer it: one container
/// per video, its segments exactly those of `sel` for that video, ordered by
/// start time, and the container's hash that of its first segment.
pub open spec fn groups_of(cs: Seq<SegmentHashContainer>, sel: Seq<Segment>) -> bool {
    &&& forall|j: int| 0 <= j < cs.len() ==> {
        let c = #[trigger] cs[j];
        &&& c.segments@.len() > 0
        &&& c.hash_full == c.segments@[0].hash_full
        &&& sorted_by_start(c.segments@)
        &&& c.segments@.to_multiset() == of_video(sel, c.video_id@).to_multiset()
    }
    &&& forall|a: int, b: int| 0 <= a < b < cs.len() ==> (#[trigger] cs[a]).video_id@ != (#[trigger] cs[b]).video_id@
    &&& forall|k: int| 0 <= k < sel.len() ==> has_container(cs, (#[trigger] sel[k]).video_id@)
}

impl Segment {
    /// Looks up the segments among `rows` whose hash prefix is `hash` and that
    /// `filter` admits, grouped by video.
    pub fn get_by_hash(rows: &Vec<Segment>, hash: String, filter: SegmentFilter) -> (r: Vec<SegmentHashContainer>)
        ensures
            groups_of(r@, selected(rows@, hash@, filter.categories@, service_of(filter))),
    {
        broadcast use group_to_multiset_ensures;
        let sel = select(rows, &hash, &filter);
        let sorted = sort_by_start(&sel);
        let vids = distinct_videos(&sorted);
        let mut out: Vec<SegmentHashContainer> = Vec::new();
        let mut j: usize = 0;
        while j < vids.len()
            invariant
                j <= vids.len(),
                out.len() == j,
                forall|a: int, b: int| 0 <= a < b < vids.len() ==> (#[trigger] vids@[a])@ != (#[trigger] vids@[b])@,
                forall|m: int| 0 <= m < vids.len() ==> video_among(sorted@, sorted.len() as int, (#[trigger] vids@[m])@),
                forall|m: int| 0 <= m < j ==> {
                    let c = #[trigger] out@[m];
                    &&& c.video_id@ == vids@[m]@
                    &&& c.segments@ == of_video(sorted@, c.video_id@)
                    &&& c.segments@.len() > 0
                    &&& c.hash_full == c.segments@[0].hash_full
                },
            decreases vids.len() - j,
        {
            let segs = video_segments(&sorted, &vids[j]);
            proof {
                assert(video_among(sorted@, sorted.len() as int, vids@[j as int]@));
                let k = choose|k: int| 0 <= k < sorted.len() && (#[trigger] sorted@[k]).video_id@ == vids@[j as int]@;
                lemma_of_video_nonempty(sorted@, k);
            }
            let hash_full = segs[0].hash_full.clone();
            out.push(SegmentHashContainer { video_id: vids[j].clone(), hash_full, segments: segs });
            j += 1;
        }
        proof {
            let sel_s = selected(rows@, hash@, filter.categories@, service_of(filter));
            assert forall|m: int| 0 <= m < out.len() implies {
                let c = #[trigger] out@[m];
                &&& sorted_by_start(c.segments@)
                &&& c.segments@.to_multiset() == of_video(sel_s, c.video_id@).to_multiset()
            } by {
                let c = out@[m];
                lemma_of_video_sorted(sorted@, c.video_id@);
                assert forall|x: Segment| #[trigger] of_video(sorted@, c.video_id@).to_multiset().count(x)
                    == of_video(sel_s, c.video_id@).to_multiset().count(x) by {
                    lemma_of_video_count(sorted@, c.video_id@, x);
                    lemma_of_video_count(sel_s, c.video_id@, x);
                }
                assert(of_video(sorted@, c.video_id@).to_multiset() =~= of_video(sel_s, c.video_id@).to_multiset());
            }
            assert forall|a: int, b: int| 0 <= a < b < out.len() implies
                (#[trigger] out@[a]).video_id@ != (#[trigger] out@[b]).video_id@ by {
                assert(vids@[a]@ != vids@[b]@);
            }
            assert forall|k: int| 0 <= k < sel_s.len() implies has_container(out@, (#[trigger] sel_s[k]).video_id@) by {
                let x = sel_s[k];
                assert(sel_s.contains(x));
                to_multiset_contains(sel_s, x);
                to_multiset_contains(sorted@, x);
                assert(sorted@.contains(x));
                let i = choose|i: int| 0 <= i < sorted.len() && sorted@[i] == x;
                assert(listed_video(vids@, sorted@[i].video_id@));
                let m = choose|m: int| 0 <= m < vids.len() && (#[trigger] vids@[m])@ == sorted@[i].video_id@;
                assert(out@[m].video_id@ == x.video_id@);
            }
        }
        out
    }
}

#[verifier::external_type_specification]
#[verifier::external_body]
pub struct ExJsonError(serde_json::Error);

/// The strings of the JSON array of strings that `s` is, if it is one.
pub uninterp spec fn json_string_list(s: Seq<char>) -> Option<Seq<Seq<char>>>;

pub open spec fn views_of(v: Seq<String>) -> Seq<Seq<char>> {
    v.map_values(|x: String| x@)
}

/// Relies on serde_json::from_str into `Vec<String>`: the outcome depends on
/// the text alone.
#[verifier::external_body]
fn json_strings(text: &str) -> (r: Result<Vec<String>, serde_json::Error>)
    ensures
        match r {
            Ok(v) => json_string_list(text@) == Some(views_of(v@)),
            Err(_) => json_string_list(text@).is_none(),
        },
{
    serde_json::from_str::<Vec<String>>(text)
}

/// Reads the categories parameter of a lookup, a JSON array of strings.
pub fn parse_categories(text: &String) -> (r: Option<Vec<String>>)
    ensures
        match r {
            Some(v) => json_string_list(text@) == Some(views_of(v@)),
            None => json_string_list(text@).is_none(),
        },
{
    match json_strings(text.as_str()) {
        Ok(v) => Some(v),
        Err(_) => None,
    }
}

} // verus!
