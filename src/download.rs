use vstd::prelude::*;
use vstd::string::*;

verus! {

/// Status of a response to a conditional request whose copy is current.
pub const NOT_MODIFIED: u16 = 304;

/// Status of a range request that starts at or past the end of the resource.
pub const RANGE_NOT_SATISFIABLE: u16 = 416;

/// The conditional headers of a fetch.
pub struct RequestPlan {
    /// Value of `If-None-Match`.
    pub if_none_match: Option<String>,
    /// First byte of the `Range` asked for.
    pub range_from: Option<u64>,
}

/// What to do with a response, judged from its head.
#[derive(PartialEq, Eq, Structural, Clone, Copy, Debug)]
pub enum Verdict {
    /// The local copy is current: leave it as it is.
    Unchanged,
    /// Append the body to the local copy.
    Append,
    /// Unexpected status, media type or length: leave the local copy alone.
    Failed,
}

/// Builds the conditional headers from what lies on disk: the local blob's
/// length, if it exists, and the stored validator. The validator is sent only
/// along with an existing blob.
pub fn request_plan(local_len: Option<u64>, validator: Option<String>) -> (r: RequestPlan)
    ensures
        r.range_from == local_len,
        r.if_none_match == (if local_len.is_some() { validator } else { None::<String> }),
{
    match local_len {
        Some(n) => RequestPlan { if_none_match: validator, range_from: Some(n) },
        None => RequestPlan { if_none_match: None, range_from: None },
    }
}

pub open spec fn is_csv_type(t: Seq<char>) -> bool {
    t.len() >= 8 && t.subrange(0, 8) == "text/csv"@
}

/// The status a successful response has: partial content when resuming.
pub open spec fn expected_status(resuming: bool) -> u16 {
    if resuming { 206 } else { 200 }
}

pub open spec fn verdict_spec(
    status: u16,
    content_type: Option<Seq<char>>,
    content_length: Option<u64>,
    resuming: bool,
) -> Verdict {
    if status == NOT_MODIFIED || status == RANGE_NOT_SATISFIABLE {
        Verdict::Unchanged
    } else if status == expected_status(resuming) && content_length.is_some()
        && (content_type matches Some(t) && is_csv_type(t)) {
        Verdict::Append
    } else {
        Verdict::Failed
    }
}

fn csv_type(t: &String) -> (r: bool)
    ensures
        r == is_csv_type(t@),
{
    let s = t.as_str();
    if s.unicode_len() < 8 {
        return false;
    }
    let head = String::from_str(s.substring_char(0, 8));
    let want = String::from_str("text/csv");
    proof { reveal_strlit("text/csv"); }
    head == want
}

/// Judges a response from its status, content type and announced length.
pub fn judge_response(
    status: u16,
    content_type: Option<String>,
    content_length: Option<u64>,
    resuming: bool,
) -> (r: Verdict)
    ensures
        r == verdict_spec(
            status,
            match content_type { Some(t) => Some(t@), None => None },
            content_length,
            resuming,
        ),
{
    if status == NOT_MODIFIED || status == RANGE_NOT_SATISFIABLE {
        return Verdict::Unchanged;
    }
    let expect: u16 = if resuming { 206 } else { 200 };
    if status != expect || content_length.is_none() {
        return Verdict::Failed;
    }
    match content_type {
        Some(t) => if csv_type(&t) { Verdict::Append } else { Verdict::Failed },
        None => Verdict::Failed,
    }
}

/// What becomes of the validator sidecar once a body was stored in full.
pub enum SidecarUpdate {
    Write(String),
    Remove,
}

/// The server's new validator is stored; without one, the stale one goes.
pub fn sidecar_update(etag: Option<String>) -> (r: SidecarUpdate)
    ensures
        match etag {
            Some(e) => r == SidecarUpdate::Write(e),
            None => r == SidecarUpdate::Remove,
        },
{
    match etag {
        Some(e) => SidecarUpdate::Write(e),
        None => SidecarUpdate::Remove,
    }
}

} // verus!
