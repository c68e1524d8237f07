use vstd::prelude::*;
use vstd::string::*;

verus! {

/// Bytes re-read before the committed offset when a sync resumes.
pub const REWIND_MARGIN: u64 = 10000;

/// Where a sync cycle starts, decided from the blob's length and the checkpoint.
pub enum Resume {
    /// The blob has the committed length: nothing to do.
    UpToDate,
    /// The checkpoint lies beyond the end of the blob.
    CheckpointAhead,
    /// Read the blob from this byte offset on.
    From(u64),
}

pub open spec fn resume_spec(blob_len: u64, checkpoint: Option<u64>) -> Resume {
    match checkpoint {
        None => Resume::From(0),
        Some(c) => if c == blob_len {
            Resume::UpToDate
        } else if c > blob_len {
            Resume::CheckpointAhead
        } else if c >= REWIND_MARGIN {
            Resume::From((c - REWIND_MARGIN) as u64)
        } else {
            Resume::From(0)
        },
    }
}

pub fn resume_point(blob_len: u64, checkpoint: Option<u64>) -> (r: Resume)
    ensures
        r == resume_spec(blob_len, checkpoint),
{
    match checkpoint {
        None => Resume::From(0),
        Some(c) => if c == blob_len {
            Resume::UpToDate
        } else if c > blob_len {
            Resume::CheckpointAhead
        } else if c >= REWIND_MARGIN {
            Resume::From(c - REWIND_MARGIN)
        } else {
            Resume::From(0)
        },
    }
}

pub open spec fn is_digit(c: char) -> bool {
    '0' <= c <= '9'
}

pub open spec fn all_digits(s: Seq<char>) -> bool {
    forall|i: int| 0 <= i < s.len() ==> is_digit(#[trigger] s[i])
}

/// The number that a string of decimal digits writes.
pub open spec fn digits_value(s: Seq<char>) -> nat
    decreases s.len(),
{
    if s.len() == 0 {
        0
    } else {
        digits_value(s.drop_last()) * 10 + ((s.last() as nat) - ('0' as nat)) as nat
    }
}

/// The committed offset that the text of an offset sidecar records, if it is one.
pub open spec fn offset_of(s: Seq<char>) -> Option<u64> {
    if s.len() > 0 && all_digits(s) && digits_value(s) <= u64::MAX {
        Some(digits_value(s) as u64)
    } else {
        None
    }
}

proof fn lemma_digits_grow(s: Seq<char>, k: int)
    requires
        0 <= k <= s.len(),
        all_digits(s),
    ensures
        digits_value(s.subrange(0, k)) <= digits_value(s),
    decreases s.len() - k,
{
    if k < s.len() {
        let t = s.subrange(0, k + 1);
        assert(t.drop_last() =~= s.subrange(0, k));
        assert(is_digit(s[k]));
        lemma_digits_grow(s, k + 1);
    } else {
        assert(s.subrange(0, k) =~= s);
    }
}

/// Reads the text of an offset sidecar: decimal digits only.
pub fn parse_offset(text: &String) -> (r: Option<u64>)
    ensures
        r == offset_of(text@),
{
    let s = text.as_str();
    let n = s.unicode_len();
    if n == 0 {
        return None;
    }
    let mut v: u64 = 0;
    let mut i: usize = 0;
    while i < n
        invariant
            n == text@.len(),
            s@ == text@,
            i <= n,
            all_digits(text@.subrange(0, i as int)),
            v as nat == digits_value(text@.subrange(0, i as int)),
        decreases n - i,
    {
        let c = s.get_char(i);
        if c < '0' || c > '9' {
            assert(!all_digits(text@));
            return None;
        }
        let d: u64 = (c as u32 - '0' as u32) as u64;
        assert(text@.subrange(0, i + 1).drop_last() =~= text@.subrange(0, i as int));
        if v > (u64::MAX - d) / 10 {
            proof {
                if all_digits(text@) {
                    lemma_digits_grow(text@, i + 1);
                }
            }
            return None;
        }
        v = v * 10 + d;
        i += 1;
    }
    assert(text@.subrange(0, n as int) =~= text@);
    Some(v)
}

} // verus!
