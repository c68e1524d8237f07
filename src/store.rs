use vstd::prelude::*;
use crate::segment::Segment;

verus! {

/// The store after upserting `rs`, in order, into `m`; keys are segment ids.
pub open spec fn upsert_all(m: Map<Seq<char>, Segment>, rs: Seq<Segment>) -> Map<Seq<char>, Segment>
    decreases rs.len(),
{
    if rs.len() == 0 {
        m
    } else {
        upsert_all(m, rs.drop_last()).insert(rs.last().id@, rs.last())
    }
}

/// The last record of `rs` whose id is `k`.
pub open spec fn last_for(rs: Seq<Segment>, k: Seq<char>) -> Option<Segment>
    decreases rs.len(),
{
    if rs.len() == 0 {
        None
    } else if rs.last().id@ == k {
        Some(rs.last())
    } else {
        last_for(rs.drop_last(), k)
    }
}

proof fn lemma_upsert_at(m: Map<Seq<char>, Segment>, rs: Seq<Segment>, k: Seq<char>)
    ensures
        upsert_all(m, rs).contains_key(k) == (m.contains_key(k) || last_for(rs, k).is_some()),
        last_for(rs, k).is_some() ==> upsert_all(m, rs)[k] == last_for(rs, k).unwrap(),
        last_for(rs, k).is_none() ==> upsert_all(m, rs)[k] == m[k],
    decreases rs.len(),
{
    if rs.len() > 0 {
        lemma_upsert_at(m, rs.drop_last(), k);
    }
}

proof fn lemma_last_for_split(a: Seq<Segment>, b: Seq<Segment>, k: Seq<char>)
    ensures
        last_for(a + b, k) == (if last_for(b, k).is_some() { last_for(b, k) } else { last_for(a, k) }),
    decreases b.len(),
{
    if b.len() == 0 {
        assert(a + b =~= a);
    } else {
        assert((a + b).drop_last() =~= a + b.drop_last());
        lemma_last_for_split(a, b.drop_last(), k);
    }
}

/// Re-reading a tail of records that were already applied leaves the store as
/// one pass over all of them would: applying `rs[..n]`, then again from any
/// earlier record `j` to the end, equals applying `rs` once.
pub proof fn lemma_rewind_equivalence(m: Map<Seq<char>, Segment>, rs: Seq<Segment>, j: int, n: int)
    requires
        0 <= j <= n <= rs.len(),
    ensures
        upsert_all(upsert_all(m, rs.subrange(0, n)), rs.subrange(j, rs.len() as int)) == upsert_all(m, rs),
{
    let head = rs.subrange(0, j);
    let mid = rs.subrange(j, n);
    let tail = rs.subrange(n, rs.len() as int);
    let a = rs.subrange(0, n);
    let b = rs.subrange(j, rs.len() as int);
    assert(a =~= head + mid);
    assert(b =~= mid + tail);
    assert(rs =~= head + b);
    let first = upsert_all(m, a);
    let lhs = upsert_all(first, b);
    let rhs = upsert_all(m, rs);
    assert forall|k: Seq<char>| #[trigger] lhs.contains_key(k) == rhs.contains_key(k)
        && (lhs.contains_key(k) ==> lhs[k] == rhs[k]) by {
        lemma_upsert_at(first, b, k);
        lemma_upsert_at(m, a, k);
        lemma_upsert_at(m, rs, k);
        lemma_last_for_split(head, mid, k);
        lemma_last_for_split(mid, tail, k);
        lemma_last_for_split(head, b, k);
    }
    assert(lhs =~= rhs);
}

/// Applying the same records twice changes nothing after the first time.
pub proof fn lemma_upsert_idempotent(m: Map<Seq<char>, Segment>, rs: Seq<Segment>)
    ensures
        upsert_all(upsert_all(m, rs), rs) == upsert_all(m, rs),
{
    lemma_rewind_equivalence(m, rs, 0, rs.len() as int);
    assert(rs.subrange(0, rs.len() as int) =~= rs);
}

} // verus!
