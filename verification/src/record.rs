//! Image records as fetched from the registry, and sums over their sizes.
//!
//! The service may omit an image's push time or byte size; a missing push
//! time counts as the epoch (the oldest possible instant) and a missing size
//! counts as zero bytes. That null-object convention is part of the data
//! model, not an error.

use vstd::prelude::*;

verus! {

/// One image of a repository: push time in seconds since the Unix epoch and
/// size in bytes, either of which the registry may omit.
#[derive(Clone, Copy, Debug)]
pub struct ImageRecord {
    pub pushed_at_secs: Option<i64>,
    pub size_bytes: Option<i64>,
}

/// The push time used by the filter and the ranking: a missing one counts as
/// the epoch.
pub open spec fn pushed_at_or_epoch(r: ImageRecord) -> int {
    match r.pushed_at_secs {
        Some(t) => t as int,
        None => 0,
    }
}

/// The size used by the sums: a missing one counts as zero bytes.
pub open spec fn size_or_zero(r: ImageRecord) -> int {
    match r.size_bytes {
        Some(s) => s as int,
        None => 0,
    }
}

/// All sizes of a collection are non-negative (a size models bytes on disk).
pub open spec fn sizes_nonneg(s: Seq<ImageRecord>) -> bool {
    forall|i: int| 0 <= i < s.len() ==> size_or_zero(#[trigger] s[i]) >= 0
}

/// The sum of the (missing-as-zero) sizes of a collection.
pub open spec fn sum_sizes(s: Seq<ImageRecord>) -> int
    decreases s.len(),
{
    if s.len() == 0 {
        0
    } else {
        sum_sizes(s.drop_last()) + size_or_zero(s.last())
    }
}

/// The push time of a record, with a missing one counting as the epoch.
pub fn pushed_at(r: &ImageRecord) -> (t: i64)
    ensures
        t as int == pushed_at_or_epoch(*r),
{
    match r.pushed_at_secs {
        Some(t) => t,
        None => 0,
    }
}

/// The size of a record, with a missing one counting as zero bytes.
pub fn size_or_default(r: &ImageRecord) -> (s: i64)
    ensures
        s as int == size_or_zero(*r),
{
    match r.size_bytes {
        Some(s) => s,
        None => 0,
    }
}

/// A sum of non-negative sizes is non-negative.
pub proof fn lemma_sum_sizes_nonneg(s: Seq<ImageRecord>)
    requires
        sizes_nonneg(s),
    ensures
        sum_sizes(s) >= 0,
    decreases s.len(),
{
    if s.len() > 0 {
        assert(sizes_nonneg(s.drop_last()));
        lemma_sum_sizes_nonneg(s.drop_last());
    }
}

/// Appending one record adds its size to the sum.
pub proof fn lemma_sum_sizes_push(s: Seq<ImageRecord>, x: ImageRecord)
    ensures
        sum_sizes(s.push(x)) == sum_sizes(s) + size_or_zero(x),
{
    assert(s.push(x).drop_last() =~= s);
}

/// Taking one more element adds its size to the sum of the prefix.
pub proof fn lemma_sum_sizes_take_succ(s: Seq<ImageRecord>, k: int)
    requires
        0 <= k < s.len(),
    ensures
        sum_sizes(s.take(k + 1)) == sum_sizes(s.take(k)) + size_or_zero(s[k]),
{
    assert(s.take(k + 1).drop_last() =~= s.take(k));
    assert(s.take(k + 1).last() == s[k]);
}

/// With non-negative sizes, a prefix never sums to more than the whole.
pub proof fn lemma_sum_sizes_take_le(s: Seq<ImageRecord>, k: int)
    requires
        sizes_nonneg(s),
        0 <= k <= s.len(),
    ensures
        sum_sizes(s.take(k)) <= sum_sizes(s),
    decreases s.len(),
{
    if k == s.len() {
        assert(s.take(k) =~= s);
    } else {
        assert(sizes_nonneg(s.drop_last()));
        lemma_sum_sizes_take_le(s.drop_last(), k);
        assert(s.drop_last().take(k) =~= s.take(k));
        assert(size_or_zero(s.last()) >= 0);
    }
}

} // verus!
