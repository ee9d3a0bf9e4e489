//! Per-repository summaries: one `RepoSummary` per repository, derived from
//! its image records, the cutoff instant and the capped-window size.

use crate::cost::{cents_for_bytes, cost_cents, lemma_cost_cents_monotone, lemma_cost_cents_zero};
use crate::filter::{filter_and_rank, kept_records, ranked_records};
use crate::record::{
    lemma_sum_sizes_nonneg, lemma_sum_sizes_take_le, lemma_sum_sizes_take_succ, pushed_at,
    pushed_at_or_epoch, size_or_default, size_or_zero, sizes_nonneg, sum_sizes, ImageRecord,
};
use crate::timestamp::{timestamp_display, ts_display_of};
use vstd::prelude::*;

verus! {

/// The derived summary of one repository: its name, the display text of the
/// most recent push (absent when no image passed the filter), the size of the
/// most recent image, the sum of sizes over all images that passed the
/// filter, the sum over the capped window of most recent images, and the
/// count of images that passed the filter.
#[derive(Debug)]
pub struct RepoSummary {
    pub name: String,
    pub last_pushed_at: Option<String>,
    pub latest_image_size: i64,
    pub aggregate_image_size: i64,
    pub recent_image_size: i64,
    pub hosted_images: usize,
}

impl RepoSummary {
    /// The size fields are never negative and the capped window never sums to
    /// more than the whole.
    pub open spec fn wf(self) -> bool {
        &&& 0 <= self.recent_image_size <= self.aggregate_image_size
        &&& self.latest_image_size >= 0
    }

    /// The monthly cost of the aggregate size, rounded to whole cents.
    pub fn monthly_cost_cents(&self) -> (c: u128)
        requires
            self.wf(),
        ensures
            c as int == cost_cents(self.aggregate_image_size as int),
    {
        cents_for_bytes(self.aggregate_image_size as u128)
    }

    /// The forward-looking monthly cost of the capped window, rounded to
    /// whole cents.
    pub fn monthly_capped_cost_cents(&self) -> (c: u128)
        requires
            self.wf(),
        ensures
            c as int == cost_cents(self.recent_image_size as int),
    {
        cents_for_bytes(self.recent_image_size as u128)
    }
}

/// The capped window of a ranking: its `cap` most recent records, or all of
/// them when fewer passed the filter.
pub open spec fn capped_window(ranked: Seq<ImageRecord>, cap: int) -> Seq<ImageRecord> {
    ranked.take(if cap < ranked.len() {
        cap
    } else {
        ranked.len() as int
    })
}

/// Summarizes one repository: filters and ranks its images against the
/// cutoff, then takes the most recent image's size and push text, the sum of
/// all kept sizes, the sum over the capped window, and the kept count.
pub fn summarize_repository(
    name: String,
    images: Vec<ImageRecord>,
    cutoff_secs: i64,
    cap: usize,
) -> (s: RepoSummary)
    requires
        sizes_nonneg(images@),
        sum_sizes(images@) <= i64::MAX,
    ensures
        s.wf(),
        s.name == name,
        ({
            let ranked = ranked_records(images@, cutoff_secs as int);
            &&& s.hosted_images == ranked.len()
            &&& s.aggregate_image_size == sum_sizes(ranked)
            &&& s.recent_image_size == sum_sizes(capped_window(ranked, cap as int))
            &&& s.latest_image_size == if ranked.len() > 0 {
                size_or_zero(ranked[0])
            } else {
                0int
            }
            &&& ranked.len() == 0 ==> s.last_pushed_at is None
            &&& ranked.len() > 0 ==> (s.last_pushed_at matches Some(d) && d@ == ts_display_of(
                pushed_at_or_epoch(ranked[0]),
            ))
            &&& s.hosted_images == 0 ==> s.aggregate_image_size == 0 && s.recent_image_size == 0
                && s.latest_image_size == 0
        }),
{
    let ghost cutoff = cutoff_secs as int;
    let ghost kept = kept_records(images@, cutoff);
    let ranked = filter_and_rank(images, cutoff_secs);
    let ghost rseq = ranked@;
    proof {
        crate::filter::lemma_kept_records_sizes(images@, cutoff);
        crate::filter::lemma_rank_spec(kept);
        assert forall|k: int| 0 <= k < rseq.len() implies size_or_zero(#[trigger] rseq[k])
            >= 0 by {
            let i = choose|i: int| 0 <= i < kept.len() && rseq[k] == kept[i];
        }
        assert(sizes_nonneg(rseq));
        assert(sum_sizes(rseq) <= i64::MAX);
    }
    let mut aggregate: i64 = 0;
    let mut i: usize = 0;
    while i < ranked.len()
        invariant
            i <= ranked.len(),
            rseq == ranked@,
            sizes_nonneg(rseq),
            0 <= sum_sizes(rseq) <= i64::MAX,
            aggregate == sum_sizes(rseq.take(i as int)),
        decreases ranked.len() - i,
    {
        proof {
            lemma_sum_sizes_take_succ(rseq, i as int);
            lemma_sum_sizes_take_le(rseq, i + 1 as int);
            assert(sizes_nonneg(rseq.take(i as int)));
            lemma_sum_sizes_nonneg(rseq.take(i as int));
        }
        aggregate = aggregate + size_or_default(&ranked[i]);
        i += 1;
    }
    proof {
        assert(rseq.take(rseq.len() as int) =~= rseq);
    }
    let window: usize = if cap < ranked.len() {
        cap
    } else {
        ranked.len()
    };
    let mut recent: i64 = 0;
    let mut j: usize = 0;
    while j < window
        invariant
            j <= window <= ranked.len(),
            rseq == ranked@,
            sizes_nonneg(rseq),
            0 <= sum_sizes(rseq) <= i64::MAX,
            recent == sum_sizes(rseq.take(j as int)),
        decreases window - j,
    {
        proof {
            lemma_sum_sizes_take_succ(rseq, j as int);
            lemma_sum_sizes_take_le(rseq, j + 1 as int);
            assert(sizes_nonneg(rseq.take(j as int)));
            lemma_sum_sizes_nonneg(rseq.take(j as int));
        }
        recent = recent + size_or_default(&ranked[j]);
        j += 1;
    }
    proof {
        lemma_sum_sizes_take_le(rseq, window as int);
        assert(sizes_nonneg(rseq.take(window as int)));
        lemma_sum_sizes_nonneg(rseq.take(window as int));
        if rseq.len() > 0 {
            assert(size_or_zero(rseq[0]) >= 0);
        }
    }
    let hosted = ranked.len();
    if hosted > 0 {
        let first = ranked[0];
        let latest = size_or_default(&first);
        let display = timestamp_display(pushed_at(&first));
        RepoSummary {
            name,
            last_pushed_at: Some(display),
            latest_image_size: latest,
            aggregate_image_size: aggregate,
            recent_image_size: recent,
            hosted_images: hosted,
        }
    } else {
        RepoSummary {
            name,
            last_pushed_at: None,
            latest_image_size: 0,
            aggregate_image_size: aggregate,
            recent_image_size: recent,
            hosted_images: hosted,
        }
    }
}

/// The cost model over a well-formed summary: the capped cost never exceeds
/// the full cost, and a summary with nothing aggregated costs zero cents,
/// capped or not.
pub proof fn lemma_summary_cost_bounds(s: RepoSummary)
    requires
        s.wf(),
    ensures
        cost_cents(s.recent_image_size as int) <= cost_cents(s.aggregate_image_size as int),
        s.aggregate_image_size == 0 ==> cost_cents(s.aggregate_image_size as int) == 0
            && cost_cents(s.recent_image_size as int) == 0,
{
    lemma_cost_cents_monotone(s.recent_image_size as int, s.aggregate_image_size as int);
    lemma_cost_cents_zero();
}

} // verus!
