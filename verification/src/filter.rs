//! The image filter and ranker.
//!
//! Given the full, unordered collection of image records of one repository
//! and a cutoff instant (the first instant of the current calendar month),
//! keep exactly the records pushed strictly before the cutoff and order them
//! by push time descending, most recent first. Records with equal push times
//! keep their input order (the ranking is stable). Missing push times count
//! as the epoch and therefore sort as the oldest.

use crate::record::{
    pushed_at, pushed_at_or_epoch, size_or_zero, sizes_nonneg, sum_sizes, ImageRecord,
};
use vstd::prelude::*;

verus! {

/// A record passes the filter when it was pushed strictly before the cutoff.
pub open spec fn before_cutoff(r: ImageRecord, cutoff: int) -> bool {
    pushed_at_or_epoch(r) < cutoff
}

/// The subsequence of records pushed strictly before the cutoff, in input
/// order.
pub open spec fn kept_records(s: Seq<ImageRecord>, cutoff: int) -> Seq<ImageRecord> {
    s.filter(|r: ImageRecord| before_cutoff(r, cutoff))
}

/// Stable insertion of a record into a sequence sorted by push time
/// descending: the record goes after every record pushed no earlier than it.
pub open spec fn insert_ranked_spec(s: Seq<ImageRecord>, x: ImageRecord) -> Seq<ImageRecord>
    decreases s.len(),
{
    if s.len() == 0 {
        seq![x]
    } else if pushed_at_or_epoch(s.last()) >= pushed_at_or_epoch(x) {
        s.push(x)
    } else {
        insert_ranked_spec(s.drop_last(), x).push(s.last())
    }
}

/// Stable sort by push time descending: records are inserted in input order.
pub open spec fn rank_spec(s: Seq<ImageRecord>) -> Seq<ImageRecord>
    decreases s.len(),
{
    if s.len() == 0 {
        Seq::empty()
    } else {
        insert_ranked_spec(rank_spec(s.drop_last()), s.last())
    }
}

/// What the filter-and-rank stage returns: the kept records, most recent
/// first.
pub open spec fn ranked_records(s: Seq<ImageRecord>, cutoff: int) -> Seq<ImageRecord> {
    rank_spec(kept_records(s, cutoff))
}

/// Sorted by push time descending.
pub open spec fn sorted_desc(s: Seq<ImageRecord>) -> bool {
    forall|i: int, j: int|
        0 <= i <= j < s.len() ==> pushed_at_or_epoch(s[i]) >= pushed_at_or_epoch(s[j])
}

/// Filtering after appending one record keeps the filtered prefix and appends
/// the record exactly when it passes.
pub proof fn lemma_kept_push(s: Seq<ImageRecord>, x: ImageRecord, cutoff: int)
    ensures
        kept_records(s.push(x), cutoff) == if before_cutoff(x, cutoff) {
            kept_records(s, cutoff).push(x)
        } else {
            kept_records(s, cutoff)
        },
{
    lemma_filter_push(s, x, |r: ImageRecord| before_cutoff(r, cutoff));
}

/// Filtering after appending one element keeps the filtered prefix and
/// appends the element exactly when it passes.
pub proof fn lemma_filter_push<A>(s: Seq<A>, x: A, pred: spec_fn(A) -> bool)
    ensures
        s.push(x).filter(pred) == if pred(x) {
            s.filter(pred).push(x)
        } else {
            s.filter(pred)
        },
{
    reveal(Seq::filter);
    assert(s.push(x).drop_last() =~= s);
    assert(s.push(x).last() == x);
}

/// Filtering keeps sizes non-negative and never increases their sum.
pub proof fn lemma_kept_records_sizes(s: Seq<ImageRecord>, cutoff: int)
    requires
        sizes_nonneg(s),
    ensures
        sizes_nonneg(kept_records(s, cutoff)),
        0 <= sum_sizes(kept_records(s, cutoff)) <= sum_sizes(s),
    decreases s.len(),
{
    reveal(Seq::filter);
    if s.len() == 0 {
    } else {
        let dl = s.drop_last();
        assert(sizes_nonneg(dl));
        lemma_kept_records_sizes(dl, cutoff);
        assert(size_or_zero(s.last()) >= 0);
        if before_cutoff(s.last(), cutoff) {
            assert(kept_records(s, cutoff) == kept_records(dl, cutoff).push(s.last()));
            crate::record::lemma_sum_sizes_push(kept_records(dl, cutoff), s.last());
        }
    }
}

/// Inserting a record into a descending-sorted sequence keeps it sorted, adds
/// the record to the contents, and introduces no other record.
pub proof fn lemma_insert_ranked_spec(s: Seq<ImageRecord>, x: ImageRecord)
    requires
        sorted_desc(s),
    ensures
        sorted_desc(insert_ranked_spec(s, x)),
        insert_ranked_spec(s, x).len() == s.len() + 1,
        insert_ranked_spec(s, x).to_multiset() == s.to_multiset().insert(x),
        sum_sizes(insert_ranked_spec(s, x)) == sum_sizes(s) + size_or_zero(x),
        forall|k: int|
            0 <= k < insert_ranked_spec(s, x).len() ==> (#[trigger] insert_ranked_spec(s, x)[k]
                == x || exists|i: int| 0 <= i < s.len() && insert_ranked_spec(s, x)[k] == s[i]),
    decreases s.len(),
{
    broadcast use vstd::seq_lib::group_seq_properties;

    let out = insert_ranked_spec(s, x);
    if s.len() == 0 {
        assert(out =~= seq![x]);
        assert(out.drop_last() =~= Seq::<ImageRecord>::empty());
        assert(out.to_multiset() =~= s.to_multiset().insert(x));
    } else if pushed_at_or_epoch(s.last()) >= pushed_at_or_epoch(x) {
        assert(out == s.push(x));
        assert(forall|i: int|
            0 <= i < s.len() ==> pushed_at_or_epoch(s[i]) >= pushed_at_or_epoch(s.last()));
        assert(sorted_desc(out));
        assert(out.to_multiset() =~= s.to_multiset().insert(x));
        assert(out.drop_last() =~= s);
    } else {
        let dl = s.drop_last();
        let last = s.last();
        assert(sorted_desc(dl));
        lemma_insert_ranked_spec(dl, x);
        let t = insert_ranked_spec(dl, x);
        assert(out == t.push(last));
        // every element of t is x or an element of dl, and both were pushed
        // strictly later than `last`, so appending `last` keeps the order
        assert(forall|i: int|
            0 <= i < dl.len() ==> pushed_at_or_epoch(#[trigger] dl[i]) >= pushed_at_or_epoch(
                last,
            ));
        assert forall|k: int| 0 <= k < t.len() implies pushed_at_or_epoch(t[k])
            >= pushed_at_or_epoch(last) by {
            if t[k] != x {
                let i = choose|i: int| 0 <= i < dl.len() && t[k] == dl[i];
            }
        }
        assert(sorted_desc(out));
        // contents: s == dl.push(last), and multiset inserts commute
        assert(s =~= dl.push(last));
        assert(out.to_multiset() =~= t.to_multiset().insert(last));
        assert(s.to_multiset() =~= dl.to_multiset().insert(last));
        assert(dl.to_multiset().insert(x).insert(last) =~= dl.to_multiset().insert(last).insert(
            x,
        ));
        // sums
        crate::record::lemma_sum_sizes_push(t, last);
        assert(sum_sizes(s) == sum_sizes(dl) + size_or_zero(last));
        // membership
        assert forall|k: int| 0 <= k < out.len() implies (#[trigger] out[k] == x || exists|i: int|
            0 <= i < s.len() && out[k] == s[i]) by {
            if k < t.len() {
                if t[k] != x {
                    let i = choose|i: int| 0 <= i < dl.len() && t[k] == dl[i];
                    assert(out[k] == s[i]);
                }
            } else {
                assert(out[k] == s[s.len() - 1]);
            }
        }
    }
}

/// The ranking is a permutation of its input, sorted by push time descending,
/// with the same length and the same size sum; every record of the output is
/// a record of the input.
pub proof fn lemma_rank_spec(s: Seq<ImageRecord>)
    ensures
        sorted_desc(rank_spec(s)),
        rank_spec(s).len() == s.len(),
        rank_spec(s).to_multiset() == s.to_multiset(),
        sum_sizes(rank_spec(s)) == sum_sizes(s),
        forall|k: int|
            0 <= k < rank_spec(s).len() ==> exists|i: int|
                0 <= i < s.len() && #[trigger] rank_spec(s)[k] == s[i],
    decreases s.len(),
{
    broadcast use vstd::seq_lib::group_seq_properties;

    if s.len() > 0 {
        let dl = s.drop_last();
        let last = s.last();
        lemma_rank_spec(dl);
        let t = rank_spec(dl);
        lemma_insert_ranked_spec(t, last);
        let out = rank_spec(s);
        assert(out == insert_ranked_spec(t, last));
        assert(s =~= dl.push(last));
        assert(s.to_multiset() =~= dl.to_multiset().insert(last));
        crate::record::lemma_sum_sizes_push(dl, last);
        assert forall|k: int| 0 <= k < out.len() implies exists|i: int|
            0 <= i < s.len() && #[trigger] out[k] == s[i] by {
            if out[k] == last {
                assert(out[k] == s[s.len() - 1]);
            } else {
                let j = choose|j: int| 0 <= j < t.len() && out[k] == t[j];
                let i = choose|i: int| 0 <= i < dl.len() && t[j] == dl[i];
                assert(out[k] == s[i]);
            }
        }
    }
}

/// Inserting a record moves it past exactly the records pushed strictly
/// later, so among records with any one push time the input order is kept.
proof fn lemma_insert_ranked_stable(s: Seq<ImageRecord>, x: ImageRecord, t: int)
    ensures
        insert_ranked_spec(s, x).filter(|r: ImageRecord| pushed_at_or_epoch(r) == t)
            == if pushed_at_or_epoch(x) == t {
            s.filter(|r: ImageRecord| pushed_at_or_epoch(r) == t).push(x)
        } else {
            s.filter(|r: ImageRecord| pushed_at_or_epoch(r) == t)
        },
    decreases s.len(),
{
    let pred = |r: ImageRecord| pushed_at_or_epoch(r) == t;
    reveal(Seq::filter);
    if s.len() == 0 {
        assert(insert_ranked_spec(s, x) =~= Seq::empty().push(x));
        lemma_filter_push(Seq::empty(), x, pred);
        assert(Seq::<ImageRecord>::empty().filter(pred) =~= s.filter(pred));
        assert(s.filter(pred) =~= Seq::empty());
    } else if pushed_at_or_epoch(s.last()) >= pushed_at_or_epoch(x) {
        lemma_filter_push(s, x, pred);
    } else {
        let dl = s.drop_last();
        let last = s.last();
        lemma_insert_ranked_stable(dl, x, t);
        // in this branch the incoming record was pushed strictly later than
        // the last one, so at most one of the two has push time `t`
        lemma_filter_push(insert_ranked_spec(dl, x), last, pred);
        assert(s =~= dl.push(last));
        lemma_filter_push(dl, last, pred);
    }
}

/// The ranking is stable: for any one push time, the records with exactly
/// that push time appear in the ranking in their input order.
pub proof fn lemma_rank_spec_stable(s: Seq<ImageRecord>, t: int)
    ensures
        rank_spec(s).filter(|r: ImageRecord| pushed_at_or_epoch(r) == t) == s.filter(
            |r: ImageRecord| pushed_at_or_epoch(r) == t,
        ),
    decreases s.len(),
{
    let pred = |r: ImageRecord| pushed_at_or_epoch(r) == t;
    if s.len() == 0 {
    } else {
        let dl = s.drop_last();
        let last = s.last();
        lemma_rank_spec_stable(dl, t);
        lemma_insert_ranked_stable(rank_spec(dl), last, t);
        assert(s =~= dl.push(last));
        lemma_filter_push(dl, last, pred);
    }
}

/// The law of the filter and ranker: the result holds only records pushed
/// strictly before the cutoff, is sorted by push time descending, and holds
/// exactly the records of the input that pass the filter.
pub proof fn lemma_filter_rank_properties(s: Seq<ImageRecord>, cutoff: int)
    ensures
        forall|i: int|
            0 <= i < ranked_records(s, cutoff).len() ==> pushed_at_or_epoch(
                #[trigger] ranked_records(s, cutoff)[i],
            ) < cutoff,
        sorted_desc(ranked_records(s, cutoff)),
        ranked_records(s, cutoff).to_multiset() == kept_records(s, cutoff).to_multiset(),
{
    let kept = kept_records(s, cutoff);
    let pred = |r: ImageRecord| before_cutoff(r, cutoff);
    lemma_rank_spec(kept);
    assert forall|i: int| 0 <= i < ranked_records(s, cutoff).len() implies pushed_at_or_epoch(
        #[trigger] ranked_records(s, cutoff)[i],
    ) < cutoff by {
        let j = choose|j: int| 0 <= j < kept.len() && ranked_records(s, cutoff)[i] == kept[j];
        s.lemma_filter_pred(pred, j);
    }
}

/// Inserts a record into a vector sorted by push time descending, after every
/// record pushed no earlier than it.
fn insert_ranked(v: &mut Vec<ImageRecord>, x: ImageRecord)
    ensures
        final(v)@ == insert_ranked_spec(old(v)@, x),
    decreases old(v)@.len(),
{
    let n = v.len();
    if n == 0 {
        v.push(x);
        proof {
            assert(v@ =~= seq![x]);
        }
    } else {
        let last = v[n - 1];
        if pushed_at(&last) >= pushed_at(&x) {
            v.push(x);
        } else {
            v.truncate(n - 1);
            proof {
                assert(v@ =~= old(v)@.drop_last());
            }
            insert_ranked(v, x);
            v.push(last);
        }
    }
}

/// The filter-and-rank stage: the records of `images` pushed strictly before
/// `cutoff_secs`, ordered by push time descending, most recent first, records
/// with equal push times keeping their input order.
pub fn filter_and_rank(images: Vec<ImageRecord>, cutoff_secs: i64) -> (ranked: Vec<ImageRecord>)
    ensures
        ranked@ == ranked_records(images@, cutoff_secs as int),
{
    let ghost cutoff = cutoff_secs as int;
    let mut kept: Vec<ImageRecord> = Vec::new();
    let mut i: usize = 0;
    while i < images.len()
        invariant
            i <= images.len(),
            cutoff == cutoff_secs as int,
            kept@ == kept_records(images@.take(i as int), cutoff),
        decreases images.len() - i,
    {
        let r = images[i];
        proof {
            assert(images@.take(i + 1 as int) =~= images@.take(i as int).push(images@[i as int]));
            lemma_kept_push(images@.take(i as int), images@[i as int], cutoff);
        }
        if pushed_at(&r) < cutoff_secs {
            kept.push(r);
        }
        i += 1;
    }
    proof {
        assert(images@.take(images@.len() as int) =~= images@);
    }
    let mut ranked: Vec<ImageRecord> = Vec::new();
    let mut j: usize = 0;
    while j < kept.len()
        invariant
            j <= kept.len(),
            ranked@ == rank_spec(kept@.take(j as int)),
        decreases kept.len() - j,
    {
        insert_ranked(&mut ranked, kept[j]);
        proof {
            assert(kept@.take(j + 1 as int) =~= kept@.take(j as int).push(kept@[j as int]));
            assert(kept@.take(j + 1 as int).drop_last() =~= kept@.take(j as int));
        }
        j += 1;
    }
    proof {
        assert(kept@.take(kept@.len() as int) =~= kept@);
    }
    ranked
}

} // verus!
