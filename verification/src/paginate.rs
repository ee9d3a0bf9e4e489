//! The pagination aggregator.
//!
//! A listing operation takes an optional continuation token and returns a
//! page of items together with an optional next token. Aggregation appends
//! every page in arrival order and keeps fetching exactly while a response
//! carries a next token, so the result is the concatenation of all pages:
//! it misses no item, and it does not depend on where the service drew the
//! page boundaries. A failed page request aborts the whole aggregation; no
//! partial result is kept.

use vstd::multiset::Multiset;
use vstd::prelude::*;

verus! {

/// The page size requested from the registry on every listing call.
pub const MAX_PAGE_RESULTS: i64 = 1000;

/// The aggregation of a run of pages: their concatenation in arrival order.
pub open spec fn concat_pages<T>(pages: Seq<Seq<T>>) -> Seq<T> {
    pages.flatten()
}

/// The sum of the page sizes of a run of pages.
pub open spec fn total_len<T>(pages: Seq<Seq<T>>) -> int
    decreases pages.len(),
{
    if pages.len() == 0 {
        0
    } else {
        pages.first().len() + total_len(pages.drop_first())
    }
}

/// Everything the pages hold, as a multiset (pages are unordered contents).
pub open spec fn pages_multiset<T>(pages: Seq<Seq<T>>) -> Multiset<T>
    decreases pages.len(),
{
    if pages.len() == 0 {
        Multiset::empty()
    } else {
        pages.first().to_multiset().add(pages_multiset(pages.drop_first()))
    }
}

/// The aggregator's law: the aggregated collection has exactly as many items
/// as the pages held together, and it holds exactly the pages' items.
pub proof fn lemma_pagination_aggregate<T>(pages: Seq<Seq<T>>)
    ensures
        concat_pages(pages).len() == total_len(pages),
        concat_pages(pages).to_multiset() == pages_multiset(pages),
    decreases pages.len(),
{
    if pages.len() == 0 {
        concat_pages(pages).to_multiset_ensures();
        assert(concat_pages(pages).to_multiset() =~= Multiset::<T>::empty());
    } else {
        lemma_pagination_aggregate(pages.drop_first());
        vstd::seq_lib::lemma_multiset_commutative(
            pages.first(),
            concat_pages(pages.drop_first()),
        );
        assert(concat_pages(pages) == pages.first() + concat_pages(pages.drop_first()));
    }
}

/// Re-chunking does not matter: two runs of pages with the same concatenation
/// hold the same items and the same number of them, however the page
/// boundaries were drawn.
pub proof fn lemma_rechunking_irrelevant<T>(p1: Seq<Seq<T>>, p2: Seq<Seq<T>>)
    requires
        concat_pages(p1) == concat_pages(p2),
    ensures
        total_len(p1) == total_len(p2),
        pages_multiset(p1) == pages_multiset(p2),
{
    lemma_pagination_aggregate(p1);
    lemma_pagination_aggregate(p2);
}

/// One step of the pagination loop: append the arrived page to what was
/// collected so far, and report whether another page must be fetched, which
/// is the case exactly when the response carried a continuation token.
pub fn paginate_step<T>(acc: &mut Vec<T>, page: Vec<T>, next_token: &Option<String>) -> (more:
    bool)
    ensures
        final(acc)@ == old(acc)@ + page@,
        more == (next_token is Some),
{
    let mut page = page;
    acc.append(&mut page);
    next_token.is_some()
}

/// Aggregates a completed run of pages into the full collection: exactly
/// their concatenation in arrival order.
pub fn aggregate_pages<T>(pages: Vec<Vec<T>>) -> (all: Vec<T>)
    ensures
        all@ == concat_pages(pages@.map_values(|p: Vec<T>| p@)),
{
    let ghost views = pages@.map_values(|p: Vec<T>| p@);
    let mut remaining = pages;
    let mut all: Vec<T> = Vec::new();
    while remaining.len() > 0
        invariant
            remaining@.len() <= views.len(),
            remaining@.map_values(|p: Vec<T>| p@) == views.skip(
                views.len() - remaining@.len(),
            ),
            all@ == views.take(views.len() - remaining@.len()).flatten(),
        decreases remaining.len(),
    {
        let ghost i = views.len() - remaining@.len();
        let ghost before = remaining@;
        let mut page = remaining.remove(0);
        proof {
            assert(page@ == before.map_values(|p: Vec<T>| p@)[0]);
            assert(views.skip(i)[0] == views[i]);
            assert(views.take(i + 1) =~= views.take(i).push(views[i]));
            views.take(i).lemma_flatten_push(views[i]);
            assert forall|k: int| 0 <= k < remaining@.len() implies remaining@.map_values(
                |p: Vec<T>| p@,
            )[k] == #[trigger] views.skip(i + 1)[k] by {
                assert(remaining@[k] == before[k + 1]);
                assert(before.map_values(|p: Vec<T>| p@)[k + 1] == views.skip(i)[k + 1]);
            }
            assert(remaining@.map_values(|p: Vec<T>| p@) =~= views.skip(i + 1));
        }
        all.append(&mut page);
    }
    proof {
        assert(views.take(views.len() as int) =~= views);
    }
    all
}

} // verus!
