//! The report builder.
//!
//! Given all repository summaries, the report holds one row per repository,
//! sorted by the latest image's size descending (rows with equal sizes keep
//! their input order), followed in tab-separated mode by one total row whose
//! costs come from the grand sums of the aggregate and capped sizes. In
//! comma-separated mode the rows are emitted without a total row, and an
//! unrecognized format emits nothing at all.

use crate::cost::{cost_cents, cost_numer};
use crate::decimal::{dec_chars, decimal_string, dollar_chars, dollars_string};
use crate::summary::RepoSummary;
use vstd::prelude::*;
use vstd::string::StringExecFns;

verus! {

/// The output format of the report. An unrecognized format name produces no
/// output at all: silently printing nothing is deliberate, if debatable,
/// behavior of this tool.
#[derive(Clone, Copy, PartialEq, Eq, Structural, Debug)]
pub enum OutputFormat {
    Tsv,
    Csv,
    Unrecognized,
}

/// Stable insertion of a row into a sequence sorted by latest image size
/// descending: the row goes after every row with a size no smaller than its
/// own.
pub open spec fn insert_row_spec(s: Seq<RepoSummary>, x: RepoSummary) -> Seq<RepoSummary>
    decreases s.len(),
{
    if s.len() == 0 {
        seq![x]
    } else if s.last().latest_image_size >= x.latest_image_size {
        s.push(x)
    } else {
        insert_row_spec(s.drop_last(), x).push(s.last())
    }
}

/// Stable sort of the rows by latest image size descending: rows are inserted
/// in input order, so rows with equal sizes keep it.
pub open spec fn sort_rows_spec(s: Seq<RepoSummary>) -> Seq<RepoSummary>
    decreases s.len(),
{
    if s.len() == 0 {
        Seq::empty()
    } else {
        insert_row_spec(sort_rows_spec(s.drop_last()), s.last())
    }
}

/// Sorted by latest image size descending.
pub open spec fn rows_sorted_desc(s: Seq<RepoSummary>) -> bool {
    forall|i: int, j: int|
        0 <= i <= j < s.len() ==> s[i].latest_image_size >= s[j].latest_image_size
}

/// The grand sum of the rows' aggregate sizes, in bytes.
pub open spec fn total_aggregate(s: Seq<RepoSummary>) -> int
    decreases s.len(),
{
    if s.len() == 0 {
        0
    } else {
        total_aggregate(s.drop_last()) + s.last().aggregate_image_size
    }
}

/// The grand sum of the rows' capped-window sizes, in bytes.
pub open spec fn total_recent(s: Seq<RepoSummary>) -> int
    decreases s.len(),
{
    if s.len() == 0 {
        0
    } else {
        total_recent(s.drop_last()) + s.last().recent_image_size
    }
}

/// The sum of the rows' exact monthly costs, in units of 1 / 2^31 cents.
pub open spec fn total_cost_numer(s: Seq<RepoSummary>) -> int
    decreases s.len(),
{
    if s.len() == 0 {
        0
    } else {
        total_cost_numer(s.drop_last()) + cost_numer(s.last().aggregate_image_size as int)
    }
}

/// The sum of the rows' exact capped monthly costs, in units of 1 / 2^31
/// cents.
pub open spec fn total_capped_cost_numer(s: Seq<RepoSummary>) -> int
    decreases s.len(),
{
    if s.len() == 0 {
        0
    } else {
        total_capped_cost_numer(s.drop_last()) + cost_numer(s.last().recent_image_size as int)
    }
}

/// The totals are exact: the cost of the grand byte sums equals the sum of
/// the per-row exact costs, with no rounding in between.
pub proof fn lemma_report_totals_exact(s: Seq<RepoSummary>)
    ensures
        cost_numer(total_aggregate(s)) == total_cost_numer(s),
        cost_numer(total_recent(s)) == total_capped_cost_numer(s),
    decreases s.len(),
{
    if s.len() > 0 {
        lemma_report_totals_exact(s.drop_last());
    }
}

/// Inserting a row into a descending-sorted sequence keeps it sorted, adds
/// the row to the contents, and introduces no other row.
pub proof fn lemma_insert_row_spec(s: Seq<RepoSummary>, x: RepoSummary)
    requires
        rows_sorted_desc(s),
    ensures
        rows_sorted_desc(insert_row_spec(s, x)),
        insert_row_spec(s, x).len() == s.len() + 1,
        insert_row_spec(s, x).to_multiset() == s.to_multiset().insert(x),
        forall|k: int|
            0 <= k < insert_row_spec(s, x).len() ==> (#[trigger] insert_row_spec(s, x)[k] == x
                || exists|i: int| 0 <= i < s.len() && insert_row_spec(s, x)[k] == s[i]),
    decreases s.len(),
{
    broadcast use vstd::seq_lib::group_seq_properties;

    let out = insert_row_spec(s, x);
    if s.len() == 0 {
        assert(out =~= seq![x]);
        assert(out.to_multiset() =~= s.to_multiset().insert(x));
    } else if s.last().latest_image_size >= x.latest_image_size {
        assert(out == s.push(x));
        assert(forall|i: int|
            0 <= i < s.len() ==> s[i].latest_image_size >= s.last().latest_image_size);
        assert(rows_sorted_desc(out));
        assert(out.to_multiset() =~= s.to_multiset().insert(x));
    } else {
        let dl = s.drop_last();
        let last = s.last();
        assert(rows_sorted_desc(dl));
        lemma_insert_row_spec(dl, x);
        let t = insert_row_spec(dl, x);
        assert(out == t.push(last));
        assert(forall|i: int|
            0 <= i < dl.len() ==> (#[trigger] dl[i]).latest_image_size
                >= last.latest_image_size);
        assert forall|k: int| 0 <= k < t.len() implies t[k].latest_image_size
            >= last.latest_image_size by {
            if t[k] != x {
                let i = choose|i: int| 0 <= i < dl.len() && t[k] == dl[i];
            }
        }
        assert(rows_sorted_desc(out));
        assert(s =~= dl.push(last));
        assert(out.to_multiset() =~= t.to_multiset().insert(last));
        assert(s.to_multiset() =~= dl.to_multiset().insert(last));
        assert(dl.to_multiset().insert(x).insert(last) =~= dl.to_multiset().insert(last).insert(
            x,
        ));
        assert forall|k: int| 0 <= k < out.len() implies (#[trigger] out[k] == x || exists|i: int|
            0 <= i < s.len() && out[k] == s[i]) by {
            if k < t.len() {
                if t[k] != x {
                    let i = choose|i: int| 0 <= i < dl.len() && t[k] == dl[i];
                    assert(out[k] == s[i]);
                }
            } else {
                assert(out[k] == s[s.len() - 1]);
            }
        }
    }
}

/// The sorted rows are a permutation of the input rows, sorted by latest
/// image size descending; every output row is an input row.
pub proof fn lemma_sort_rows_spec(s: Seq<RepoSummary>)
    ensures
        rows_sorted_desc(sort_rows_spec(s)),
        sort_rows_spec(s).len() == s.len(),
        sort_rows_spec(s).to_multiset() == s.to_multiset(),
        forall|k: int|
            0 <= k < sort_rows_spec(s).len() ==> exists|i: int|
                0 <= i < s.len() && #[trigger] sort_rows_spec(s)[k] == s[i],
    decreases s.len(),
{
    broadcast use vstd::seq_lib::group_seq_properties;

    if s.len() > 0 {
        let dl = s.drop_last();
        let last = s.last();
        lemma_sort_rows_spec(dl);
        let t = sort_rows_spec(dl);
        lemma_insert_row_spec(t, last);
        let out = sort_rows_spec(s);
        assert(out == insert_row_spec(t, last));
        assert(s =~= dl.push(last));
        assert(s.to_multiset() =~= dl.to_multiset().insert(last));
        assert forall|k: int| 0 <= k < out.len() implies exists|i: int|
            0 <= i < s.len() && #[trigger] out[k] == s[i] by {
            if out[k] == last {
                assert(out[k] == s[s.len() - 1]);
            } else {
                let j = choose|j: int| 0 <= j < t.len() && out[k] == t[j];
                let i = choose|i: int| 0 <= i < dl.len() && t[j] == dl[i];
                assert(out[k] == s[i]);
            }
        }
    }
}

/// Inserting a row moves it past exactly the rows with strictly smaller
/// latest sizes, so among rows with any one latest size the input order is
/// kept.
proof fn lemma_insert_row_stable(s: Seq<RepoSummary>, x: RepoSummary, size: int)
    ensures
        insert_row_spec(s, x).filter(|r: RepoSummary| r.latest_image_size == size)
            == if x.latest_image_size == size {
            s.filter(|r: RepoSummary| r.latest_image_size == size).push(x)
        } else {
            s.filter(|r: RepoSummary| r.latest_image_size == size)
        },
    decreases s.len(),
{
    let pred = |r: RepoSummary| r.latest_image_size == size;
    reveal(Seq::filter);
    if s.len() == 0 {
        assert(insert_row_spec(s, x) =~= Seq::empty().push(x));
        crate::filter::lemma_filter_push(Seq::empty(), x, pred);
        assert(Seq::<RepoSummary>::empty().filter(pred) =~= s.filter(pred));
        assert(s.filter(pred) =~= Seq::empty());
    } else if s.last().latest_image_size >= x.latest_image_size {
        crate::filter::lemma_filter_push(s, x, pred);
    } else {
        let dl = s.drop_last();
        let last = s.last();
        lemma_insert_row_stable(dl, x, size);
        // in this branch the incoming row's latest size is strictly bigger
        // than the last one's, so at most one of the two has size `size`
        crate::filter::lemma_filter_push(insert_row_spec(dl, x), last, pred);
        assert(s =~= dl.push(last));
        crate::filter::lemma_filter_push(dl, last, pred);
    }
}

/// The report's sort is stable: for any one latest size, the rows with
/// exactly that size appear in the report in their input order.
pub proof fn lemma_sort_rows_stable(s: Seq<RepoSummary>, size: int)
    ensures
        sort_rows_spec(s).filter(|r: RepoSummary| r.latest_image_size == size) == s.filter(
            |r: RepoSummary| r.latest_image_size == size,
        ),
    decreases s.len(),
{
    let pred = |r: RepoSummary| r.latest_image_size == size;
    if s.len() == 0 {
    } else {
        let dl = s.drop_last();
        let last = s.last();
        lemma_sort_rows_stable(dl, size);
        lemma_insert_row_stable(sort_rows_spec(dl), last, size);
        assert(s =~= dl.push(last));
        crate::filter::lemma_filter_push(dl, last, pred);
    }
}

/// Inserts a row into a vector sorted by latest image size descending, after
/// every row with a size no smaller than its own.
fn insert_row(v: &mut Vec<RepoSummary>, x: RepoSummary)
    ensures
        final(v)@ == insert_row_spec(old(v)@, x),
    decreases old(v)@.len(),
{
    let n = v.len();
    if n == 0 {
        v.push(x);
        proof {
            assert(v@ =~= seq![x]);
        }
    } else {
        if v[n - 1].latest_image_size >= x.latest_image_size {
            v.push(x);
        } else {
            let last = v.pop().unwrap();
            proof {
                assert(v@ =~= old(v)@.drop_last());
            }
            insert_row(v, x);
            v.push(last);
        }
    }
}

/// Sorts the rows by latest image size descending; rows with equal sizes keep
/// their input order.
pub fn sort_rows(rows: Vec<RepoSummary>) -> (sorted: Vec<RepoSummary>)
    ensures
        sorted@ == sort_rows_spec(rows@),
{
    let ghost orig = rows@;
    let mut remaining = rows;
    let mut out: Vec<RepoSummary> = Vec::new();
    while remaining.len() > 0
        invariant
            remaining@.len() <= orig.len(),
            remaining@ == orig.skip(orig.len() - remaining@.len()),
            out@ == sort_rows_spec(orig.take(orig.len() - remaining@.len())),
        decreases remaining.len(),
    {
        let ghost i = orig.len() - remaining@.len();
        let x = remaining.remove(0);
        proof {
            assert(x == orig[i]);
            assert(remaining@ =~= orig.skip(i + 1));
            assert(orig.take(i + 1).drop_last() =~= orig.take(i));
            assert(orig.take(i + 1).last() == orig[i]);
        }
        insert_row(&mut out, x);
    }
    proof {
        assert(orig.take(orig.len() as int) =~= orig);
    }
    out
}

/// All rows are well formed.
pub open spec fn rows_wf(s: Seq<RepoSummary>) -> bool {
    forall|i: int| 0 <= i < s.len() ==> (#[trigger] s[i]).wf()
}

/// The grand byte sums over the rows, aggregate and capped, in row order.
pub fn report_totals(rows: &Vec<RepoSummary>) -> (t: (u128, u128))
    requires
        rows_wf(rows@),
    ensures
        t.0 as int == total_aggregate(rows@),
        t.1 as int == total_recent(rows@),
{
    let ghost rs = rows@;
    let mut aggregate: u128 = 0;
    let mut recent: u128 = 0;
    let mut i: usize = 0;
    while i < rows.len()
        invariant
            i <= rows.len(),
            rs == rows@,
            rows_wf(rs),
            aggregate as int == total_aggregate(rs.take(i as int)),
            recent as int == total_recent(rs.take(i as int)),
            aggregate as int <= i as int * (i64::MAX as int),
            recent as int <= i as int * (i64::MAX as int),
        decreases rows.len() - i,
    {
        proof {
            assert(rs.take(i + 1 as int).drop_last() =~= rs.take(i as int));
            assert(rs.take(i + 1 as int).last() == rs[i as int]);
            assert(rs[i as int].wf());
            assert((i + 1 as int) * (i64::MAX as int) == i as int * (i64::MAX as int) + (
            i64::MAX as int));
            assert(i as int <= usize::MAX as int);
            vstd::arithmetic::mul::lemma_mul_inequality(
                i + 1 as int,
                usize::MAX as int + 1,
                i64::MAX as int,
            );
        }
        aggregate = aggregate + (rows[i].aggregate_image_size as u128);
        recent = recent + (rows[i].recent_image_size as u128);
        i += 1;
    }
    proof {
        assert(rs.take(rs.len() as int) =~= rs);
    }
    (aggregate, recent)
}

/// The display text of a row's last push: empty when no image passed the
/// filter.
pub open spec fn display_chars(opt: Option<String>) -> Seq<char> {
    match opt {
        Some(d) => d@,
        None => Seq::empty(),
    }
}

/// One tab-separated row: name, last push, latest size, hosted count, monthly
/// cost, capped monthly cost.
pub open spec fn tsv_row_chars(r: RepoSummary) -> Seq<char> {
    r.name@ + "\t"@ + display_chars(r.last_pushed_at) + "\t"@ + dec_chars(
        r.latest_image_size as int,
    ) + "\t"@ + dec_chars(r.hosted_images as int) + "\t$"@ + dollar_chars(
        cost_cents(r.aggregate_image_size as int),
    ) + "\t=> $"@ + dollar_chars(cost_cents(r.recent_image_size as int))
}

/// One comma-separated row, with the same fields as a tab-separated row; the
/// latest-size field carries a leading space.
pub open spec fn csv_row_chars(r: RepoSummary) -> Seq<char> {
    r.name@ + ","@ + display_chars(r.last_pushed_at) + ", "@ + dec_chars(
        r.latest_image_size as int,
    ) + ","@ + dec_chars(r.hosted_images as int) + ",$"@ + dollar_chars(
        cost_cents(r.aggregate_image_size as int),
    ) + ",$"@ + dollar_chars(cost_cents(r.recent_image_size as int))
}

/// The tab-separated total row: empty name, push and size columns, then the
/// two grand totals in cents.
pub open spec fn tsv_total_chars(total_cents: int, capped_cents: int) -> Seq<char> {
    "\t\t\t\t$"@ + dollar_chars(total_cents) + "\t=> $"@ + dollar_chars(capped_cents)
}

/// Renders one tab-separated row.
fn tsv_row_line(r: &RepoSummary) -> (line: String)
    requires
        r.wf(),
    ensures
        line@ == tsv_row_chars(*r),
{
    let mut line = r.name.clone();
    line.append("\t");
    match &r.last_pushed_at {
        Some(d) => line.append(d.as_str()),
        None => (),
    }
    line.append("\t");
    line.append(decimal_string(r.latest_image_size as u128).as_str());
    line.append("\t");
    line.append(decimal_string(r.hosted_images as u128).as_str());
    line.append("\t$");
    line.append(dollars_string(r.monthly_cost_cents()).as_str());
    line.append("\t=> $");
    line.append(dollars_string(r.monthly_capped_cost_cents()).as_str());
    proof {
        assert(line@ =~= tsv_row_chars(*r));
    }
    line
}

/// Renders one comma-separated row.
fn csv_row_line(r: &RepoSummary) -> (line: String)
    requires
        r.wf(),
    ensures
        line@ == csv_row_chars(*r),
{
    let mut line = r.name.clone();
    line.append(",");
    match &r.last_pushed_at {
        Some(d) => line.append(d.as_str()),
        None => (),
    }
    line.append(", ");
    line.append(decimal_string(r.latest_image_size as u128).as_str());
    line.append(",");
    line.append(decimal_string(r.hosted_images as u128).as_str());
    line.append(",$");
    line.append(dollars_string(r.monthly_cost_cents()).as_str());
    line.append(",$");
    line.append(dollars_string(r.monthly_capped_cost_cents()).as_str());
    proof {
        assert(line@ =~= csv_row_chars(*r));
    }
    line
}

/// Renders the tab-separated total row.
fn tsv_total_line(total_cents: u128, capped_cents: u128) -> (line: String)
    ensures
        line@ == tsv_total_chars(total_cents as int, capped_cents as int),
{
    let mut line = String::new();
    line.append("\t\t\t\t$");
    line.append(dollars_string(total_cents).as_str());
    line.append("\t=> $");
    line.append(dollars_string(capped_cents).as_str());
    proof {
        assert(line@ =~= tsv_total_chars(total_cents as int, capped_cents as int));
    }
    line
}

/// Builds the whole report: the rows sorted by latest image size descending,
/// rendered in the requested format, followed in tab-separated mode by
/// exactly one total row; comma-separated mode has no total row, and an
/// unrecognized format produces no lines at all.
pub fn render_report(summaries: Vec<RepoSummary>, format: OutputFormat) -> (lines: Vec<String>)
    requires
        rows_wf(summaries@),
    ensures
        ({
            let rows = sort_rows_spec(summaries@);
            &&& format is Tsv ==> lines@.len() == rows.len() + 1 && (forall|i: int|
                0 <= i < rows.len() ==> lines@[i]@ == tsv_row_chars(#[trigger] rows[i]))
                && lines@[rows.len() as int]@ == tsv_total_chars(
                cost_cents(total_aggregate(rows)),
                cost_cents(total_recent(rows)),
            )
            &&& format is Csv ==> lines@.len() == rows.len() && (forall|i: int|
                0 <= i < rows.len() ==> lines@[i]@ == csv_row_chars(#[trigger] rows[i]))
            &&& format is Unrecognized ==> lines@.len() == 0
        }),
{
    proof {
        lemma_sort_rows_spec(summaries@);
    }
    let rows = sort_rows(summaries);
    let ghost rs = rows@;
    proof {
        assert forall|i: int| 0 <= i < rs.len() implies (#[trigger] rs[i]).wf() by {
            let j = choose|j: int| 0 <= j < summaries@.len() && rs[i] == summaries@[j];
        }
    }
    let mut lines: Vec<String> = Vec::new();
    match format {
        OutputFormat::Unrecognized => lines,
        OutputFormat::Csv => {
            let mut i: usize = 0;
            while i < rows.len()
                invariant
                    i <= rows.len(),
                    rs == rows@,
                    rows_wf(rs),
                    lines@.len() == i,
                    forall|j: int| 0 <= j < i ==> lines@[j]@ == csv_row_chars(#[trigger] rs[j]),
                decreases rows.len() - i,
            {
                let line = csv_row_line(&rows[i]);
                lines.push(line);
                i += 1;
            }
            lines
        },
        OutputFormat::Tsv => {
            let mut i: usize = 0;
            while i < rows.len()
                invariant
                    i <= rows.len(),
                    rs == rows@,
                    rows_wf(rs),
                    lines@.len() == i,
                    forall|j: int| 0 <= j < i ==> lines@[j]@ == tsv_row_chars(#[trigger] rs[j]),
                decreases rows.len() - i,
            {
                let line = tsv_row_line(&rows[i]);
                lines.push(line);
                i += 1;
            }
            let (total_bytes, capped_bytes) = report_totals(&rows);
            let total_cents = crate::cost::cents_for_bytes(total_bytes);
            let capped_cents = crate::cost::cents_for_bytes(capped_bytes);
            let total = tsv_total_line(total_cents, capped_cents);
            lines.push(total);
            lines
        },
    }
}

} // verus!
