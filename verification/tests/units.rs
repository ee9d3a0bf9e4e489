use ecr_cost::cost::cents_for_bytes;
use ecr_cost::decimal::{decimal_string, dollars_string};
use ecr_cost::filter::filter_and_rank;
use ecr_cost::paginate::{aggregate_pages, paginate_step, MAX_PAGE_RESULTS};
use ecr_cost::record::ImageRecord;
use ecr_cost::report::{report_totals, sort_rows};
use ecr_cost::summary::{summarize_repository, RepoSummary};

fn image(secs: i64, bytes: i64) -> ImageRecord {
    ImageRecord { pushed_at_secs: Some(secs), size_bytes: Some(bytes) }
}

fn row(name: &str, latest: i64, aggregate: i64, recent: i64) -> RepoSummary {
    RepoSummary {
        name: String::from(name),
        last_pushed_at: None,
        latest_image_size: latest,
        aggregate_image_size: aggregate,
        recent_image_size: recent,
        hosted_images: 1,
    }
}

#[test]
fn filter_keeps_only_records_before_cutoff_sorted_descending() {
    let images = vec![
        image(5, 1),
        ImageRecord { pushed_at_secs: None, size_bytes: Some(2) },
        image(100, 3),
        image(50, 4),
    ];
    let ranked = filter_and_rank(images, 60);
    let times: Vec<Option<i64>> = ranked.iter().map(|r| r.pushed_at_secs).collect();
    assert_eq!(times, vec![Some(50), Some(5), None]);
}

#[test]
fn ranking_is_stable_for_equal_push_times() {
    let images = vec![image(7, 1), image(7, 2), image(7, 3)];
    let ranked = filter_and_rank(images, 60);
    let sizes: Vec<Option<i64>> = ranked.iter().map(|r| r.size_bytes).collect();
    assert_eq!(sizes, vec![Some(1), Some(2), Some(3)]);
}

#[test]
fn aggregation_is_invariant_to_rechunking() {
    let one: Vec<i64> = aggregate_pages(vec![vec![1, 2], vec![3]]);
    let other: Vec<i64> = aggregate_pages(vec![vec![1], vec![2, 3]]);
    assert_eq!(one, vec![1, 2, 3]);
    assert_eq!(one, other);
    assert_eq!(one.len(), 2 + 1);
}

#[test]
fn paginate_step_appends_and_reports_continuation() {
    let mut acc: Vec<i64> = vec![1];
    let more = paginate_step(&mut acc, vec![2, 3], &Some(String::from("token")));
    assert!(more);
    assert_eq!(acc, vec![1, 2, 3]);
    let more = paginate_step(&mut acc, vec![4], &None);
    assert!(!more);
    assert_eq!(acc, vec![1, 2, 3, 4]);
    assert_eq!(MAX_PAGE_RESULTS, 1000);
}

#[test]
fn decimal_rendering() {
    assert_eq!(decimal_string(0), "0");
    assert_eq!(decimal_string(7), "7");
    assert_eq!(decimal_string(10), "10");
    assert_eq!(decimal_string(1234567890123), "1234567890123");
}

#[test]
fn dollar_rendering_has_two_decimal_places() {
    assert_eq!(dollars_string(0), "0.00");
    assert_eq!(dollars_string(5), "0.05");
    assert_eq!(dollars_string(50), "0.50");
    assert_eq!(dollars_string(100), "1.00");
    assert_eq!(dollars_string(1234), "12.34");
}

#[test]
fn cents_follow_the_exact_formula() {
    // cents = round(bytes * 13 / 2^31): one GiB costs 6.5 cents, rounded up
    assert_eq!(cents_for_bytes(0), 0);
    assert_eq!(cents_for_bytes(1073741824), 7);
    assert_eq!(cents_for_bytes(2147483648), 13);
    assert_eq!(cents_for_bytes(1879048192), 11);
    assert_eq!(cents_for_bytes(1610612736), 10);
}

#[test]
fn cents_are_monotone_in_bytes() {
    assert!(cents_for_bytes(1_000_000) <= cents_for_bytes(2_000_000));
    assert!(cents_for_bytes(0) <= cents_for_bytes(1));
}

#[test]
fn capped_window_edges() {
    let images = vec![image(1, 10), image(2, 20)];
    let none = summarize_repository(String::from("r"), images.clone(), 60, 0);
    assert_eq!(none.recent_image_size, 0);
    assert_eq!(none.aggregate_image_size, 30);
    let all = summarize_repository(String::from("r"), images, 60, 5);
    assert_eq!(all.recent_image_size, 30);
    assert_eq!(all.aggregate_image_size, 30);
}

#[test]
fn missing_size_counts_as_zero() {
    let images = vec![ImageRecord { pushed_at_secs: Some(3), size_bytes: None }];
    let summary = summarize_repository(String::from("r"), images, 60, 2);
    assert_eq!(summary.hosted_images, 1);
    assert_eq!(summary.latest_image_size, 0);
    assert_eq!(summary.aggregate_image_size, 0);
}

#[test]
fn capped_size_never_exceeds_aggregate() {
    let images = vec![image(1, 7), image(9, 5), image(4, 11)];
    let summary = summarize_repository(String::from("r"), images, 60, 2);
    assert!(summary.recent_image_size <= summary.aggregate_image_size);
    assert_eq!(summary.aggregate_image_size, 23);
    // the two most recent images were pushed at 9 and 4
    assert_eq!(summary.recent_image_size, 16);
}

#[test]
fn rows_sort_descending_and_keep_input_order_on_ties() {
    let rows = vec![
        row("mid", 50, 50, 50),
        row("first-tie", 90, 90, 90),
        row("big", 100, 100, 100),
        row("second-tie", 90, 90, 90),
    ];
    let sorted = sort_rows(rows);
    let names: Vec<&str> = sorted.iter().map(|r| r.name.as_str()).collect();
    assert_eq!(names, vec!["big", "first-tie", "second-tie", "mid"]);
}

#[test]
fn report_totals_sum_both_columns() {
    let rows = vec![row("a", 1, 100, 40), row("b", 2, 200, 60)];
    let (aggregate, recent) = report_totals(&rows);
    assert_eq!(aggregate, 300);
    assert_eq!(recent, 100);
}
