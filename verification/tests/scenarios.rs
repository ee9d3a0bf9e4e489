use ecr_cost::record::ImageRecord;
use ecr_cost::report::{render_report, OutputFormat};
use ecr_cost::summary::summarize_repository;

fn image(secs: i64, bytes: i64) -> ImageRecord {
    ImageRecord { pushed_at_secs: Some(secs), size_bytes: Some(bytes) }
}

const CUTOFF: i64 = 2_000_000_000;

#[test]
fn one_repository_zero_images() {
    let summary = summarize_repository(String::from("empty"), Vec::new(), CUTOFF, 2);
    assert_eq!(summary.name, "empty");
    assert_eq!(summary.last_pushed_at, None);
    assert_eq!(summary.latest_image_size, 0);
    assert_eq!(summary.aggregate_image_size, 0);
    assert_eq!(summary.recent_image_size, 0);
    assert_eq!(summary.hosted_images, 0);
    assert_eq!(summary.monthly_cost_cents(), 0);
    assert_eq!(summary.monthly_capped_cost_cents(), 0);
    let lines = render_report(vec![summary], OutputFormat::Tsv);
    assert_eq!(lines.len(), 2);
    assert_eq!(lines[0], "empty\t\t0\t0\t$0.00\t=> $0.00");
    assert_eq!(lines[1], "\t\t\t\t$0.00\t=> $0.00");
}

#[test]
fn three_images_capped_forecast() {
    let images = vec![
        image(100, 268435456),
        image(300, 1073741824),
        image(200, 536870912),
    ];
    let summary = summarize_repository(String::from("app"), images, CUTOFF, 2);
    assert_eq!(summary.hosted_images, 3);
    assert_eq!(summary.aggregate_image_size, 1879048192);
    assert_eq!(summary.recent_image_size, 1610612736);
    assert_eq!(summary.latest_image_size, 1073741824);
    assert_eq!(summary.monthly_cost_cents(), 11);
    assert_eq!(summary.monthly_capped_cost_cents(), 10);
    let lines = render_report(vec![summary], OutputFormat::Tsv);
    assert_eq!(lines.len(), 2);
    assert_eq!(
        lines[0],
        "app\t1970-01-01 00:05:00\t1073741824\t3\t$0.11\t=> $0.10"
    );
    assert_eq!(lines[1], "\t\t\t\t$0.11\t=> $0.10");
}

#[test]
fn two_repositories_sorted_descending() {
    let small = summarize_repository(
        String::from("small"),
        vec![image(10, 536870912)],
        CUTOFF,
        2,
    );
    let big = summarize_repository(
        String::from("big"),
        vec![image(20, 1073741824)],
        CUTOFF,
        2,
    );
    // input order: small first; the report must put the bigger latest image first
    let lines = render_report(vec![small, big], OutputFormat::Tsv);
    assert_eq!(lines.len(), 3);
    assert!(lines[0].starts_with("big\t"));
    assert!(lines[1].starts_with("small\t"));
    assert!(lines[0].ends_with("$0.07\t=> $0.07"));
    assert!(lines[1].ends_with("$0.03\t=> $0.03"));
    assert_eq!(lines[2], "\t\t\t\t$0.10\t=> $0.10");
}

#[test]
fn grand_total_comes_from_the_unrounded_sum() {
    // two quarter-GiB repositories: each row rounds to $0.02, but the total
    // is the cost of the exact half-GiB sum, $0.03, not $0.04
    let a = summarize_repository(String::from("a"), vec![image(1, 268435456)], CUTOFF, 2);
    let b = summarize_repository(String::from("b"), vec![image(2, 268435456)], CUTOFF, 2);
    let lines = render_report(vec![a, b], OutputFormat::Tsv);
    assert_eq!(lines.len(), 3);
    assert!(lines[0].ends_with("$0.02\t=> $0.02"));
    assert!(lines[1].ends_with("$0.02\t=> $0.02"));
    assert_eq!(lines[2], "\t\t\t\t$0.03\t=> $0.03");
}

#[test]
fn csv_rows_without_total_line() {
    let summary = summarize_repository(
        String::from("app"),
        vec![image(300, 1073741824)],
        CUTOFF,
        2,
    );
    let lines = render_report(vec![summary], OutputFormat::Csv);
    assert_eq!(lines.len(), 1);
    assert_eq!(lines[0], "app,1970-01-01 00:05:00, 1073741824,1,$0.07,$0.07");
}

#[test]
fn tsv_has_exactly_one_trailing_total_line() {
    let a = summarize_repository(String::from("a"), vec![image(1, 10)], CUTOFF, 2);
    let b = summarize_repository(String::from("b"), vec![image(2, 20)], CUTOFF, 2);
    let lines = render_report(vec![a, b], OutputFormat::Tsv);
    assert_eq!(lines.len(), 3);
    let totals: Vec<&String> = lines.iter().filter(|l| l.starts_with("\t\t\t\t$")).collect();
    assert_eq!(totals.len(), 1);
    assert!(lines[2].starts_with("\t\t\t\t$"));
}

#[test]
fn unrecognized_format_produces_nothing() {
    let summary = summarize_repository(
        String::from("app"),
        vec![image(300, 1073741824)],
        CUTOFF,
        2,
    );
    let lines = render_report(vec![summary], OutputFormat::Unrecognized);
    assert_eq!(lines.len(), 0);
}

#[test]
fn last_pushed_display_text() {
    let summary = summarize_repository(
        String::from("app"),
        vec![image(1431648000, 1)],
        CUTOFF,
        2,
    );
    assert_eq!(
        summary.last_pushed_at,
        Some(String::from("2015-05-15 00:00:00"))
    );
}
