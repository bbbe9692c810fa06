use cct_transcripts::report::usage::{
    by_model_query, counts_row, report_preamble, commas, effective_input, header_row, parse_duration, sum_counts,
    time_range_query, timestamp_would_overflow, truncate, ModelCounts,
};
use cct_transcripts::scope::Scope;

#[test]
fn commas_basic() {
    assert_eq!(commas(0), "0");
    assert_eq!(commas(123), "123");
    assert_eq!(commas(1_234), "1,234");
    assert_eq!(commas(1_234_567), "1,234,567");
    assert_eq!(commas(-1_234), "-1,234");
}

#[test]
fn commas_extremes() {
    assert_eq!(commas(123_456), "123,456");
    assert_eq!(commas(-999), "-999");
    assert_eq!(commas(i64::MAX), "9,223,372,036,854,775,807");
    assert_eq!(commas(i64::MIN), "-9,223,372,036,854,775,808");
}

#[test]
fn truncate_basic() {
    assert_eq!(truncate("hi", 5), "hi");
    assert_eq!(truncate("abcdef", 4), "abc…");
}

#[test]
fn truncate_edges() {
    assert_eq!(truncate("abcd", 4), "abcd");
    assert_eq!(truncate("abcde", 1), "…");
    assert_eq!(truncate("abcde", 0), "…");
    assert_eq!(truncate("héllo", 4), "hé…");
}

#[test]
fn parse_duration_basic() {
    let d = parse_duration(Some("2026-05-01 00:00:00"), Some("2026-05-02 00:00:00"));
    assert_eq!(d, Some(86_400));
}

#[test]
fn parse_duration_handles_microseconds() {
    let d = parse_duration(
        Some("2026-05-01 00:00:00.123456"),
        Some("2026-05-01 00:00:30.999999"),
    );
    assert_eq!(d, Some(30));
}

#[test]
fn parse_duration_missing_or_bad_bounds() {
    assert_eq!(parse_duration(None, Some("2026-05-01 00:00:00")), None);
    assert_eq!(parse_duration(Some("2026-05-01 00:00:00"), None), None);
    assert_eq!(parse_duration(Some("2026-05-01"), Some("2026-05-01 00:00:00")), None);
    assert_eq!(parse_duration(Some("2026-05-01T00:00:00"), Some("2026-05-01 00:00:00")), None);
}

#[test]
fn parse_duration_clamps_and_crosses_years() {
    assert_eq!(
        parse_duration(Some("2026-05-02 00:00:00"), Some("2026-05-01 00:00:00")),
        Some(0)
    );
    assert_eq!(
        parse_duration(Some("2023-12-31 23:59:59"), Some("2024-03-01 00:00:00")),
        Some(60 * 86_400 + 1)
    );
    assert_eq!(
        parse_duration(Some("1970-01-01 00:00:00"), Some("2000-03-01 00:00:00")),
        Some(951_868_800)
    );
}

#[test]
fn timestamp_overflow_detection() {
    assert!(!timestamp_would_overflow("2026-05-01 00:00:00"));
    assert!(timestamp_would_overflow("2026-03-00 00:00:00"));
    assert!(timestamp_would_overflow("9-99999999-1 0:0:00"));
    assert!(!timestamp_would_overflow("garbage"));
}

#[test]
fn header_row_layout() {
    let h = header_row();
    assert_eq!(
        h,
        format!(
            "{:<32}  {:>8}  {:>14}  {:>14}  {:>14}  {:>14}  {:>14}  {:>10}",
            "Model", "Calls", "Input", "Cache W5m", "Cache W1h", "Cache Read", "Output", "Cost",
        )
    );
}

fn row(model: &str, base: i64) -> ModelCounts {
    ModelCounts {
        model: model.to_string(),
        calls: base,
        input_tokens: base * 10,
        cache_write_5m: base * 100,
        cache_write_1h: base * 1000,
        cache_read: base * 10000,
        output_tokens: base * 100000,
    }
}

#[test]
fn totals_sum_each_column() {
    let t = sum_counts(&vec![row("a", 1), row("b", 2)]);
    assert_eq!(t.calls, 3);
    assert_eq!(t.input_tokens, 30);
    assert_eq!(t.cache_write_5m, 300);
    assert_eq!(t.cache_write_1h, 3000);
    assert_eq!(t.cache_read, 30000);
    assert_eq!(t.output_tokens, 300000);
    assert_eq!(effective_input(&t), 33330);
    let empty = sum_counts(&vec![]);
    assert_eq!(effective_input(&empty), 0);
}

#[test]
fn queries_carry_scope_predicates() {
    let s = Scope {
        cwd_exact: Some("/x".into()),
        match_subdirs: false,
        from_iso: None,
        to_iso: None,
    };
    let (sql, params) = by_model_query(&s);
    assert!(sql.ends_with(" AND e.cwd = ? GROUP BY d.model ORDER BY cost_usd DESC, d.model"));
    assert!(sql.starts_with("SELECT d.model, COUNT(*)"));
    assert_eq!(params, vec!["/x".to_string()]);
    let (sql, params) = time_range_query(&s);
    assert!(sql.ends_with("FROM entries e WHERE 1=1 AND e.cwd = ?"));
    assert_eq!(params, vec!["/x".to_string()]);
}

#[test]
fn counts_row_layout() {
    let m = ModelCounts {
        model: "a-very-long-model-name-that-overflows-the-column".to_string(),
        calls: 1_234,
        input_tokens: 5,
        cache_write_5m: 0,
        cache_write_1h: 1_000_000,
        cache_read: -7,
        output_tokens: 42,
    };
    let row = counts_row(&m);
    let expected = format!(
        "{:<32}  {:>8}  {:>14}  {:>14}  {:>14}  {:>14}  {:>14}  ",
        "a-very-long-model-name-that-ove…", "1,234", "5", "0", "1,000,000", "-7", "42"
    );
    assert_eq!(row, expected);
    let short = ModelCounts {
        model: "m".to_string(),
        ..m
    };
    assert!(counts_row(&short).starts_with(&format!("{:<32}  ", "m")));
}

#[test]
fn report_preamble_lines() {
    let bar = "═".repeat(96);
    let lines = report_preamble(
        "/tmp/t.duckdb",
        false,
        Some("/p"),
        false,
        Some("2026-05-01 00:00:00"),
        Some("2026-05-02 00:00:00"),
    );
    assert_eq!(
        lines,
        vec![
            "".to_string(),
            bar.clone(),
            "  CCT USAGE REPORT".to_string(),
            bar.clone(),
            "  DB:       /tmp/t.duckdb".to_string(),
            "  Project:  /p (+ subdirectory cwds)".to_string(),
            "  Window:   2026-05-01 00:00:00 → 2026-05-02 00:00:00".to_string(),
            "".to_string(),
        ]
    );
    let lines = report_preamble("db", true, Some("/p"), true, None, Some("x"));
    assert_eq!(lines[5], "  Scope:    ALL projects");
    assert_eq!(lines.len(), 7);
    let lines = report_preamble("db", false, Some("/p"), true, None, None);
    assert_eq!(lines[5], "  Project:  /p");
    let lines = report_preamble("db", false, None, false, None, None);
    assert_eq!(lines.len(), 6);
}
