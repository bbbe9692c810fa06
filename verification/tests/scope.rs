use cct_transcripts::scope::{parse_date, Scope};

#[test]
fn date_parse_start_of_day() {
    assert_eq!(
        parse_date("2026-05-01", false).unwrap(),
        "2026-05-01 00:00:00"
    );
}

#[test]
fn date_parse_end_of_day() {
    assert_eq!(
        parse_date("2026-05-01", true).unwrap(),
        "2026-05-01 23:59:59"
    );
}

#[test]
fn date_parse_rejects_bad_input() {
    assert!(parse_date("2026/05/01", false).is_err());
    assert!(parse_date("2026-13-01", false).is_err());
    assert!(parse_date("not-a-date", false).is_err());
}

#[test]
fn append_where_all_includes_no_cwd() {
    let s = Scope {
        cwd_exact: None,
        match_subdirs: false,
        from_iso: None,
        to_iso: None,
    };
    let mut sql = String::new();
    let mut params = Vec::new();
    s.append_where(&mut sql, &mut params);
    assert_eq!(sql, "");
    assert!(params.is_empty());
}

#[test]
fn append_where_subdirs() {
    let s = Scope {
        cwd_exact: Some("/x".into()),
        match_subdirs: true,
        from_iso: Some("2026-05-01 00:00:00".into()),
        to_iso: None,
    };
    let mut sql = String::new();
    let mut params = Vec::new();
    s.append_where(&mut sql, &mut params);
    assert!(sql.contains("e.cwd = ?"));
    assert!(sql.contains("LIKE ? || '/%'"));
    assert!(sql.contains("e.timestamp >= CAST(? AS TIMESTAMP)"));
    assert_eq!(
        params,
        vec!["/x".to_string(), "/x".into(), "2026-05-01 00:00:00".into()]
    );
}

#[test]
fn append_where_exact_only() {
    let s = Scope {
        cwd_exact: Some("/x".into()),
        match_subdirs: false,
        from_iso: None,
        to_iso: None,
    };
    let mut sql = String::new();
    let mut params = Vec::new();
    s.append_where(&mut sql, &mut params);
    assert_eq!(sql, " AND e.cwd = ?");
    assert_eq!(params, vec!["/x".to_string()]);
}

#[test]
fn date_parse_error_messages() {
    assert_eq!(
        parse_date("2026/05/01", false).unwrap_err(),
        "invalid date '2026/05/01', expected YYYY-MM-DD"
    );
    assert_eq!(
        parse_date("x-05-01", false).unwrap_err(),
        "invalid year in 'x-05-01'"
    );
    assert_eq!(
        parse_date("2026--01", false).unwrap_err(),
        "invalid month in '2026--01'"
    );
    assert_eq!(
        parse_date("2026-05-", true).unwrap_err(),
        "invalid day in '2026-05-'"
    );
    assert_eq!(
        parse_date("2026-13-01", false).unwrap_err(),
        "invalid month/day in '2026-13-01'"
    );
    assert_eq!(
        parse_date("2026-02-32", false).unwrap_err(),
        "invalid month/day in '2026-02-32'"
    );
}

#[test]
fn date_parse_pads_and_accepts_plus_sign() {
    assert_eq!(parse_date("26-5-1", false).unwrap(), "0026-05-01 00:00:00");
    assert_eq!(parse_date("+2026-+05-01", true).unwrap(), "2026-05-01 23:59:59");
    assert_eq!(parse_date("12345-12-31", false).unwrap(), "12345-12-31 00:00:00");
    assert!(parse_date("2147483648-01-01", false).is_err());
    assert!(parse_date("2026-0-10", false).is_err());
}

#[test]
fn append_where_all_predicates_in_order() {
    let s = Scope {
        cwd_exact: Some("/p".into()),
        match_subdirs: true,
        from_iso: Some("2026-05-01 00:00:00".into()),
        to_iso: Some("2026-05-02 23:59:59".into()),
    };
    let mut sql = String::from("WHERE 1=1");
    let mut params = vec!["first".to_string()];
    s.append_where(&mut sql, &mut params);
    assert_eq!(
        sql,
        "WHERE 1=1 AND (e.cwd = ? OR e.cwd LIKE ? || '/%' ESCAPE '\\') AND e.timestamp >= CAST(? AS TIMESTAMP) AND e.timestamp <= CAST(? AS TIMESTAMP)"
    );
    assert_eq!(sql.matches('?').count(), params.len() - 1);
    assert_eq!(
        params,
        vec![
            "first".to_string(),
            "/p".into(),
            "/p".into(),
            "2026-05-01 00:00:00".into(),
            "2026-05-02 23:59:59".into()
        ]
    );
}

#[test]
fn resolve_all_ignores_cwd_and_subdirs() {
    let s = Scope::resolve(true, None, false, Some("2026-05-01"), Some("2026-05-03")).unwrap();
    assert_eq!(s.cwd_exact, None);
    assert!(!s.match_subdirs);
    assert_eq!(s.from_iso.as_deref(), Some("2026-05-01 00:00:00"));
    assert_eq!(s.to_iso.as_deref(), Some("2026-05-03 23:59:59"));
}

#[test]
fn resolve_project_scope() {
    let s = Scope::resolve(false, Some("/home/u/proj".into()), false, None, None).unwrap();
    assert_eq!(s.cwd_exact.as_deref(), Some("/home/u/proj"));
    assert!(s.match_subdirs);
    let s = Scope::resolve(false, Some("/home/u/proj".into()), true, None, None).unwrap();
    assert!(!s.match_subdirs);
}

#[test]
fn resolve_errors_in_order() {
    assert_eq!(
        Scope::resolve(false, None, false, Some("bad"), None).unwrap_err(),
        "could not determine project directory"
    );
    assert_eq!(
        Scope::resolve(true, None, false, Some("bad"), Some("worse")).unwrap_err(),
        "invalid date 'bad', expected YYYY-MM-DD"
    );
    assert_eq!(
        Scope::resolve(true, None, false, None, Some("2026-00-01")).unwrap_err(),
        "invalid month/day in '2026-00-01'"
    );
}

#[test]
fn append_where_escapes_like_wildcards_in_project() {
    let s = Scope {
        cwd_exact: Some("/a_b/100%\\x".into()),
        match_subdirs: true,
        from_iso: None,
        to_iso: None,
    };
    let mut sql = String::new();
    let mut params = Vec::new();
    s.append_where(&mut sql, &mut params);
    assert_eq!(sql, " AND (e.cwd = ? OR e.cwd LIKE ? || '/%' ESCAPE '\\')");
    assert_eq!(
        params,
        vec!["/a_b/100%\\x".to_string(), "/a\\_b/100\\%\\\\x".to_string()]
    );
}
