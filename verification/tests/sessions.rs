use cct_transcripts::extract::sessions::{
    assemble_session, completion_turn, group_conversations, is_continuation,
    list_sessions_query, session_count, task_id_pattern, Conversation, Session, SessionHead,
    LIST_SESSIONS_SQL_GROUP, LIST_SESSIONS_SQL_HEAD, LIST_SESSIONS_SQL_ORDER, SESSION_PREFIX_SQL,
};
use cct_transcripts::extract::turns::Json;
use cct_transcripts::order::{opt_str_less, str_less};
use cct_transcripts::scope::Scope;

fn s(id: &str, start: &str) -> Session {
    Session {
        session_id: id.into(),
        file: "f".into(),
        is_continuation: false,
        version: None,
        git_branch: None,
        start: Some(start.into()),
        end: None,
        turns: vec![],
    }
}

fn unstarted(id: &str) -> Session {
    let mut x = s(id, "");
    x.start = None;
    x
}

fn ids(c: &Conversation) -> Vec<String> {
    c.sessions.iter().map(|x| x.session_id.clone()).collect()
}

#[test]
fn group_buckets_by_slug() {
    let convs = group_conversations(vec![
        (s("a", "2026-05-01"), Some("alpha".into())),
        (s("b", "2026-05-02"), Some("alpha".into())),
        (s("c", "2026-05-03"), None),
    ]);
    assert_eq!(convs.len(), 2);
    let alpha = convs
        .iter()
        .find(|c| c.slug.as_deref() == Some("alpha"))
        .unwrap();
    assert_eq!(alpha.sessions.len(), 2);
    assert_eq!(alpha.sessions[0].session_id, "a");
    let none = convs.iter().find(|c| c.slug.is_none()).unwrap();
    assert_eq!(none.sessions.len(), 1);
    assert_eq!(none.sessions[0].session_id, "c");
}

#[test]
fn group_orders_sessions_and_conversations() {
    let convs = group_conversations(vec![
        (s("late", "2026-05-09"), Some("beta".into())),
        (s("x", "2026-05-04"), None),
        (s("early", "2026-05-02"), Some("beta".into())),
        (unstarted("nostart"), Some("beta".into())),
        (s("g1", "2026-05-03"), Some("gamma".into())),
        (s("empty-slug", "2026-05-01"), Some("".into())),
    ]);
    let slugs: Vec<Option<String>> = convs.iter().map(|c| c.slug.clone()).collect();
    // beta starts with a session that has no start, so it comes first.
    assert_eq!(
        slugs,
        vec![Some("beta".to_string()), None, Some("gamma".to_string()), None]
    );
    assert_eq!(ids(&convs[0]), vec!["nostart", "early", "late"]);
    assert_eq!(ids(&convs[1]), vec!["empty-slug"]);
    assert_eq!(ids(&convs[2]), vec!["g1"]);
    assert_eq!(ids(&convs[3]), vec!["x"]);
    assert_eq!(session_count(&convs), 6);
}

#[test]
fn group_breaks_ties_in_input_and_slug_order() {
    let convs = group_conversations(vec![
        (s("solo2", "2026-01-01"), None),
        (s("z1", "2026-01-01"), Some("zeta".into())),
        (s("solo1", "2026-01-01"), None),
        (s("a2", "2026-01-01"), Some("alpha".into())),
        (s("a1", "2026-01-01"), Some("alpha".into())),
    ]);
    let slugs: Vec<Option<String>> = convs.iter().map(|c| c.slug.clone()).collect();
    assert_eq!(
        slugs,
        vec![Some("alpha".to_string()), Some("zeta".to_string()), None, None]
    );
    assert_eq!(ids(&convs[0]), vec!["a2", "a1"]);
    assert_eq!(ids(&convs[2]), vec!["solo2"]);
    assert_eq!(ids(&convs[3]), vec!["solo1"]);
}

#[test]
fn group_of_nothing() {
    let convs = group_conversations(vec![]);
    assert!(convs.is_empty());
    assert_eq!(session_count(&convs), 0);
}

#[test]
fn string_order_is_byte_order() {
    assert!(str_less("B", "a"));
    assert!(str_less("a", "ab"));
    assert!(!str_less("ab", "a"));
    assert!(!str_less("a", "a"));
    assert!(str_less("z", "é"));
    assert!(str_less("2026-05-01", "2026-05-01 00:00:01"));
    assert!(opt_str_less(&None, &Some(String::new())));
    assert!(!opt_str_less(&Some(String::new()), &None));
    assert!(!opt_str_less(&None, &None));
}

#[test]
fn list_sessions_query_shapes() {
    let scope = Scope {
        cwd_exact: Some("/p".into()),
        match_subdirs: false,
        from_iso: None,
        to_iso: None,
    };
    let (sql, params) = list_sessions_query(&scope, Some("ab_c"));
    assert_eq!(
        sql,
        format!(
            "{LIST_SESSIONS_SQL_HEAD} AND e.cwd = ?{SESSION_PREFIX_SQL}{LIST_SESSIONS_SQL_GROUP}{LIST_SESSIONS_SQL_ORDER}"
        )
    );
    assert_eq!(params, vec!["/p".to_string(), "ab\\_c".to_string()]);
    let all = Scope {
        cwd_exact: None,
        match_subdirs: false,
        from_iso: None,
        to_iso: None,
    };
    let (sql, params) = list_sessions_query(&all, None);
    assert_eq!(
        sql,
        format!("{LIST_SESSIONS_SQL_HEAD}{LIST_SESSIONS_SQL_GROUP}{LIST_SESSIONS_SQL_ORDER}")
    );
    assert!(params.is_empty());
    assert!(sql.ends_with("GROUP BY t.file_path, t.session_id ORDER BY start_ts"));
}

#[test]
fn list_sessions_dates_bound_the_session_start() {
    let scope = Scope {
        cwd_exact: Some("/p".into()),
        match_subdirs: true,
        from_iso: Some("2026-05-01 00:00:00".into()),
        to_iso: Some("2026-05-02 23:59:59".into()),
    };
    let (sql, params) = list_sessions_query(&scope, Some("s"));
    assert_eq!(
        sql,
        format!(
            "{LIST_SESSIONS_SQL_HEAD} AND (e.cwd = ? OR e.cwd LIKE ? || '/%' ESCAPE '\\'){SESSION_PREFIX_SQL} GROUP BY t.file_path, t.session_id HAVING MIN(e.timestamp) >= CAST(? AS TIMESTAMP) AND MIN(e.timestamp) <= CAST(? AS TIMESTAMP) ORDER BY start_ts"
        )
    );
    assert!(!sql.contains("e.timestamp >= CAST"));
    assert_eq!(
        params,
        vec![
            "/p".to_string(),
            "/p".to_string(),
            "s".to_string(),
            "2026-05-01 00:00:00".to_string(),
            "2026-05-02 23:59:59".to_string()
        ]
    );
    let to_only = Scope {
        cwd_exact: None,
        match_subdirs: false,
        from_iso: None,
        to_iso: Some("2026-05-02 23:59:59".into()),
    };
    let (sql, params) = list_sessions_query(&to_only, None);
    assert!(sql.ends_with(
        " GROUP BY t.file_path, t.session_id HAVING MIN(e.timestamp) <= CAST(? AS TIMESTAMP) ORDER BY start_ts"
    ));
    assert_eq!(params, vec!["2026-05-02 23:59:59".to_string()]);
}

#[test]
fn continuation_detection() {
    assert!(is_continuation(Some(
        "This session is being continued from a previous conversation that ran out"
    )));
    assert!(!is_continuation(Some("continued from a previous")));
    assert!(!is_continuation(Some("")));
    assert!(!is_continuation(None));
}

#[test]
fn completion_turn_bounds() {
    assert_eq!(completion_turn(Some(0), 3), Some(0));
    assert_eq!(completion_turn(Some(2), 3), Some(2));
    assert_eq!(completion_turn(Some(3), 3), None);
    assert_eq!(completion_turn(Some(-1), 3), None);
    assert_eq!(completion_turn(None, 3), None);
    assert_eq!(completion_turn(Some(0), 0), None);
}

#[test]
fn task_id_pattern_wraps_agent_id() {
    assert_eq!(task_id_pattern("a1b2"), "%<task-id>a1b2</task-id>%");
    assert_eq!(task_id_pattern(""), "%<task-id></task-id>%");
    assert_eq!(task_id_pattern("a_1%"), "%<task-id>a\\_1\\%</task-id>%");
}

#[test]
fn assemble_session_needs_turns() {
    let head = || SessionHead {
        slug: Some("alpha".into()),
        version: Some("1.0".into()),
        git_branch: Some("main".into()),
        start: Some("2026-05-01 10:00:00".into()),
        end: Some("2026-05-01 11:00:00".into()),
        first_user: Some("This session is being continued from a previous conversation".into()),
    };
    assert!(assemble_session("id".into(), "file".into(), head(), vec![]).is_none());
    let (session, slug) = assemble_session(
        "id".into(),
        "file".into(),
        head(),
        vec![Json::Null],
    )
    .unwrap();
    assert_eq!(slug.as_deref(), Some("alpha"));
    assert_eq!(session.session_id, "id");
    assert_eq!(session.file, "file");
    assert!(session.is_continuation);
    assert_eq!(session.version.as_deref(), Some("1.0"));
    assert_eq!(session.turns.len(), 1);
    let mut plain = head();
    plain.first_user = None;
    let (session, _) =
        assemble_session("id".into(), "file".into(), plain, vec![Json::Null])
            .unwrap();
    assert!(!session.is_continuation);
}
