use cct_transcripts::extract::turns::{agent_json, turn_json, AggregateRow, Json, TurnRow};

fn row() -> TurnRow {
    TurnRow {
        index: 3,
        uuid: Some("u-1".into()),
        timestamp: None,
        user_text: None,
        duration_seconds: Some(42),
        interrupted: true,
        api_calls: 2,
        model: Some("m".into()),
        input: Some(10),
        cache_read: None,
        cache_write: Some(5),
        output: Some(7),
        tools: "{\"Bash\":2}".into(),
        skills: "[]".into(),
        errors: "[]".into(),
        agents: "[]".into(),
    }
}

fn names(j: &Json) -> Vec<String> {
    match j {
        Json::Object(fs) => fs.iter().map(|f| f.name.clone()).collect(),
        _ => panic!("not an object"),
    }
}

fn get<'a>(j: &'a Json, k: &str) -> &'a Json {
    match j {
        Json::Object(fs) => &fs.iter().find(|f| f.name == k).unwrap().value,
        _ => panic!("not an object"),
    }
}

#[test]
fn turn_record_fields_and_defaults() {
    let j = turn_json(row(), vec![]);
    assert_eq!(
        names(&j),
        vec![
            "index",
            "uuid",
            "timestamp",
            "user_text",
            "duration_seconds",
            "interrupted",
            "api_calls",
            "model",
            "tokens",
            "tools",
            "skills",
            "errors"
        ]
    );
    assert!(matches!(get(&j, "index"), Json::Int(3)));
    assert!(matches!(get(&j, "uuid"), Json::Str(s) if s == "u-1"));
    assert!(matches!(get(&j, "timestamp"), Json::Null));
    assert!(matches!(get(&j, "user_text"), Json::Str(s) if s.is_empty()));
    assert!(matches!(get(&j, "interrupted"), Json::Bool(true)));
    let tokens = get(&j, "tokens");
    assert_eq!(names(tokens), vec!["input", "cache_read", "cache_write", "output"]);
    assert!(matches!(get(tokens, "input"), Json::Int(10)));
    assert!(matches!(get(tokens, "cache_read"), Json::Int(0)));
    assert!(matches!(get(tokens, "output"), Json::Int(7)));
    assert!(matches!(get(&j, "tools"), Json::Text(t) if t == "{\"Bash\":2}"));
}

#[test]
fn turn_record_lists_subagents_when_launched() {
    let j = turn_json(row(), vec![Json::Null, Json::Bool(false)]);
    assert_eq!(names(&j).len(), 13);
    assert_eq!(names(&j)[12], "subagents");
    assert!(matches!(get(&j, "subagents"), Json::Array(a) if a.len() == 2));
}

#[test]
fn agent_record_without_agent_id() {
    let j = agent_json(None, None, Some(1), Some("f".into()), None);
    assert_eq!(
        names(&j),
        vec!["agent_id", "description", "file", "completed_in_turn"]
    );
    assert!(matches!(get(&j, "agent_id"), Json::Null));
    assert!(matches!(get(&j, "description"), Json::Str(s) if s.is_empty()));
    assert!(matches!(get(&j, "file"), Json::Null));
    assert!(matches!(get(&j, "completed_in_turn"), Json::Null));
}

#[test]
fn agent_record_with_transcript() {
    let agg = AggregateRow {
        duration_seconds: None,
        api_calls: 4,
        model: None,
        input: None,
        cache_read: Some(1),
        cache_write: None,
        output: None,
        tools: "{}".into(),
        skills: "[]".into(),
        errors: "[\"boom\"]".into(),
    };
    let j = agent_json(
        Some("a1".into()),
        Some("explore".into()),
        Some(2),
        Some("sub.jsonl".into()),
        Some(agg),
    );
    assert_eq!(
        names(&j),
        vec![
            "agent_id",
            "description",
            "completed_in_turn",
            "file",
            "duration_seconds",
            "api_calls",
            "model",
            "tokens",
            "tools",
            "skills",
            "errors"
        ]
    );
    assert!(matches!(get(&j, "completed_in_turn"), Json::Int(2)));
    assert!(matches!(get(&j, "api_calls"), Json::Int(4)));
    assert!(matches!(get(get(&j, "tokens"), "cache_read"), Json::Int(1)));
    let j = agent_json(Some("a1".into()), None, None, None, None);
    assert_eq!(names(&j).len(), 4);
    assert!(matches!(get(&j, "file"), Json::Null));
}
