use thronglets::agent::AgentSession;
use thronglets::service::{get_recent_agents, QueryOutcome};

fn session(
    agent_id: &str,
    agent_type: &str,
    session_id: &str,
    cwd: &str,
    started_at: &str,
    stopped_at: Option<&str>,
) -> AgentSession {
    AgentSession {
        agent_id: agent_id.to_string(),
        agent_type: agent_type.to_string(),
        session_id: session_id.to_string(),
        cwd: cwd.to_string(),
        started_at: started_at.to_string(),
        stopped_at: stopped_at.map(|s| s.to_string()),
    }
}

const CUTOFF: &str = "2024-06-01 11:30:00";

#[test]
fn missing_db_returns_empty_array() {
    let r = get_recent_agents(QueryOutcome::MissingDb, CUTOFF);
    assert_eq!(r, Ok("[]".to_string()));
}

#[test]
fn no_rows_returns_empty_array() {
    let r = get_recent_agents(QueryOutcome::Rows(vec![]), CUTOFF);
    assert_eq!(r, Ok("[]".to_string()));
}

#[test]
fn engine_error_passed_through() {
    let msg = "file is not a database".to_string();
    let r = get_recent_agents(QueryOutcome::Failure(msg.clone()), CUTOFF);
    assert_eq!(r, Err(msg));
}

#[test]
fn real_engine_error_passed_through() {
    // An error message as the database engine itself words it.
    let conn = rusqlite::Connection::open_in_memory().unwrap();
    let err = conn
        .prepare("SELECT nothing FROM missing_table")
        .unwrap_err()
        .to_string();
    let r = get_recent_agents(QueryOutcome::Failure(err.clone()), CUTOFF);
    assert_eq!(r, Err(err.clone()));
    assert!(err.contains("missing_table"));
}

#[test]
fn qualifying_rows_ordered_descending() {
    let rows = vec![
        session("a1", "coder", "s1", "/tmp", "2024-06-01 11:40:00", None),
        session("a2", "coder", "s2", "/tmp", "2024-06-01 11:55:00", None),
        session("a3", "coder", "s3", "/tmp", "2024-06-01 11:45:00", None),
    ];
    let r = get_recent_agents(QueryOutcome::Rows(rows), CUTOFF).unwrap();
    let expected = "[{\"agent_id\":\"a2\",\"agent_type\":\"coder\",\"session_id\":\"s2\",\"cwd\":\"/tmp\",\"started_at\":\"2024-06-01 11:55:00\",\"stopped_at\":null},{\"agent_id\":\"a3\",\"agent_type\":\"coder\",\"session_id\":\"s3\",\"cwd\":\"/tmp\",\"started_at\":\"2024-06-01 11:45:00\",\"stopped_at\":null},{\"agent_id\":\"a1\",\"agent_type\":\"coder\",\"session_id\":\"s1\",\"cwd\":\"/tmp\",\"started_at\":\"2024-06-01 11:40:00\",\"stopped_at\":null}]";
    assert_eq!(r, expected);
}

#[test]
fn old_row_excluded() {
    let rows = vec![
        session("a1", "t", "s1", "/tmp", "2024-06-01 11:00:00", None),
        session("a2", "t", "s2", "/tmp", "2024-06-01 11:50:00", None),
    ];
    let r = get_recent_agents(QueryOutcome::Rows(rows), CUTOFF).unwrap();
    let v: serde_json::Value = serde_json::from_str(&r).unwrap();
    let arr = v.as_array().unwrap();
    assert_eq!(arr.len(), 1);
    assert_eq!(arr[0]["agent_id"].as_str().unwrap(), "a2");
}

#[test]
fn row_at_cutoff_excluded() {
    // The window is strict: a row that started exactly at the cutoff is out.
    let rows = vec![session("a1", "t", "s1", "/tmp", CUTOFF, None)];
    let r = get_recent_agents(QueryOutcome::Rows(rows), CUTOFF).unwrap();
    assert_eq!(r, "[]");
}

#[test]
fn null_stopped_at_rendered_as_null() {
    let rows = vec![session(
        "a1",
        "t",
        "s1",
        "/tmp",
        "2024-06-01 11:55:00",
        None,
    )];
    let r = get_recent_agents(QueryOutcome::Rows(rows), CUTOFF).unwrap();
    let expected = "[{\"agent_id\":\"a1\",\"agent_type\":\"t\",\"session_id\":\"s1\",\"cwd\":\"/tmp\",\"started_at\":\"2024-06-01 11:55:00\",\"stopped_at\":null}]";
    assert_eq!(r, expected);
    let v: serde_json::Value = serde_json::from_str(&r).unwrap();
    assert!(v.as_array().unwrap()[0]["stopped_at"].is_null());
}

#[test]
fn present_stopped_at_rendered_as_string() {
    let rows = vec![session(
        "a1",
        "t",
        "s1",
        "/tmp",
        "2024-06-01 11:55:00",
        Some("2024-06-01 11:58:00"),
    )];
    let r = get_recent_agents(QueryOutcome::Rows(rows), CUTOFF).unwrap();
    let v: serde_json::Value = serde_json::from_str(&r).unwrap();
    assert_eq!(
        v.as_array().unwrap()[0]["stopped_at"].as_str().unwrap(),
        "2024-06-01 11:58:00"
    );
}

#[test]
fn scenario_one_recent_one_old() {
    // Query time: 2024-06-01 12:00:00; window cutoff 30 minutes before.
    let rows = vec![
        session(
            "a1",
            "coder",
            "s1",
            "/tmp",
            "2024-06-01 11:55:00",
            None,
        ),
        session(
            "a2",
            "coder",
            "s2",
            "/tmp",
            "2024-06-01 11:20:00",
            Some("2024-06-01 11:25:00"),
        ),
    ];
    let r = get_recent_agents(QueryOutcome::Rows(rows), CUTOFF).unwrap();
    let v: serde_json::Value = serde_json::from_str(&r).unwrap();
    let arr = v.as_array().unwrap();
    assert_eq!(arr.len(), 1);
    assert_eq!(arr[0]["agent_id"].as_str().unwrap(), "a1");
    assert_eq!(arr[0]["session_id"].as_str().unwrap(), "s1");
}

#[test]
fn more_than_twenty_keeps_newest_twenty() {
    let mut rows = Vec::new();
    for sec in 35..60 {
        let id = format!("a{}", sec);
        let started = format!("2024-06-01 11:59:{:02}", sec);
        rows.push(session(&id, "t", "s", "/tmp", &started, None));
    }
    let r = get_recent_agents(QueryOutcome::Rows(rows), CUTOFF).unwrap();
    let v: serde_json::Value = serde_json::from_str(&r).unwrap();
    let arr = v.as_array().unwrap();
    assert_eq!(arr.len(), 20);
    for (k, item) in arr.iter().enumerate() {
        let expected = format!("2024-06-01 11:59:{:02}", 59 - k);
        assert_eq!(item["started_at"].as_str().unwrap(), expected);
    }
}

#[test]
fn exactly_twenty_all_returned() {
    let mut rows = Vec::new();
    for sec in 40..60 {
        let id = format!("a{}", sec);
        let started = format!("2024-06-01 11:59:{:02}", sec);
        rows.push(session(&id, "t", "s", "/tmp", &started, None));
    }
    let r = get_recent_agents(QueryOutcome::Rows(rows), CUTOFF).unwrap();
    let v: serde_json::Value = serde_json::from_str(&r).unwrap();
    assert_eq!(v.as_array().unwrap().len(), 20);
}

#[test]
fn equal_start_times_keep_input_order() {
    let rows = vec![
        session("first", "t", "s1", "/tmp", "2024-06-01 11:50:00", None),
        session("second", "t", "s2", "/tmp", "2024-06-01 11:50:00", None),
    ];
    let r = get_recent_agents(QueryOutcome::Rows(rows), CUTOFF).unwrap();
    let v: serde_json::Value = serde_json::from_str(&r).unwrap();
    let arr = v.as_array().unwrap();
    assert_eq!(arr[0]["agent_id"].as_str().unwrap(), "first");
    assert_eq!(arr[1]["agent_id"].as_str().unwrap(), "second");
}

#[test]
fn special_characters_survive_a_round_trip() {
    let cwd = "C:\\tmp\\\"quoted\"\nline\ttab\u{1}end";
    let rows = vec![session(
        "a\"1",
        "ty\\pe",
        "s1",
        cwd,
        "2024-06-01 11:55:00",
        None,
    )];
    let r = get_recent_agents(QueryOutcome::Rows(rows), CUTOFF).unwrap();
    let v: serde_json::Value = serde_json::from_str(&r).unwrap();
    let arr = v.as_array().unwrap();
    assert_eq!(arr[0]["agent_id"].as_str().unwrap(), "a\"1");
    assert_eq!(arr[0]["agent_type"].as_str().unwrap(), "ty\\pe");
    assert_eq!(arr[0]["cwd"].as_str().unwrap(), cwd);
}
