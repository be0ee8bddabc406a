//! Tests for session liveness tracking and the staleness sweep.

use ijoka_core::model::Session;
use ijoka_core::store::Database;

fn session(id: &str, last_activity: i64, status: &str) -> Session {
    Session {
        session_id: id.to_string(),
        source_agent: "hook-agent".to_string(),
        project_dir: "/p".to_string(),
        started_at: 0,
        last_activity,
        status: status.to_string(),
    }
}

#[test]
fn heartbeat_inserts_then_replaces() {
    let mut db = Database::new();
    db.upsert_session(&session("s1", 100, "active"));
    db.upsert_session(&session("s2", 100, "active"));
    assert_eq!(db.get_sessions().len(), 2);

    // a later heartbeat for the same id replaces the row, not appends
    db.upsert_session(&session("s1", 200, "active"));
    let sessions = db.get_sessions();
    assert_eq!(sessions.len(), 2);
    let s1 = sessions.iter().find(|s| s.session_id == "s1").unwrap();
    assert_eq!(s1.last_activity, 200);
}

#[test]
fn explicit_end_transition() {
    let mut db = Database::new();
    db.upsert_session(&session("s1", 100, "active"));
    db.update_session_status("s1", "ended", 150);
    assert!(db.get_sessions().is_empty());
    // ending an unknown session changes nothing
    db.update_session_status("nope", "ended", 150);
    assert!(db.get_sessions().is_empty());
}

#[test]
fn sweep_ends_only_stale_sessions() {
    let mut db = Database::new();
    // threshold 15 minutes; now = 1000s
    db.upsert_session(&session("old", 50, "active"));
    db.upsert_session(&session("fresh", 950, "active"));
    db.upsert_session(&session("done", 50, "ended"));

    let swept = db.cleanup_stale_sessions_at(15, 1000);
    assert_eq!(swept, 1);
    let active = db.get_sessions();
    assert_eq!(active.len(), 1);
    assert_eq!(active[0].session_id, "fresh".to_string());
}

#[test]
fn sweep_threshold_is_strict() {
    let mut db = Database::new();
    // exactly at the threshold: 1000 - 100 == 15 * 60, not yet stale
    db.upsert_session(&session("edge", 100, "active"));
    assert_eq!(db.cleanup_stale_sessions_at(15, 1000), 0);
    // one second past the threshold
    assert_eq!(db.cleanup_stale_sessions_at(15, 1001), 1);
}

#[test]
fn heartbeat_before_sweep_protects_the_session() {
    let mut db = Database::new();
    db.upsert_session(&session("s1", 50, "active"));
    // the session is already eligible, but a heartbeat lands first
    db.upsert_session(&session("s1", 990, "active"));
    assert_eq!(db.cleanup_stale_sessions_at(15, 1000), 0);
    assert_eq!(db.get_sessions().len(), 1);
}

#[test]
fn stale_session_is_ended_exactly_once() {
    let mut db = Database::new();
    db.upsert_session(&session("s1", 50, "active"));
    assert_eq!(db.cleanup_stale_sessions_at(15, 1000), 1);
    // a second qualifying sweep has nothing left to end
    assert_eq!(db.cleanup_stale_sessions_at(15, 2000), 0);
}

#[test]
fn wall_clock_sweep_keeps_recent_sessions() {
    let mut db = Database::new();
    db.upsert_session(&session("s1", ijoka_core::clock::now_utc(), "active"));
    assert_eq!(db.cleanup_stale_sessions(15), 0);
    assert_eq!(db.get_sessions().len(), 1);
}

#[test]
fn active_sessions_are_listed_most_recent_first() {
    let mut db = Database::new();
    db.upsert_session(&session("s1", 100, "active"));
    db.upsert_session(&session("s2", 300, "active"));
    db.upsert_session(&session("s3", 200, "active"));
    db.upsert_session(&session("s4", 400, "ended"));

    let order: Vec<String> =
        db.get_sessions().iter().map(|s| s.session_id.clone()).collect();
    assert_eq!(order, vec!["s2".to_string(), "s3".to_string(), "s1".to_string()]);
}
