//! Tests for the event log, point lookups, aggregate counts, configuration,
//! and project listing of the store.

use ijoka_core::model::{AgentEvent, Config, Feature, GraphFeatureSync};
use ijoka_core::store::Database;

fn event(kind: &str, session: &str, project: &str, feature: Option<&str>) -> AgentEvent {
    AgentEvent {
        id: None,
        event_type: kind.to_string(),
        source_agent: "hook-agent".to_string(),
        session_id: session.to_string(),
        project_dir: project.to_string(),
        tool_name: None,
        payload: None,
        feature_id: feature.map(|f| f.to_string()),
        created_at: 0,
    }
}

fn graph_feature(id: &str, project: &str, status: &str) -> GraphFeatureSync {
    GraphFeatureSync {
        id: id.to_string(),
        project_dir: project.to_string(),
        description: "d".to_string(),
        category: "c".to_string(),
        status: status.to_string(),
        steps: vec![],
    }
}

#[test]
fn insert_event_numbers_records_in_order() {
    let mut db = Database::new();
    assert_eq!(db.insert_event(&event("start", "s1", "/p", None), 100), 1);
    assert_eq!(db.insert_event(&event("tool", "s1", "/p", Some("f1")), 101), 2);
    assert_eq!(db.insert_event(&event("end", "s1", "/p", None), 102), 3);

    let all = db.get_events(-1);
    assert_eq!(all.len(), 3);
    // newest first
    assert_eq!(all[0].id, Some(3));
    assert_eq!(all[0].event_type, "end".to_string());
    assert_eq!(all[2].id, Some(1));
    assert_eq!(all[0].created_at, 102);
}

#[test]
fn get_events_honours_the_limit() {
    let mut db = Database::new();
    for k in 0..5 {
        db.insert_event(&event(&format!("e{}", k), "s", "/p", None), k);
    }
    let two = db.get_events(2);
    assert_eq!(two.len(), 2);
    assert_eq!(two[0].event_type, "e4".to_string());
    assert_eq!(two[1].event_type, "e3".to_string());
    assert_eq!(db.get_events(50).len(), 5);
    assert_eq!(db.get_events(0).len(), 0);
}

#[test]
fn events_by_feature_newest_first() {
    let mut db = Database::new();
    db.insert_event(&event("a", "s", "/p", Some("f1")), 1);
    db.insert_event(&event("b", "s", "/p", Some("f2")), 2);
    db.insert_event(&event("c", "s", "/p", Some("f1")), 3);

    let f1 = db.get_events_by_feature("f1", 100);
    assert_eq!(f1.len(), 2);
    assert_eq!(f1[0].event_type, "c".to_string());
    assert_eq!(f1[1].event_type, "a".to_string());

    let limited = db.get_events_by_feature("f1", 1);
    assert_eq!(limited.len(), 1);
    assert_eq!(limited[0].event_type, "c".to_string());

    assert!(db.get_events_by_feature("f3", 100).is_empty());
}

#[test]
fn unlinked_events_cover_absent_and_empty_links() {
    let mut db = Database::new();
    db.insert_event(&event("a", "s", "/p", None), 1);
    db.insert_event(&event("b", "s", "/p", Some("")), 2);
    db.insert_event(&event("c", "s", "/q", None), 3);
    db.insert_event(&event("d", "s", "/p", Some("f1")), 4);

    let all = db.get_unlinked_events(None, 100);
    assert_eq!(all.len(), 3);
    assert_eq!(all[0].event_type, "c".to_string());

    let p_only = db.get_unlinked_events(Some("/p"), 100);
    assert_eq!(p_only.len(), 2);
    assert_eq!(p_only[0].event_type, "b".to_string());
    assert_eq!(p_only[1].event_type, "a".to_string());
}

#[test]
fn linking_an_event_after_the_fact() {
    let mut db = Database::new();
    let id = db.insert_event(&event("a", "s", "/p", None), 1);
    assert!(db.link_event_to_feature(id, "f1"));
    let linked = db.get_events_by_feature("f1", 10);
    assert_eq!(linked.len(), 1);
    assert_eq!(linked[0].event_type, "a".to_string());
    assert!(db.get_unlinked_events(None, 10).is_empty());

    // ids that no record carries
    assert!(!db.link_event_to_feature(0, "f1"));
    assert!(!db.link_event_to_feature(99, "f1"));
}

#[test]
fn point_lookup_and_project_filter() {
    let mut db = Database::new();
    db.sync_feature_from_graph(&graph_feature("f1", "/p", "todo"), 10);
    db.sync_feature_from_graph(&graph_feature("f2", "/q", "todo"), 10);
    db.sync_feature_from_graph(&graph_feature("f3", "/p", "todo"), 10);

    assert_eq!(db.get_feature("f2").unwrap().project_dir, "/q".to_string());
    assert!(db.get_feature("f4").is_none());

    let p = db.get_features(Some("/p"));
    assert_eq!(p.len(), 2);
    assert_eq!(p[0].id, "f1".to_string());
    assert_eq!(p[1].id, "f3".to_string());
    assert_eq!(db.get_features(None).len(), 3);
    assert!(db.get_features(Some("/r")).is_empty());
}

#[test]
fn stats_count_completed_and_in_progress() {
    let mut db = Database::new();
    db.sync_feature_from_graph(&graph_feature("f1", "/p", "complete"), 10);
    db.sync_feature_from_graph(&graph_feature("f2", "/p", "in_progress"), 10);
    db.sync_feature_from_graph(&graph_feature("f3", "/p", "todo"), 10);

    let stats = db.get_stats();
    assert_eq!(stats.total, 3);
    assert_eq!(stats.completed, 1);
    assert_eq!(stats.in_progress, 1);
    assert_eq!(stats.active_sessions, 0);
}

#[test]
fn projects_are_listed_once_each() {
    let mut db = Database::new();
    db.sync_feature_from_graph(&graph_feature("f1", "/p", "todo"), 10);
    db.sync_feature_from_graph(&graph_feature("f2", "/q", "todo"), 10);
    db.sync_feature_from_graph(&graph_feature("f3", "/p", "todo"), 10);

    let projects = db.get_projects();
    assert_eq!(projects, vec!["/p".to_string(), "/q".to_string()]);
}

#[test]
fn config_roundtrip_and_defaults() {
    let mut db = Database::new();
    let c = db.get_config();
    assert_eq!(c.sync_server_port, 4000);
    assert!(c.notifications_enabled);
    assert!(c.watched_projects.is_empty());
    assert_eq!(c.selected_project, None);

    let new_config = Config {
        watched_projects: vec!["/p".to_string()],
        sync_server_port: 5000,
        notifications_enabled: false,
        selected_project: Some("/p".to_string()),
    };
    db.save_config(&new_config);
    assert_eq!(db.get_config(), new_config);
}

#[test]
fn watched_projects_grow_without_duplicates() {
    let mut db = Database::new();
    assert!(db.add_watched_project("/p"));
    assert!(!db.add_watched_project("/p"));
    assert!(db.add_watched_project("/q"));
    assert_eq!(
        db.get_config().watched_projects,
        vec!["/p".to_string(), "/q".to_string()]
    );
}

#[test]
fn bulk_sync_replaces_rows_entirely() {
    let mut db = Database::new();
    db.sync_feature_from_graph(&graph_feature("f1", "/p", "complete"), 10);

    let mut replacement = Feature {
        id: "f1".to_string(),
        project_dir: "ignored".to_string(),
        description: "new".to_string(),
        category: "c2".to_string(),
        passes: false,
        in_progress: true,
        agent: Some("hook-agent".to_string()),
        steps: Some(vec!["one".to_string()]),
        work_count: 7,
        completion_criteria: None,
        updated_at: 0,
        confidence: None,
        model: None,
        is_streaming: false,
        retry_count: 0,
        token_cost: None,
        has_error: false,
        last_agent_update: None,
        manual_priority: None,
        human_override_until: None,
    };
    replacement.confidence = Some(10);
    db.sync_features("/p2", vec![replacement], 99);

    let f = db.get_feature("f1").unwrap();
    // the row is re-homed to the given project and fully replaced
    assert_eq!(f.project_dir, "/p2".to_string());
    assert_eq!(f.description, "new".to_string());
    assert_eq!(f.updated_at, 99);
    assert!(!f.passes);
    assert_eq!(f.work_count, 7);
    assert_eq!(db.get_features(None).len(), 1);
}

#[test]
fn features_are_sorted_by_id_within_a_project() {
    let mut db = Database::new();
    db.sync_feature_from_graph(&graph_feature("f9", "/p", "todo"), 10);
    db.sync_feature_from_graph(&graph_feature("f1", "/p", "todo"), 10);
    db.sync_feature_from_graph(&graph_feature("f5", "/p", "todo"), 10);

    let p = db.get_features(Some("/p"));
    let ids: Vec<&str> = p.iter().map(|f| f.id.as_str()).collect();
    assert_eq!(ids, vec!["f1", "f5", "f9"]);
}

#[test]
fn unfiltered_features_are_sorted_by_project_then_id() {
    let mut db = Database::new();
    db.sync_feature_from_graph(&graph_feature("f2", "/q", "todo"), 10);
    db.sync_feature_from_graph(&graph_feature("f9", "/p", "todo"), 10);
    db.sync_feature_from_graph(&graph_feature("f1", "/q", "todo"), 10);
    db.sync_feature_from_graph(&graph_feature("f5", "/p", "todo"), 10);

    let all = db.get_features(None);
    let keys: Vec<(String, String)> =
        all.iter().map(|f| (f.project_dir.clone(), f.id.clone())).collect();
    assert_eq!(
        keys,
        vec![
            ("/p".to_string(), "f5".to_string()),
            ("/p".to_string(), "f9".to_string()),
            ("/q".to_string(), "f1".to_string()),
            ("/q".to_string(), "f2".to_string()),
        ]
    );
}

#[test]
fn projects_are_sorted_ascending() {
    let mut db = Database::new();
    db.sync_feature_from_graph(&graph_feature("f1", "/zeta", "todo"), 10);
    db.sync_feature_from_graph(&graph_feature("f2", "/alpha", "todo"), 10);
    db.sync_feature_from_graph(&graph_feature("f3", "/mid", "todo"), 10);
    db.sync_feature_from_graph(&graph_feature("f4", "/alpha", "todo"), 10);

    assert_eq!(
        db.get_projects(),
        vec!["/alpha".to_string(), "/mid".to_string(), "/zeta".to_string()]
    );
}
