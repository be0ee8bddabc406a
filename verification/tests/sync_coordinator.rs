//! Tests for the one-way mirror from the authoritative external store.

use ijoka_core::model::{FeatureUpdate, GraphFeatureSync, UpdateSource};
use ijoka_core::store::Database;
use ijoka_core::sync::{ProjectSync, sync_snapshot};

fn graph_feature(id: &str, project: &str, status: &str) -> GraphFeatureSync {
    GraphFeatureSync {
        id: id.to_string(),
        project_dir: project.to_string(),
        description: "d".to_string(),
        category: "c".to_string(),
        status: status.to_string(),
        steps: vec!["step one".to_string()],
    }
}

#[test]
fn complete_status_becomes_passing() {
    let mut db = Database::new();
    db.sync_feature_from_graph(&graph_feature("f9", "/p", "complete"), 100);
    let f = db.get_feature("f9").unwrap();
    assert!(f.passes);
    assert!(!f.in_progress);
    assert_eq!(f.steps, Some(vec!["step one".to_string()]));
    assert_eq!(f.updated_at, 100);
}

#[test]
fn in_progress_and_other_statuses() {
    let mut db = Database::new();
    db.sync_feature_from_graph(&graph_feature("f1", "/p", "in_progress"), 100);
    db.sync_feature_from_graph(&graph_feature("f2", "/p", "todo"), 100);
    let f1 = db.get_feature("f1").unwrap();
    assert!(!f1.passes);
    assert!(f1.in_progress);
    let f2 = db.get_feature("f2").unwrap();
    assert!(!f2.passes);
    assert!(!f2.in_progress);
}

#[test]
fn sync_preserves_fields_the_external_store_does_not_know() {
    let mut db = Database::new();
    db.sync_feature_from_graph(&graph_feature("f1", "/p", "todo"), 100);
    let u = FeatureUpdate {
        confidence: Some(80),
        agent: Some("hook-agent".to_string()),
        ..FeatureUpdate::default()
    };
    assert!(db.update_feature_at("f1", u, UpdateSource::Agent, 150));

    db.sync_feature_from_graph(&graph_feature("f1", "/p", "complete"), 200);
    let f = db.get_feature("f1").unwrap();
    assert!(f.passes);
    assert_eq!(f.confidence, Some(80));
    assert_eq!(f.agent, Some("hook-agent".to_string()));
    assert_eq!(f.last_agent_update, Some(150));
}

#[test]
fn sync_bypasses_an_active_human_override() {
    let mut db = Database::new();
    db.sync_feature_from_graph(&graph_feature("f1", "/p", "todo"), 100);
    let u = FeatureUpdate { passes: Some(true), ..FeatureUpdate::default() };
    assert!(db.update_feature_at("f1", u, UpdateSource::Human, 150));

    // the external store is the source of truth for the fields it reports
    db.sync_feature_from_graph(&graph_feature("f1", "/p", "todo"), 200);
    let f = db.get_feature("f1").unwrap();
    assert!(!f.passes);
    // but the lock itself is one of the fields it does not know, and stays
    assert_eq!(f.human_override_until, Some(450));
}

fn snapshot() -> Vec<ProjectSync> {
    vec![
        ProjectSync {
            path: "/p".to_string(),
            features: Some(vec![
                graph_feature("f1", "/p", "complete"),
                graph_feature("f2", "/p", "in_progress"),
            ]),
        },
        ProjectSync {
            path: "/q".to_string(),
            features: Some(vec![graph_feature("f3", "/q", "todo")]),
        },
    ]
}

#[test]
fn snapshot_sync_reports_the_upsert_count() {
    let mut db = Database::new();
    assert_eq!(sync_snapshot(&mut db, &snapshot(), 100), 3);
    assert_eq!(db.get_features(None).len(), 3);
}

#[test]
fn snapshot_sync_twice_is_idempotent() {
    let mut db = Database::new();
    sync_snapshot(&mut db, &snapshot(), 100);
    let first = db.get_features(None);
    // the second run happens on a later tick: still byte-for-byte identical
    sync_snapshot(&mut db, &snapshot(), 275);
    let second = db.get_features(None);
    assert_eq!(first, second);
}

#[test]
fn unchanged_report_leaves_the_row_untouched() {
    let mut db = Database::new();
    db.sync_feature_from_graph(&graph_feature("f1", "/p", "complete"), 100);
    db.sync_feature_from_graph(&graph_feature("f1", "/p", "complete"), 900);
    let f = db.get_feature("f1").unwrap();
    assert_eq!(f.updated_at, 100);
}

#[test]
fn changed_report_restamps_the_row() {
    let mut db = Database::new();
    db.sync_feature_from_graph(&graph_feature("f1", "/p", "todo"), 100);
    db.sync_feature_from_graph(&graph_feature("f1", "/p", "complete"), 900);
    let f = db.get_feature("f1").unwrap();
    assert!(f.passes);
    assert_eq!(f.updated_at, 900);
}

#[test]
fn failed_project_is_skipped_without_touching_its_rows() {
    let mut db = Database::new();
    sync_snapshot(&mut db, &snapshot(), 100);

    let partial = vec![
        ProjectSync { path: "/p".to_string(), features: None },
        ProjectSync {
            path: "/q".to_string(),
            features: Some(vec![graph_feature("f3", "/q", "complete")]),
        },
    ];
    // the failed project does not abort the rest, and counts nothing
    assert_eq!(sync_snapshot(&mut db, &partial, 200), 1);
    // the failed project's rows are exactly as the earlier sync left them
    let f1 = db.get_feature("f1").unwrap();
    assert!(f1.passes);
    assert_eq!(f1.updated_at, 100);
    // the healthy project's row advanced
    let f3 = db.get_feature("f3").unwrap();
    assert!(f3.passes);
    assert_eq!(f3.updated_at, 200);
}
