//! Scenario tests for the update-arbitration rule and the human-override
//! lock window.

use ijoka_core::model::{Feature, FeatureUpdate, UpdateSource, parse_update_source};
use ijoka_core::store::Database;

fn feature(id: &str, project: &str) -> Feature {
    Feature {
        id: id.to_string(),
        project_dir: project.to_string(),
        description: "desc".to_string(),
        category: "functional".to_string(),
        passes: false,
        in_progress: false,
        agent: None,
        steps: None,
        work_count: 0,
        completion_criteria: None,
        updated_at: 0,
        confidence: None,
        model: None,
        is_streaming: false,
        retry_count: 0,
        token_cost: None,
        has_error: false,
        last_agent_update: None,
        manual_priority: None,
        human_override_until: None,
    }
}

fn seed(db: &mut Database, id: &str) {
    db.sync_features("/p", vec![feature(id, "/p")], 10);
}

#[test]
fn agent_update_applies_without_override() {
    let mut db = Database::new();
    seed(&mut db, "f1");

    let u = FeatureUpdate { passes: Some(true), ..FeatureUpdate::default() };
    let accepted = db.update_feature_at("f1", u, UpdateSource::Agent, 100);
    assert!(accepted);

    let f = db.get_feature("f1").unwrap();
    assert!(f.passes);
    assert_eq!(f.last_agent_update, Some(100));
    assert_eq!(f.human_override_until, None);
    assert_eq!(f.updated_at, 100);
}

#[test]
fn human_update_sets_lock_and_preserves_untouched_fields() {
    let mut db = Database::new();
    seed(&mut db, "f1");
    let u = FeatureUpdate { passes: Some(true), ..FeatureUpdate::default() };
    assert!(db.update_feature_at("f1", u, UpdateSource::Agent, 100));

    let u = FeatureUpdate { manual_priority: Some("high".to_string()), ..FeatureUpdate::default() };
    let accepted = db.update_feature_at("f1", u, UpdateSource::Human, 200);
    assert!(accepted);

    let f = db.get_feature("f1").unwrap();
    assert_eq!(f.human_override_until, Some(200 + 300));
    assert_eq!(f.manual_priority, Some("high".to_string()));
    // untouched field preserved
    assert!(f.passes);
}

#[test]
fn agent_update_rejected_within_lock_window() {
    let mut db = Database::new();
    seed(&mut db, "f1");
    let u = FeatureUpdate { passes: Some(true), ..FeatureUpdate::default() };
    assert!(db.update_feature_at("f1", u, UpdateSource::Agent, 100));
    let u = FeatureUpdate { manual_priority: Some("high".to_string()), ..FeatureUpdate::default() };
    assert!(db.update_feature_at("f1", u, UpdateSource::Human, 200));

    // within the five-minute window
    let u = FeatureUpdate { passes: Some(false), ..FeatureUpdate::default() };
    let accepted = db.update_feature_at("f1", u, UpdateSource::Agent, 400);
    assert!(!accepted);

    let f = db.get_feature("f1").unwrap();
    assert!(f.passes);
    assert_eq!(f.human_override_until, Some(500));
}

#[test]
fn agent_update_accepted_after_lock_expires() {
    let mut db = Database::new();
    seed(&mut db, "f1");
    let u = FeatureUpdate { manual_priority: Some("high".to_string()), ..FeatureUpdate::default() };
    assert!(db.update_feature_at("f1", u, UpdateSource::Human, 200));

    // at exactly the expiry second the lock is no longer in the future
    let u = FeatureUpdate { passes: Some(true), ..FeatureUpdate::default() };
    assert!(db.update_feature_at("f1", u, UpdateSource::Agent, 500));
    assert!(db.get_feature("f1").unwrap().passes);
}

#[test]
fn sparse_update_leaves_absent_fields_alone() {
    let mut db = Database::new();
    let mut f = feature("f1", "/p");
    f.confidence = Some(40);
    db.sync_features("/p", vec![f], 10);

    let u = FeatureUpdate { confidence: Some(90), ..FeatureUpdate::default() };
    assert!(db.update_feature_at("f1", u, UpdateSource::Agent, 100));

    let f = db.get_feature("f1").unwrap();
    assert_eq!(f.confidence, Some(90));
    assert_eq!(f.description, "desc".to_string());
    assert_eq!(f.category, "functional".to_string());
    assert!(!f.passes);
    assert_eq!(f.work_count, 0);
}

#[test]
fn empty_update_short_circuits_without_touching_the_row() {
    let mut db = Database::new();
    seed(&mut db, "f1");
    let before = db.get_feature("f1").unwrap();

    let accepted = db.update_feature_at("f1", FeatureUpdate::default(), UpdateSource::Human, 999);
    assert!(accepted);
    let after = db.get_feature("f1").unwrap();
    assert_eq!(before, after);
    // in particular, no lock was armed
    assert_eq!(after.human_override_until, None);
}

#[test]
fn empty_agent_update_still_rejected_under_lock() {
    let mut db = Database::new();
    seed(&mut db, "f1");
    let u = FeatureUpdate { passes: Some(true), ..FeatureUpdate::default() };
    assert!(db.update_feature_at("f1", u, UpdateSource::Human, 200));

    let accepted = db.update_feature_at("f1", FeatureUpdate::default(), UpdateSource::Agent, 300);
    assert!(!accepted);
}

#[test]
fn update_of_missing_feature() {
    let mut db = Database::new();
    // empty update on a missing row still short-circuits to success
    assert!(db.update_feature_at("nope", FeatureUpdate::default(), UpdateSource::Agent, 100));
    // a real update on a missing row reports that nothing was updated
    let u = FeatureUpdate { passes: Some(true), ..FeatureUpdate::default() };
    assert!(!db.update_feature_at("nope", u, UpdateSource::Human, 100));
    assert!(db.get_feature("nope").is_none());
}

#[test]
fn wall_clock_update_follows_the_same_rule() {
    let mut db = Database::new();
    seed(&mut db, "f1");
    let u = FeatureUpdate { manual_priority: Some("high".to_string()), ..FeatureUpdate::default() };
    assert!(db.update_feature(
        "f1",
        u,
        UpdateSource::Human
    ));
    // the lock armed by the human write holds against an immediate agent write
    let u = FeatureUpdate { passes: Some(true), ..FeatureUpdate::default() };
    assert!(!db.update_feature("f1", u, UpdateSource::Agent));
    assert!(!db.get_feature("f1").unwrap().passes);
}

#[test]
fn source_tag_parsing_at_the_boundary() {
    assert_eq!(parse_update_source("human"), Some(UpdateSource::Human));
    assert_eq!(parse_update_source("agent"), Some(UpdateSource::Agent));
    assert_eq!(parse_update_source("Human"), None);
    assert_eq!(parse_update_source(""), None);
    assert_eq!(parse_update_source("robot"), None);
}
