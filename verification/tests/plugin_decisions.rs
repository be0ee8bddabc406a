//! Tests for the plugin status classification and install-step decisions.

use ijoka_core::plugin::{
    PluginAction, PluginStatus, plugin_install_action, plugin_status_from_settings,
};
use ijoka_core::workflow::WorkflowService;

#[test]
fn first_explicit_flag_decides() {
    assert_eq!(
        plugin_status_from_settings(&vec![Some(true), Some(false)], false),
        PluginStatus::Installed
    );
    assert_eq!(
        plugin_status_from_settings(&vec![Some(false), Some(true)], true),
        PluginStatus::Disabled
    );
    assert_eq!(
        plugin_status_from_settings(&vec![None, Some(true), None], false),
        PluginStatus::Installed
    );
}

#[test]
fn registry_presence_counts_as_disabled() {
    assert_eq!(
        plugin_status_from_settings(&vec![None, None, None], true),
        PluginStatus::Disabled
    );
    assert_eq!(plugin_status_from_settings(&vec![], true), PluginStatus::Disabled);
}

#[test]
fn nothing_found_means_not_installed() {
    assert_eq!(
        plugin_status_from_settings(&vec![None, None, None], false),
        PluginStatus::NotInstalled
    );
    assert_eq!(plugin_status_from_settings(&vec![], false), PluginStatus::NotInstalled);
}

#[test]
fn labels_match_the_wire_format() {
    assert_eq!(PluginStatus::Installed.label(), "installed".to_string());
    assert_eq!(PluginStatus::OutOfSync.label(), "out_of_sync".to_string());
    assert_eq!(PluginStatus::Disabled.label(), "disabled".to_string());
    assert_eq!(PluginStatus::NotInstalled.label(), "not_installed".to_string());
}

#[test]
fn install_steps_per_status() {
    assert_eq!(plugin_install_action(&PluginStatus::Installed), PluginAction::Nothing);
    assert_eq!(plugin_install_action(&PluginStatus::Disabled), PluginAction::Enable);
    assert_eq!(plugin_install_action(&PluginStatus::OutOfSync), PluginAction::Install);
    assert_eq!(plugin_install_action(&PluginStatus::NotInstalled), PluginAction::Install);
}

#[test]
fn workflow_service_handle() {
    let s = WorkflowService::new();
    assert_eq!(s, WorkflowService);
}

#[test]
fn workflow_payloads_are_pinned() {
    let script = WorkflowService::get_bridge_script_content();
    assert!(script.contains("IjokaClient"));
    assert!(script.contains("startSession"));
    let workflow = WorkflowService::get_workflow_content();
    assert!(workflow.contains("Start a tracked work session"));
}
