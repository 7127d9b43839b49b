use dev_monitor::state::{LogMsg, ScriptStatus, StreamType};
use dev_monitor::ui::{category_icon, format_duration, format_elapsed, has_error, name_class};

fn colour(status: Option<ScriptStatus>) -> &'static str {
    let c = name_class(status.as_ref(), false);
    for (needle, name) in [("text-success", "green"), ("text-danger", "red"), ("text-warn", "amber"), ("text-accent", "accent")] {
        if c.contains(needle) {
            return name;
        }
    }
    "neutral"
}

fn msg(content: &str, stream: StreamType) -> LogMsg {
    LogMsg { timestamp: 0, stream, content: content.to_string() }
}

#[test]
fn a_pass_is_green_and_a_failure_is_red() {
    assert_eq!(colour(Some(ScriptStatus::Succeeded)), "green");
    assert_eq!(colour(Some(ScriptStatus::Failed(1))), "red");
    assert_eq!(colour(Some(ScriptStatus::Failed(2))), "red");
    assert_eq!(colour(Some(ScriptStatus::AppError("spawn".into()))), "red");
}

#[test]
fn the_300_to_499_band_is_amber() {
    for code in [300, 404, 422, 499] {
        assert_eq!(colour(Some(ScriptStatus::Failed(code))), "amber", "{code}");
    }
    assert_eq!(colour(Some(ScriptStatus::Failed(299))), "red");
    assert_eq!(colour(Some(ScriptStatus::Failed(500))), "red");
}

#[test]
fn a_cancelled_run_is_amber_rather_than_red() {
    assert_eq!(colour(Some(ScriptStatus::Cancelled)), "amber");
}

#[test]
fn a_script_never_run_is_neutral() {
    assert_eq!(colour(None), "neutral");
    assert_eq!(colour(Some(ScriptStatus::Idle)), "neutral");
}

#[test]
fn a_running_script_overrides_its_last_outcome() {
    assert!(name_class(Some(&ScriptStatus::Failed(1)), true).contains("text-accent"));
    assert!(name_class(None, true).contains("text-accent"));
}

#[test]
fn a_component_that_reported_an_error_is_flagged() {
    assert!(has_error(&[msg("   [ERROR] TypeError: load_settings()", StreamType::Stdout)]));
    assert!(has_error(&[msg("[CRITICAL] host is down", StreamType::Stdout)]));
    assert!(has_error(&[msg("anything", StreamType::Stderr)]));
}

#[test]
fn an_ordinary_line_is_not_an_error() {
    assert!(!has_error(&[msg("   14:22:31  promoting document", StreamType::Stdout)]));
    assert!(!has_error(&[]));
}

#[test]
fn the_word_error_inside_a_message_does_not_flag_the_component() {
    assert!(!has_error(&[msg("   14:22:31  0 errors found", StreamType::Stdout)]));
}

#[test]
fn each_known_group_has_its_icon() {
    assert_eq!(category_icon("Flows"), "ph-flow-arrow");
    assert_eq!(category_icon("Maintenance"), "ph-wrench");
    assert_eq!(category_icon("Misc"), "ph-file-code");
}

#[test]
fn short_spans_read_in_minutes_and_seconds() {
    assert_eq!(format_elapsed(45), "45s");
    assert_eq!(format_elapsed(125), "2m 05s");
    assert_eq!(format_duration(41), "41s");
    assert_eq!(format_duration(125), "2m 5s");
}
