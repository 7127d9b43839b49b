use dev_monitor::marker_syntax::MarkerSyntax;
use dev_monitor::markers::{is_unrecognised, parse, Marker};
use dev_monitor::steps::StepCatalog;

fn cat() -> StepCatalog {
    StepCatalog::defaults()
}

fn syn() -> MarkerSyntax {
    MarkerSyntax::default()
}

#[test]
fn the_names_a_script_author_writes_are_accepted() {
    for (raw, id) in [
        ("Neo", "neo"),
        ("Apim", "apim"),
        ("EventGrid", "eventgrid"),
        ("ServiceBus", "servicebus"),
        ("ContainerAppJobs", "containerappjobs"),
    ] {
        assert_eq!(
            parse(&format!("[CDW_STEP: {raw}]"), &cat(), &syn()),
            Some(Marker::Step(id.to_string())),
            "{raw}"
        );
    }
}

#[test]
fn the_spaced_names_the_ui_shows_are_also_accepted() {
    for (raw, id) in [
        ("NEO", "neo"),
        ("Event Grid", "eventgrid"),
        ("Service Bus", "servicebus"),
        ("Container App Jobs", "containerappjobs"),
    ] {
        assert_eq!(parse(&format!("[CDW_STEP: {raw}]"), &cat(), &syn()), Some(Marker::Step(id.into())));
    }
}

#[test]
fn step_done_is_not_read_as_step_started() {
    assert_eq!(
        parse("[CDW_STEP_DONE: Raw]", &cat(), &syn()),
        Some(Marker::StepDone("raw".into()))
    );
}

#[test]
fn a_marker_is_found_inside_an_ordinary_log_line() {
    assert_eq!(
        parse("  4. curated move [CDW_STEP: Curated] -- done", &cat(), &syn()),
        Some(Marker::Step("curated".into()))
    );
}

#[test]
fn a_run_marker_carries_its_label() {
    assert_eq!(parse("[CDW_RUN: flow_1]", &cat(), &syn()), Some(Marker::Run("flow_1".into())));
}

#[test]
fn a_verdict_carries_its_flow_name() {
    assert_eq!(
        parse("[CDW_RESULT: PASS flow_1_park]", &cat(), &syn()),
        Some(Marker::Result { ok: true, label: "flow_1_park".into() })
    );
    assert_eq!(
        parse("[CDW_RESULT: FAIL flow_3]", &cat(), &syn()),
        Some(Marker::Result { ok: false, label: "flow_3".into() })
    );
}

#[test]
fn an_unknown_verdict_word_is_reported_rather_than_guessed() {
    assert_eq!(parse("[CDW_RESULT: MAYBE x]", &cat(), &syn()), None);
    assert!(is_unrecognised("[CDW_RESULT: MAYBE x]", &cat(), &syn()));
}

#[test]
fn a_marker_for_a_removed_step_does_nothing_and_is_not_reported() {
    let mut c = cat();
    c.remove("raw");
    assert_eq!(parse("[CDW_STEP: Raw]", &c, &syn()), None);
    assert!(!is_unrecognised("[CDW_STEP: Raw]", &c, &syn()));
}

#[test]
fn a_user_added_alias_resolves() {
    let mut c = cat();
    c.steps[7].aliases.push("CAJ".into());
    assert_eq!(parse("[CDW_STEP: CAJ]", &c, &syn()), Some(Marker::Step("containerappjobs".into())));
}

#[test]
fn an_unterminated_marker_is_not_a_marker() {
    assert_eq!(parse("[CDW_STEP: Raw", &cat(), &syn()), None);
}

#[test]
fn every_pass_and_fail_word_is_read() {
    for word in ["PASS", "passed", "Ok", "success"] {
        assert_eq!(
            parse(&format!("[CDW_RESULT: {word} x]"), &cat(), &syn()),
            Some(Marker::Result { ok: true, label: "x".into() })
        );
    }
    for word in ["fail", "FAILED", "error"] {
        assert_eq!(
            parse(&format!("[CDW_RESULT: {word} x]"), &cat(), &syn()),
            Some(Marker::Result { ok: false, label: "x".into() })
        );
    }
}

#[test]
fn an_ordinary_line_is_no_marker() {
    assert_eq!(parse("uploading 3 files", &cat(), &syn()), None);
    assert!(!is_unrecognised("uploading 3 files", &cat(), &syn()));
}
