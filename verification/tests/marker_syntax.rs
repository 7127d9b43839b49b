use dev_monitor::marker_syntax::{MarkerDef, MarkerKind, MarkerSyntax};

#[test]
fn a_payload_is_found_inside_an_ordinary_log_line() {
    let s = MarkerSyntax::default();
    assert_eq!(s.payload("  4. done [CDW_STEP: Raw] ok", MarkerKind::StepStarted), Some("Raw"));
}

#[test]
fn a_marker_can_be_removed() {
    let mut s = MarkerSyntax::default();
    s.markers.retain(|m| m.token != "CDW_STEP");
    assert_eq!(s.payload("[CDW_STEP: Raw]", MarkerKind::StepStarted), None);
    // Six of the seven defaults remain: the list also ships `CDW_CHOICE`.
    assert_eq!(s.markers.len(), 6);
}

#[test]
fn a_marker_can_be_added() {
    let mut s = MarkerSyntax::default();
    s.markers.push(MarkerDef { token: "STAGE".into(), kind: MarkerKind::StepStarted });
    assert_eq!(s.payload("[STAGE: Raw]", MarkerKind::StepStarted), Some("Raw"));
    assert_eq!(s.payload("[CDW_STEP: Raw]", MarkerKind::StepStarted), Some("Raw"));
}

#[test]
fn every_default_marker_can_be_deleted_leaving_nothing() {
    let mut s = MarkerSyntax::default();
    s.markers.clear();
    for kind in MarkerKind::all() {
        assert_eq!(s.payload("[CDW_STEP: Raw]", kind), None);
    }
}

#[test]
fn a_header_runs_to_the_end_of_the_line() {
    let s = MarkerSyntax::default();
    assert_eq!(
        s.payload("# CDW_SCRIPT: category=Flows", MarkerKind::ScriptHeader),
        Some(" category=Flows")
    );
}

#[test]
fn an_unterminated_bracket_marker_is_not_a_marker() {
    let s = MarkerSyntax::default();
    assert_eq!(s.payload("[CDW_STEP: Raw", MarkerKind::StepStarted), None);
}

#[test]
fn an_empty_token_matches_nothing_rather_than_everything() {
    let s = MarkerSyntax { markers: vec![MarkerDef { token: String::new(), kind: MarkerKind::StepStarted }] };
    assert_eq!(s.payload("[CDW_STEP: Raw]", MarkerKind::StepStarted), None);
    assert_eq!(s.payload("anything at all", MarkerKind::StepStarted), None);
}

#[test]
fn a_pasted_marker_is_cleaned_to_its_token() {
    for raw in ["[CDW_STEP:", "CDW_STEP:", " [CDW_STEP: ", "CDW_STEP"] {
        assert_eq!(MarkerSyntax::clean_token(raw), "CDW_STEP", "{raw}");
    }
}

#[test]
fn the_defaults_hold_every_marker_the_scripts_use() {
    // Seven tokens: script declarations read `CDW_CHOICE` headers as well as
    // `CDW_SCRIPT` and `CDW_ARG`, so the defaults carry a token for them.
    let s = MarkerSyntax::default();
    let tokens: Vec<&str> = s.markers.iter().map(|m| m.token.as_str()).collect();
    assert_eq!(
        tokens,
        ["CDW_STEP", "CDW_STEP_DONE", "CDW_RUN", "CDW_RESULT", "CDW_SCRIPT", "CDW_ARG", "CDW_CHOICE"]
    );
}

#[test]
fn only_the_declaration_markers_are_headers() {
    let headers: Vec<MarkerKind> = MarkerKind::all().into_iter().filter(|k| k.is_header()).collect();
    assert_eq!(headers, vec![MarkerKind::ScriptHeader, MarkerKind::ArgHeader, MarkerKind::ChoiceHeader]);
}
