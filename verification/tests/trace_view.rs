use dev_monitor::model::{AttrValue, Attribute, AuditRow, LogRow};
use dev_monitor::trace_view::{
    at_of, audit_text, capitalise, depth_of, edge, find, percent_done, focus, group_of_event, group_of_log, log_kind, rail, step,
    EdgeTone, GroupId, LogKind, Prov, Status, StepId,
};

fn row(source: &str, category: &str) -> LogRow {
    LogRow { at: String::new(), source: source.into(), level: "Info".into(), category: category.into(), message: String::new(), replica: None }
}

fn audit(event: &str, detail: Vec<Attribute>) -> AuditRow {
    AuditRow { id: "i".into(), document_id: "D".into(), event_type: event.into(), occurred_at: String::new(), correlation_id: String::new(), detail }
}

#[test]
fn labels_and_tips_read_as_the_screen_shows_them() {
    assert_eq!(Status::Done.label(), "cleared");
    assert_eq!(Status::NotBuilt.label(), "not built");
    assert_eq!(Prov::Inferred.label(), "inferred");
    assert_eq!(Prov::Checked.tip(), "Checked — the platform was queried just now");
}

#[test]
fn steps_and_log_groups_open_each_other() {
    assert_eq!(StepId::Validated.group(), GroupId::Admitted);
    assert_eq!(StepId::Curated.group(), GroupId::Promotion);
    assert_eq!(GroupId::Extraction.step(), Some(StepId::Extracted));
    assert_eq!(GroupId::Lifecycle.step(), None);
}

#[test]
fn the_trace_opens_on_trouble_first_then_waiting() {
    let steps = vec![
        step(StepId::Received, "Received", Status::Done, None),
        step(StepId::Reference, "Reference", Status::Waiting, None),
        step(StepId::Extracted, "Extracted", Status::Stalled, None),
    ];
    assert_eq!(focus(&steps, false), Some(StepId::Extracted));
    assert_eq!(focus(&steps[..2], true), Some(StepId::Reference));
    assert_eq!(focus(&steps[..1], true), Some(StepId::Extracted));
    assert_eq!(focus(&steps[..1], false), Some(StepId::Reference));
}

#[test]
fn a_missing_step_is_found_blank_and_unknown() {
    let steps = vec![step(StepId::Received, "Received", Status::Done, Some(Prov::Observed))];
    assert_eq!(find(&steps, StepId::Received).label, "Received");
    let missing = find(&steps, StepId::Curated);
    assert_eq!((missing.id, missing.status, missing.label), (StepId::Curated, Status::Unknown, ""));
}

#[test]
fn an_edge_takes_its_tone_from_the_step_before_it() {
    let inferred = step(StepId::Promoted, "Promoted", Status::Done, Some(Prov::Inferred));
    assert_eq!(edge(&inferred, "promote", "n".into()).tone, EdgeTone::Inferred);
    let failed = step(StepId::Promoted, "Promoted", Status::Failed, None);
    assert_eq!(edge(&failed, "promote", String::new()).tone, EdgeTone::Stalled);
    let skipped = step(StepId::Promoted, "Promoted", Status::Skipped, None);
    assert_eq!(edge(&skipped, "promote", String::new()).tone, EdgeTone::Na);
}

#[test]
fn rails_draw_the_depth_and_the_last_child() {
    assert_eq!(rail(0, true), "└─ ");
    assert_eq!(rail(2, false), "│  │  ├─ ");
}

#[test]
fn depth_counts_the_containers_a_path_lies_under() {
    let containers = vec!["a.zip".to_string(), "a.zip/b.zip".to_string()];
    assert_eq!(depth_of("a.zip/b.zip/c.pdf", &containers), 2);
    assert_eq!(depth_of("a.zipx/c.pdf", &containers), 0);
}

#[test]
fn capitals_and_clock_times() {
    assert_eq!(capitalise("waiting"), "Waiting");
    assert_eq!(capitalise(""), "");
    assert_eq!(at_of(&Some("2026-08-14T09:04:11Z".into())), "09:04:11Z");
    assert_eq!(at_of(&None), "—");
}

#[test]
fn log_lines_are_grouped_by_source_and_category() {
    assert_eq!(group_of_log(&row("job", "anything")), GroupId::Extraction);
    assert_eq!(group_of_log(&row("functions", "Function.HttpUploadSmall")), GroupId::Admitted);
    assert_eq!(group_of_log(&row("functions", "Reevaluate")), GroupId::Reference);
    assert_eq!(group_of_log(&row("functions", "Dispatch.Worker")), GroupId::Promotion);
    assert_eq!(group_of_log(&row("functions", "Sweep")), GroupId::Lifecycle);
    assert_eq!(group_of_log(&row("functions", "Misc")), GroupId::Other);
    assert_eq!(log_kind("CRITICAL"), LogKind::Error);
    assert_eq!(log_kind("Warn"), LogKind::Warn);
    assert_eq!(log_kind("Debug"), LogKind::Info);
}

#[test]
fn an_expired_pending_quarantine_is_filed_with_the_reference_lookup() {
    let unresolved = vec![Attribute { key: "reason".into(), value: AttrValue::Text("METADATA_UNRESOLVED".into()) }];
    assert_eq!(group_of_event(&audit("UploadQuarantined", unresolved)), GroupId::Reference);
    assert_eq!(group_of_event(&audit("UploadQuarantined", vec![])), GroupId::Admitted);
    assert_eq!(group_of_event(&audit("ArchiveExtracted", vec![])), GroupId::Extraction);
    assert_eq!(group_of_event(&audit("Unheard", vec![])), GroupId::Other);
}

#[test]
fn an_audit_entry_reads_as_one_line_without_its_nulls() {
    let detail = vec![
        Attribute { key: "members".into(), value: AttrValue::Other("4".into()) },
        Attribute { key: "note".into(), value: AttrValue::Null },
        Attribute { key: "reason".into(), value: AttrValue::Text("x".into()) },
    ];
    assert_eq!(audit_text(&audit("ArchiveExtracted", detail)), "ArchiveExtracted documentId=D members=4 reason=x");
}

#[test]
fn the_share_done_is_a_whole_percentage_rounded_half_up() {
    let s = |status: Status| step(StepId::Received, "x", status, None);
    assert_eq!(percent_done(&[]), 0);
    assert_eq!(percent_done(&[s(Status::Done), s(Status::Waiting), s(Status::Waiting)]), 33);
    assert_eq!(percent_done(&[s(Status::Done), s(Status::Done), s(Status::Waiting)]), 67);
    let eight: Vec<_> = (0..8).map(|i| s(if i < 3 { Status::Done } else { Status::Stalled })).collect();
    assert_eq!(percent_done(&eight), 38);
    assert_eq!(percent_done(&[s(Status::Done)]), 100);
}
