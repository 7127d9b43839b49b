use dev_monitor::format::parse;
use dev_monitor::model::{
    AttrValue, Attribute, AuditRow, BlobCheck, Doc, Env, Expected, ExpectedEntry, Location, Logs, RefPointer, SourceCfg,
    Trace,
};
use dev_monitor::trace_view::{
    build, BoxTone, EdgeTone, GroupId, LogKind, Prov, Status, Step, StepId, Tone, TraceView, METADATA_UNRESOLVED,
};

const NOW: &str = "2026-08-14T09:04:11Z";

fn now() -> i64 {
    parse(NOW).unwrap()
}

fn env() -> Env {
    Env {
        name: "dev".into(),
        landing_retention_days: 8,
        pending_max_days: 5,
        containers: ["landing", "raw", "quarantine", "rejected"].iter().map(|s| s.to_string()).collect(),
        ..Default::default()
    }
}

fn blob(zone: &str, path: Option<&str>, exists: bool, size: u64, modified: &str) -> BlobCheck {
    BlobCheck {
        zone: zone.into(),
        container: zone.into(),
        container_exists: zone != "curated",
        path: path.map(String::from),
        exists: path.map(|_| exists),
        size: if exists { Some(size) } else { None },
        last_modified: if exists { Some(modified.to_string()) } else { None },
        error: None,
    }
}

fn text(key: &str, value: &str) -> Attribute {
    Attribute { key: key.into(), value: AttrValue::Text(value.into()) }
}

fn other(key: &str, json: &str) -> Attribute {
    Attribute { key: key.into(), value: AttrValue::Other(json.into()) }
}

fn audit(event: &str, doc: &str, at: &str, detail: Vec<Attribute>) -> AuditRow {
    AuditRow {
        id: format!("{doc}:{event}:{at}"),
        document_id: doc.into(),
        event_type: event.into(),
        occurred_at: at.into(),
        correlation_id: "c1".into(),
        detail,
    }
}

fn parked() -> Trace {
    let root = Doc {
        document_id: "01M00E8JM7QK4V2C1H9YB3".into(),
        revision_id: "00".into(),
        business_key: "001.01000.000100-fb001".into(),
        source_system: "NEO".into(),
        state: "PendingMetadata".into(),
        mime_type: "application/pdf".into(),
        sniffed_mime: "application/pdf".into(),
        size_bytes: Some(184_320),
        uploaded_at: Some("2026-08-11T04:12:07Z".into()),
        pending_since: Some("2026-08-11T04:12:09Z".into()),
        pending_attempts: Some(3),
        pending_key: Some("NEO/001.01000.000100".into()),
        file_guid: "g-root".into(),
        landing: Some(Location { container: "landing".into(), path: "NEO/2026/08/01M00E8JM7QK4V2C1H9YB3/00/g-root.pdf".into() }),
        ..Default::default()
    };
    Trace {
        env: env(),
        checked_at: NOW.into(),
        query: "001.01000.000100-fb001".into(),
        matched_on: Some("businessKey".into()),
        root: Some(root),
        audit: vec![
            audit("DocumentUploadedSmall", "01M00E8JM7QK4V2C1H9YB3", "2026-08-11T04:12:07Z", vec![other("sizeBytes", "184320")]),
            audit(
                "DocumentPendingMetadata",
                "01M00E8JM7QK4V2C1H9YB3",
                "2026-08-11T04:12:09Z",
                vec![other("attempt", "1"), text("referenceKey", "NEO/001.01000.000100")],
            ),
        ],
        blobs: vec![
            blob("landing", Some("NEO/2026/08/01M00E8JM7QK4V2C1H9YB3/00/g-root.pdf"), true, 184_320, "2026-08-11T04:12:07Z"),
            blob("raw", None, false, 0, ""),
            blob("quarantine", Some("01M00E8JM7QK4V2C1H9YB3/00/g-root"), false, 0, ""),
            blob("rejected", Some("01M00E8JM7QK4V2C1H9YB3/00/g-root"), false, 0, ""),
            blob("curated", None, false, 0, ""),
        ],
        logs: Logs { available: true, lag_millis: Some(109_000), checked_at: Some(NOW.into()), ..Default::default() },
        source: Some(SourceCfg { source_system: "NEO".into(), reference_set: Some("mdr".into()), pending_max_days: Some(5) }),
        reference: Some(RefPointer {
            reference_set_id: "mdr".into(),
            generation: Some(2),
            row_count: Some(10),
            built_at: Some("2026-08-14T02:04:00Z".into()),
            ..Default::default()
        }),
        ..Default::default()
    }
}

fn by_id(v: &TraceView, id: StepId) -> &Step {
    v.steps.iter().find(|s| s.id == id).unwrap()
}

#[test]
fn a_parked_document_waits_in_landing_and_says_when_it_is_deleted() {
    let v = build(&parked(), now()).unwrap();
    assert_eq!(v.zone_at, Some("landing"));
    assert_eq!(v.focus, Some(StepId::Reference));
    assert_eq!((v.hero.kicker.as_str(), v.live.big.as_str(), v.live.big_note.as_str()), ("waiting, not failing", "3d 04h", "waiting"));
    assert_eq!(v.header.sub, "NEO · rev 00 · 184,320 B");
    assert_eq!(v.header.tone, Status::Waiting);
    assert_eq!(v.header.life, Tone::Warn);
    assert!(v.header.lifecycle.contains("2026-08-19"), "{}", v.header.lifecycle);
    assert!(v.header.lifecycle.contains("quarantines it on 2026-08-16"), "{}", v.header.lifecycle);
    assert_eq!(by_id(&v, StepId::Reference).status, Status::Waiting);
    assert_eq!(by_id(&v, StepId::Promoted).detail, "waiting on reference");
    assert_eq!(v.map.e2.tone, EdgeTone::Waiting);
    assert!(v.map.landing.here);
    assert_eq!(v.map.landing.meta, "184,320 B · deletes 08-19");
}

#[test]
fn promotion_is_never_drawn_as_observed() {
    let mut t = parked();
    let root = t.root.as_mut().unwrap();
    root.state = "Dispatched".into();
    root.pending_since = None;
    root.promoted_at = Some("2026-08-11T04:12:14Z".into());
    root.raw = Some(Location { container: "raw".into(), path: "NEO/P/D/00/Official/g-root.pdf".into() });
    t.blobs[1] = blob("raw", Some("NEO/P/D/00/Official/g-root.pdf"), true, 184_320, "2026-08-11T04:12:14Z");
    let v = build(&t, now()).unwrap();
    let promoted = by_id(&v, StepId::Promoted);
    assert_eq!((promoted.status, promoted.prov), (Status::Done, Some(Prov::Inferred)));
    assert_eq!(v.map.e2.tone, EdgeTone::Inferred);
    assert_eq!(v.zone_at, Some("raw"));
    assert!(v.gaps.iter().any(|g| g.short.starts_with("Promotion is inferred")));
}

#[test]
fn a_mime_disagreement_is_flagged_on_the_gate_and_in_declared_vs_resolved() {
    let mut t = parked();
    t.root.as_mut().unwrap().sniffed_mime = "application/vnd.openxmlformats-officedocument.wordprocessingml.document".into();
    let v = build(&t, now()).unwrap();
    assert!(by_id(&v, StepId::Validated).detail.contains("disagree"));
    let row = v.meta.iter().find(|m| m.label == "Declared MIME").unwrap();
    assert!(row.flag);
    assert_eq!(v.meta_tone, Tone::Bad);
}

#[test]
fn uncounted_lookups_become_a_gap() {
    let v = build(&parked(), now()).unwrap();
    assert!(v.gaps.iter().any(|g| g.short == "2 of 3 reference lookups are counted, not recorded"), "{:?}", v.gaps);
}

#[test]
fn curated_missing_from_the_account_is_not_built_rather_than_absent() {
    let v = build(&parked(), now()).unwrap();
    assert_eq!(by_id(&v, StepId::Curated).status, Status::NotBuilt);
    let curated = v.zones.iter().find(|z| z.zone == "curated").unwrap();
    assert_eq!(curated.tag, "zone not built");
}

fn half_extracted() -> Trace {
    let mut t = parked();
    let root = t.root.as_mut().unwrap();
    root.document_id = "ROOT".into();
    root.state = "Dispatched".into();
    root.pending_since = None;
    root.pending_attempts = None;
    root.mime_type = "application/zip".into();
    root.sniffed_mime = "application/zip".into();
    root.promoted_at = Some("2026-08-14T08:19:47Z".into());
    root.archive_extraction_state = Some("Extracting".into());
    root.raw = Some(Location { container: "raw".into(), path: "PACE/P/D/00/Official/g-root.zip".into() });
    t.audit.clear();
    t.is_archive = true;
    t.blobs[1] = blob("raw", Some("PACE/P/D/00/Official/g-root.zip"), true, 1_432, "2026-08-14T08:19:47Z");
    t.family = vec![Doc {
        document_id: "M1".into(),
        file_guid: "g-m1".into(),
        root_file_guid: "g-root".into(),
        path_from_root: Some("summary.pdf".into()),
        raw: Some(Location { container: "raw".into(), path: "PACE/P/D/00/Official/g-m1.pdf".into() }),
        size_bytes: Some(604),
        written_at: Some("2026-08-14T08:21:07Z".into()),
        ..Default::default()
    }];
    let e = |path: &str, depth: u32, container: bool| ExpectedEntry {
        path: path.into(),
        depth,
        container,
        size: Some(10),
        document_id: format!("id-{path}"),
        rejected: None,
    };
    t.expected = Some(Expected {
        entries: vec![
            e("summary.pdf", 0, false),
            e("inner.zip", 0, true),
            e("inner.zip/notes.txt", 1, false),
            e("inner.zip/deeper.zip", 1, true),
            e("inner.zip/deeper.zip/detail.pdf", 2, false),
        ],
        error: None,
    });
    t
}

#[test]
fn a_walk_silent_past_the_threshold_is_stalled_with_unreached_rows_drawn() {
    let v = build(&half_extracted(), now()).unwrap();
    let extracted = by_id(&v, StepId::Extracted);
    assert_eq!(extracted.status, Status::Stalled);
    assert_eq!(v.focus, Some(StepId::Extracted));
    assert_eq!((v.hero.kicker.as_str(), v.live.big.as_str(), v.live.big_note.as_str()), ("stalled", "43m 04s", "since last progress"));
    assert!(extracted.detail.starts_with("1 of 3 members written, then no progress for 43m"), "{}", extracted.detail);
    assert_eq!(v.header.tone, Status::Stalled);
    assert_eq!(v.map.end.tone, BoxTone::Bad);
    assert_eq!(v.map.end.tag, "1 of 3 written");
    let tree = v.tree.unwrap();
    assert_eq!(tree.banner, "1 OF 3 WRITTEN · 2 NOT REACHED");
    let rails: Vec<&str> = tree.rows.iter().map(|r| r.rail.as_str()).collect();
    assert_eq!(rails, ["├─ ", "├─ ", "│  ├─ ", "│  ├─ ", "│  │  └─ "]);
    assert_eq!(tree.rows[1].tag, "not opened");
    assert_eq!(tree.rows[4].document_id, "id-inner.zip/deeper.zip/detail.pdf");
    assert!(v.gaps.iter().any(|g| g.short.starts_with("Why the walk stopped")));
}

#[test]
fn a_live_lease_keeps_a_quiet_walk_out_of_stalled() {
    let mut t = half_extracted();
    t.root.as_mut().unwrap().archive_extraction_lease_expires_at = Some("2026-08-14T09:30:00Z".into());
    let v = build(&t, now()).unwrap();
    assert_eq!(by_id(&v, StepId::Extracted).status, Status::Waiting);
}

#[test]
fn expired_pending_quarantine_is_an_expiry_not_a_gate_refusal() {
    let mut t = parked();
    t.root.as_mut().unwrap().state = "Quarantined".into();
    t.audit.push(audit(
        "UploadQuarantined",
        "01M00E8JM7QK4V2C1H9YB3",
        "2026-08-16T04:12:09Z",
        vec![text("reason", METADATA_UNRESOLVED)],
    ));
    let v = build(&t, now()).unwrap();
    assert_eq!(by_id(&v, StepId::Validated).status, Status::Done);
    assert_eq!(by_id(&v, StepId::Reference).status, Status::Failed);
    assert!(v.header.lifecycle.contains("never resolved within 5 days"));
    let reference = v.groups.iter().find(|g| g.id == GroupId::Reference).unwrap();
    assert!(reference.entries.iter().any(|e| e.text.starts_with("UploadQuarantined")));
}

#[test]
fn unavailable_logs_say_why_and_still_group_audit_entries() {
    let mut t = parked();
    t.logs = Logs { available: false, reason: Some("the Azure CLI login has expired".into()), ..Default::default() };
    let v = build(&t, now()).unwrap();
    assert!(v.log_note.contains("login has expired"));
    let admitted = v.groups.iter().find(|g| g.id == GroupId::Admitted).unwrap();
    assert_eq!(admitted.entries[0].kind, LogKind::Audit);
    assert_eq!(admitted.lag, "logs unavailable");
    assert!(v.gaps.iter().any(|g| g.short == "Log lines could not be read"));
}

#[test]
fn curated_state_follows_the_path_and_the_platform_s_parking_rules() {
    let mut t = parked();
    t.env.containers.push("curated".into());
    let root = t.root.as_mut().unwrap();
    root.state = "Dispatched".into();
    root.pending_since = None;
    root.promoted_at = Some("2026-08-11T04:12:14Z".into());
    root.dispatched_at = Some("2026-08-11T04:12:15Z".into());
    root.curated = Some(Location { container: String::new(), path: String::new() });
    root.attributes = vec![text("reference.sbmProjectNumber", "SM1000"), text("reference.uniqueDocNumber", "001-x")];

    root.file_indicator = "RW".into();
    let not_yet = build(&t, now()).unwrap();
    assert_eq!(by_id(&not_yet, StepId::Curated).status, Status::Waiting, "an empty curated object is not a failure");

    t.root.as_mut().unwrap().file_indicator = "rw".into();
    let parked_on_indicator = build(&t, now()).unwrap();
    let step = by_id(&parked_on_indicator, StepId::Curated);
    assert_eq!(step.status, Status::Stalled);
    assert!(step.detail.contains("\"rw\""), "{}", step.detail);

    let root = t.root.as_mut().unwrap();
    root.file_indicator = "RO".into();
    root.curated = Some(Location { container: "curated".into(), path: "NEO/SM1000/001-x/00/Official/g.pdf".into() });
    t.blobs[4] = BlobCheck {
        zone: "curated".into(),
        container: "curated".into(),
        container_exists: true,
        path: Some("NEO/SM1000/001-x/00/Official/g.pdf".into()),
        exists: Some(true),
        size: Some(1),
        last_modified: None,
        error: None,
    };
    let placed = build(&t, now()).unwrap();
    assert_eq!(by_id(&placed, StepId::Curated).status, Status::Done);
}

#[test]
fn a_curated_archive_root_shows_an_address_and_its_curated_members_not_a_missing_object() {
    let mut t = half_extracted();
    t.env.containers.push("curated".into());
    t.root.as_mut().unwrap().curated = Some(Location { container: "curated".into(), path: "PACE/P/D/00/Native/g-root.zip".into() });
    t.family[0].curated = Some(Location { container: "curated".into(), path: "PACE/P/D/00/Native/g-m1.pdf".into() });
    let mut second = t.family[0].clone();
    second.file_guid = "g-m2".into();
    second.path_from_root = Some("inner.zip/notes.txt".into());
    second.curated = None;
    t.family.push(second);
    let v = build(&t, now()).unwrap();
    let curated = v.zones.iter().find(|z| z.zone == "curated").unwrap();
    assert_eq!(curated.tag, "address only");
    assert!(curated.note.contains("1 of 2"), "{}", curated.note);
    assert_eq!(curated.path, "curated/PACE/P/D/00/Native/g-root.zip");
    let step = by_id(&v, StepId::Curated);
    assert_eq!(step.status, Status::Done);
    assert!(step.detail.contains("1 of 2 members"), "{}", step.detail);
}

#[test]
fn no_root_means_no_trace() {
    let mut t = parked();
    t.root = None;
    assert!(build(&t, now()).is_none());
}

#[test]
fn a_registered_document_waits_for_its_bytes() {
    let mut t = parked();
    let root = t.root.as_mut().unwrap();
    root.state = "Registered".into();
    root.uploaded_at = None;
    root.pending_since = None;
    root.landing = None;
    t.audit = vec![audit("DocumentRegistered", "01M00E8JM7QK4V2C1H9YB3", "2026-08-14T08:00:00Z", vec![])];
    t.blobs[0] = blob("landing", None, false, 0, "");
    let v = build(&t, now()).unwrap();
    let received = by_id(&v, StepId::Received);
    assert_eq!((received.status, received.prov, received.at.as_str()), (Status::Waiting, Some(Prov::Observed), "08:00:00Z"));
    assert_eq!(by_id(&v, StepId::Validated).status, Status::Waiting);
    assert_eq!(by_id(&v, StepId::Admitted).status, Status::Waiting);
    assert_eq!(v.header.lifecycle, "Registered — its bytes have not arrived in landing yet.");
    assert_eq!(v.zone_at, None);
    assert_eq!(v.zones[0].zone, "landing");
}

#[test]
fn a_rejected_upload_says_why_on_every_card() {
    let mut t = parked();
    let root = t.root.as_mut().unwrap();
    root.state = "Rejected".into();
    root.pending_since = None;
    t.audit.push(audit("UploadRejected", "01M00E8JM7QK4V2C1H9YB3", "2026-08-11T04:12:08Z", vec![text("reason", "EMPTY_FILE")]));
    t.blobs[3] = blob("rejected", Some("01M00E8JM7QK4V2C1H9YB3/00/g-root"), true, 0, "2026-08-11T04:12:08Z");
    let v = build(&t, now()).unwrap();
    let validated = by_id(&v, StepId::Validated);
    assert_eq!((validated.status, validated.detail.as_str()), (Status::Failed, "rejected — EMPTY_FILE"));
    assert_eq!(v.header.lifecycle, "Rejected at the validation gate: EMPTY_FILE. Rejected is terminal.");
    assert_eq!(v.zone_at, Some("rejected"));
    assert_eq!(v.zones[0].zone, "rejected");
    assert_eq!(v.zones[0].note, "Failed the validation gate.");
    assert_eq!(v.hero.kicker, "stopped");
    assert_eq!(by_id(&v, StepId::Reference).status, Status::Skipped);
}

#[test]
fn a_finished_document_reads_end_to_end() {
    let mut t = parked();
    let root = t.root.as_mut().unwrap();
    root.state = "Dispatched".into();
    root.pending_since = None;
    root.promoted_at = Some("2026-08-11T04:13:07Z".into());
    root.dispatched_at = Some("2026-08-11T04:14:07Z".into());
    t.audit.push(audit("DocumentDispatched", "01M00E8JM7QK4V2C1H9YB3", "2026-08-11T04:14:07Z", vec![text("queue", "evaluate-q")]));
    t.blobs[1] = blob("raw", Some("NEO/P/D/00/Official/g-root.pdf"), true, 184_320, "2026-08-11T04:13:07Z");
    let v = build(&t, now()).unwrap();
    assert_eq!(v.header.tone, Status::Done);
    assert_eq!((v.live.big.as_str(), v.live.big_note.as_str()), ("2m 00s", "end to end"));
    assert_eq!(by_id(&v, StepId::Dispatched).detail, "DocumentDispatched · evaluate-q");
    assert_eq!(v.hero.kicker, "complete · some hops inferred");
    assert!(v.header.lifecycle.starts_with("In raw, the source of truth for content. The landing copy is still present"));
    assert_eq!(v.meta[6].resolved, "2 · 08-14 02:04Z");
}
