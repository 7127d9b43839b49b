use dev_monitor::format::parse;
use dev_monitor::model::{BlobCheck, Doc, Env, Expected, ExpectedEntry, Location, Trace};
use dev_monitor::trace_tree::tree;
use dev_monitor::trace_view::{step, BoxTone, EdgeTone, Prov, Status, StepId, Tone};
use dev_monitor::transit::{transit_map, zone_at};

const NOW: &str = "2026-08-14T09:04:11Z";

fn now() -> i64 {
    parse(NOW).unwrap()
}

fn env() -> Env {
    Env {
        name: "dev".into(),
        landing_retention_days: 8,
        pending_max_days: 5,
        containers: ["landing", "raw", "quarantine", "rejected"].iter().map(|s| s.to_string()).collect(),
        ..Default::default()
    }
}

fn blob(zone: &str, path: Option<&str>, exists: bool, size: u64, modified: &str) -> BlobCheck {
    BlobCheck {
        zone: zone.into(),
        container: zone.into(),
        container_exists: zone != "curated",
        path: path.map(String::from),
        exists: path.map(|_| exists),
        size: if exists { Some(size) } else { None },
        last_modified: if exists { Some(modified.to_string()) } else { None },
        error: None,
    }
}

fn parked() -> Trace {
    let root = Doc {
        document_id: "01M00E8JM7QK4V2C1H9YB3".into(),
        revision_id: "00".into(),
        business_key: "001.01000.000100-fb001".into(),
        source_system: "NEO".into(),
        state: "PendingMetadata".into(),
        size_bytes: Some(184_320),
        uploaded_at: Some("2026-08-11T04:12:07Z".into()),
        pending_since: Some("2026-08-11T04:12:09Z".into()),
        file_guid: "g-root".into(),
        landing: Some(Location { container: "landing".into(), path: "NEO/2026/08/01M00E8JM7QK4V2C1H9YB3/00/g-root.pdf".into() }),
        ..Default::default()
    };
    Trace {
        env: env(),
        checked_at: NOW.into(),
        root: Some(root),
        blobs: vec![
            blob("landing", Some("NEO/2026/08/01M00E8JM7QK4V2C1H9YB3/00/g-root.pdf"), true, 184_320, "2026-08-11T04:12:07Z"),
            blob("raw", None, false, 0, ""),
            blob("quarantine", Some("01M00E8JM7QK4V2C1H9YB3/00/g-root"), false, 0, ""),
            blob("rejected", Some("01M00E8JM7QK4V2C1H9YB3/00/g-root"), false, 0, ""),
            blob("curated", None, false, 0, ""),
        ],
        ..Default::default()
    }
}

fn half_extracted() -> Trace {
    let mut t = parked();
    let root = t.root.as_mut().unwrap();
    root.document_id = "ROOT".into();
    root.state = "Dispatched".into();
    root.pending_since = None;
    root.promoted_at = Some("2026-08-14T08:19:47Z".into());
    root.archive_extraction_state = Some("Extracting".into());
    root.raw = Some(Location { container: "raw".into(), path: "PACE/P/D/00/Official/g-root.zip".into() });
    t.is_archive = true;
    t.blobs[1] = blob("raw", Some("PACE/P/D/00/Official/g-root.zip"), true, 1_432, "2026-08-14T08:19:47Z");
    t.family = vec![Doc {
        document_id: "M1".into(),
        file_guid: "g-m1".into(),
        root_file_guid: "g-root".into(),
        path_from_root: Some("summary.pdf".into()),
        raw: Some(Location { container: "raw".into(), path: "PACE/P/D/00/Official/g-m1.pdf".into() }),
        size_bytes: Some(604),
        written_at: Some("2026-08-14T08:21:07Z".into()),
        ..Default::default()
    }];
    let e = |path: &str, depth: u32, container: bool| ExpectedEntry {
        path: path.into(),
        depth,
        container,
        size: Some(10),
        document_id: format!("id-{path}"),
        rejected: None,
    };
    t.expected = Some(Expected {
        entries: vec![
            e("summary.pdf", 0, false),
            e("inner.zip", 0, true),
            e("inner.zip/notes.txt", 1, false),
            e("inner.zip/deeper.zip", 1, true),
            e("inner.zip/deeper.zip/detail.pdf", 2, false),
        ],
        error: None,
    });
    t
}

#[test]
fn a_half_extracted_archive_draws_its_unreached_rows() {
    let t = half_extracted();
    let tree = tree(&t, t.root.as_ref().unwrap()).unwrap();
    assert_eq!(tree.banner, "1 OF 3 WRITTEN · 2 NOT REACHED");
    assert_eq!(tree.tone, Tone::Bad);
    let rails: Vec<&str> = tree.rows.iter().map(|r| r.rail.as_str()).collect();
    assert_eq!(rails, ["├─ ", "├─ ", "│  ├─ ", "│  ├─ ", "│  │  └─ "]);
    assert_eq!(tree.rows[0].tag, "raw");
    assert_eq!(tree.rows[0].size, "604 B");
    assert_eq!(tree.rows[0].document_id, "M1");
    assert_eq!(tree.rows[1].tag, "not opened");
    assert_eq!((tree.rows[2].parent.as_str(), tree.rows[2].name.as_str()), ("inner.zip/", "notes.txt"));
    assert_eq!(tree.rows[4].document_id, "id-inner.zip/deeper.zip/detail.pdf");
    assert_eq!(tree.rows[4].size, "—");
    assert_eq!(
        tree.footer,
        "One archive, several documents. Every member derives its own documentId from (root ROOT, revision 00, pathFromRoot) and shares the root's revision."
    );
}

#[test]
fn a_complete_archive_counts_its_depths() {
    let mut t = half_extracted();
    t.expected.as_mut().unwrap().entries.truncate(1);
    let tree = tree(&t, t.root.as_ref().unwrap()).unwrap();
    assert_eq!(tree.banner, "1 MEMBERS · 1 DEPTH · ALL WRITTEN");
    assert_eq!(tree.tone, Tone::Good);
}

#[test]
fn a_member_the_listing_does_not_name_is_added_in_path_order() {
    let mut t = half_extracted();
    t.expected = None;
    let mut b = t.family[0].clone();
    b.document_id = "M0".into();
    b.path_from_root = Some("a-first.pdf".into());
    t.family.push(b);
    let tree = tree(&t, t.root.as_ref().unwrap()).unwrap();
    let names: Vec<&str> = tree.rows.iter().map(|r| r.name.as_str()).collect();
    assert_eq!(names, ["a-first.pdf", "summary.pdf"]);
    assert_eq!(tree.banner, "2 MEMBERS · 1 DEPTH · ALL WRITTEN");
}

#[test]
fn a_refused_entry_is_drawn_as_refused() {
    let mut t = half_extracted();
    t.expected.as_mut().unwrap().entries[2].rejected = Some("MEMBER_ENTRY_TYPE_FORBIDDEN".into());
    let tree = tree(&t, t.root.as_ref().unwrap()).unwrap();
    assert!(tree.rows[2].rejected);
    assert_eq!(tree.rows[2].tag, "refused");
    assert_eq!(tree.banner, "1 OF 2 WRITTEN · 1 NOT REACHED");
}

#[test]
fn an_empty_archive_without_a_listing_says_so() {
    let mut t = half_extracted();
    t.family.clear();
    t.expected = Some(Expected { entries: vec![], error: Some("archive unreadable".into()) });
    let tree = tree(&t, t.root.as_ref().unwrap()).unwrap();
    assert_eq!((tree.banner.as_str(), tree.note.as_str()), ("MEMBERS UNKNOWN", "archive unreadable"));
    assert!(tree.rows.is_empty());
    t.is_archive = false;
    assert!(dev_monitor::trace_tree::tree(&t, t.root.as_ref().unwrap()).is_none());
}

#[test]
fn a_parked_document_sits_in_landing_and_says_when_it_is_deleted() {
    let t = parked();
    assert_eq!(zone_at(&t), Some("landing"));
    let steps = vec![
        step(StepId::Received, "Received from source", Status::Done, Some(Prov::Observed)),
        step(StepId::Promoted, "Promoted", Status::Waiting, None),
    ];
    let map = transit_map(&t, t.root.as_ref().unwrap(), &steps, now());
    assert!(map.landing.here);
    assert_eq!(map.landing.tone, BoxTone::Here);
    assert_eq!(map.landing.meta, "184,320 B · deletes 08-19");
    assert_eq!(map.landing.sub, "as the caller wrote it · transient, 8 days");
    assert_eq!(map.e2.tone, EdgeTone::Waiting);
    assert_eq!(map.e2.note, "waiting on reference");
    assert_eq!(map.raw.tag, "no address");
    assert_eq!(map.end.tag, "not an archive");
    assert_eq!(map.source, "NEO");
    assert!(!map.curated.built);
    assert_eq!(map.curated.note, "does not exist yet");
    assert_eq!(map.rejected.note, "failed validation · not taken");
}

#[test]
fn a_stalled_walk_ends_the_map_in_red() {
    let t = half_extracted();
    let steps = vec![step(StepId::Extracted, "Extracted", Status::Stalled, Some(Prov::Checked))];
    let map = transit_map(&t, t.root.as_ref().unwrap(), &steps, now());
    assert_eq!(map.end.tone, BoxTone::Bad);
    assert_eq!(map.end.tag, "1 of 3 written");
    assert_eq!(map.end.sub, "2 not reached · deepest level 0 of 2");
    assert_eq!(map.end.meta, "604 B");
    assert_eq!(map.e3.note, "no progress · 43m 04s");
    assert_eq!(map.raw.sub, "root is here; members beside it");
    assert_eq!(map.e3.tone, EdgeTone::Stalled);
}
