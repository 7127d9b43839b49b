use dev_monitor::fleet_view::{
    dead_badge, dead_letters, home, num, paginate, percentile, queue, references, sorted, stable_order, stuck, text, timing, toggle, Sort,
    SortKey, Sortable, PAGE_SIZE,
};
use dev_monitor::model::{DeadLetters, DeadMessage, Doc, Env, Expected, ExpectedEntry, Overview, RefPointer, SourceCfg, StuckRoot, Timing};
use dev_monitor::trace_view::Tone;

#[derive(Clone, Debug, PartialEq)]
struct Row(Option<i64>);

impl Sortable for Row {
    fn sort_key(&self, _: usize) -> SortKey {
        num(self.0)
    }
}

#[test]
fn sorting_flips_direction_and_keeps_unknowns_last() {
    let rows = vec![Row(Some(2)), Row(None), Row(Some(1)), Row(Some(3))];
    let asc = toggle(None, 0);
    assert_eq!(sorted(&rows, Some(asc)), vec![Row(Some(1)), Row(Some(2)), Row(Some(3)), Row(None)]);
    let desc = toggle(Some(asc), 0);
    assert!(!desc.ascending);
    assert_eq!(sorted(&rows, Some(desc)), vec![Row(Some(3)), Row(Some(2)), Row(Some(1)), Row(None)]);
    assert!(toggle(Some(desc), 1).ascending, "a new column starts ascending");
    assert_eq!(sorted(&rows, None), rows, "no sort keeps the derived order");
}

#[test]
fn pages_hold_fifty_rows_and_clamp_past_the_end() {
    let rows: Vec<usize> = (0..120).collect();
    let third = paginate(&rows, 2);
    assert_eq!((third.rows.len(), third.page, third.pages, third.total, third.rows[0]), (20, 2, 3, 120, 100));
    assert_eq!(paginate(&rows, 9).page, 2);
    assert_eq!(paginate::<usize>(&[], 0).pages, 1);
    assert_eq!(paginate(&rows[..50], 0).pages, 1);
    assert_eq!(PAGE_SIZE, 50);
}

#[derive(Clone, Debug, PartialEq)]
struct Label(&'static str);

impl Sortable for Label {
    fn sort_key(&self, _: usize) -> SortKey {
        text(self.0)
    }
}

struct Mixed(SortKey);

impl Clone for Mixed {
    fn clone(&self) -> Self {
        Mixed(self.0.clone())
    }
}

impl Sortable for Mixed {
    fn sort_key(&self, _: usize) -> SortKey {
        self.0.clone()
    }
}

#[test]
fn text_sorts_case_insensitively_and_numbers_before_text() {
    let rows = vec![Label("beta"), Label("Alpha"), Label("—"), Label("gamma")];
    let asc = sorted(&rows, Some(Sort { column: 0, ascending: true }));
    assert_eq!(asc, vec![Label("Alpha"), Label("beta"), Label("gamma"), Label("—")]);
    let mixed = sorted(&[Mixed(SortKey::Text("C".into())), Mixed(SortKey::Num(9))], Some(Sort { column: 0, ascending: true }));
    assert_eq!(mixed[0].0, SortKey::Num(9));
}

#[test]
fn nearest_rank_percentiles() {
    let d: Vec<i64> = (1..=20).collect();
    assert_eq!(percentile(&d, 50, 100), Some(10));
    assert_eq!(percentile(&d, 95, 100), Some(19));
    assert_eq!(percentile(&[], 1, 2), None);
}

#[test]
fn equal_keys_keep_their_order_in_both_directions() {
    let keys = vec![SortKey::Num(1), SortKey::Missing, SortKey::Num(1), SortKey::Num(0)];
    assert_eq!(stable_order(&keys, true), vec![3, 0, 2, 1]);
    assert_eq!(stable_order(&keys, false), vec![0, 2, 3, 1]);
}

#[test]
fn blank_text_and_a_dash_are_unknown() {
    assert_eq!(text(""), SortKey::Missing);
    assert_eq!(text("—"), SortKey::Missing);
    assert_eq!(text("x"), SortKey::Text("x".into()));
    assert_eq!(num(None), SortKey::Missing);
}

fn t(s: &str) -> i64 {
    dev_monitor::format::parse(s).unwrap()
}

fn parked_doc(key: &str, since: &str, uploaded: &str) -> Doc {
    Doc {
        document_id: format!("id-{key}"),
        business_key: key.into(),
        source_system: "NEO".into(),
        state: "PendingMetadata".into(),
        pending_since: Some(since.into()),
        uploaded_at: Some(uploaded.into()),
        pending_attempts: Some(2),
        pending_key: Some(format!("NEO/{key}")),
        ..Default::default()
    }
}

fn overview() -> Overview {
    Overview {
        env: Env { name: "dev".into(), landing_retention_days: 8, pending_max_days: 5, ..Default::default() },
        checked_at: "2026-08-14T09:00:00Z".into(),
        catalog_rows: 12,
        audit_rows: 40,
        parked: vec![
            parked_doc("young", "2026-08-14T04:41:00Z", "2026-08-14T04:41:00Z"),
            parked_doc("old", "2026-08-08T01:04:00Z", "2026-08-08T01:04:00Z"),
        ],
        sources: vec![SourceCfg { source_system: "NEO".into(), reference_set: Some("mdr".into()), pending_max_days: Some(7) }],
        references: vec![RefPointer {
            reference_set_id: "mdr".into(),
            generation: Some(2),
            row_count: Some(9),
            built_at: Some("2026-08-14T02:00:00Z".into()),
            ..Default::default()
        }],
        ..Default::default()
    }
}

#[test]
fn the_queue_is_oldest_first_and_names_the_nearer_lifecycle_event() {
    let now = t("2026-08-14T09:00:00Z");
    let (kpis, rows) = queue(&overview(), now);
    assert_eq!(rows[0].key, "old");
    // The 7-day expiry (08-15 01:04) comes before the 8-day landing delete (08-16 01:04).
    assert_eq!(rows[0].lifecycle, "quarantines 16h");
    assert!(rows[0].hot);
    assert_eq!(rows[1].lifecycle, "quarantines 6d");
    assert!(!rows[1].hot);
    assert_eq!(kpis[0].value, "2");
    assert_eq!(kpis[1].value, "6d 07h");
    // The old document's landing copy deletes in 40h, inside the window.
    assert_eq!(kpis[2].value, "1");
    assert_eq!((kpis[3].value.as_str(), kpis[3].unit.as_str()), ("2", "7h 00m old"));
}

#[test]
fn a_source_without_a_pending_budget_only_counts_down_to_the_landing_delete() {
    let mut o = overview();
    o.sources[0].reference_set = None;
    o.sources[0].pending_max_days = None;
    let (_, rows) = queue(&o, t("2026-08-14T09:00:00Z"));
    assert_eq!(rows[0].lifecycle, "deletes 1d");
    assert!(rows[0].hot);
}

#[test]
fn an_overdue_event_is_hot_and_says_overdue() {
    let now = t("2026-08-20T09:00:00Z");
    let (_, rows) = queue(&overview(), now);
    assert_eq!(rows[0].lifecycle, "quarantines overdue 5d");
    assert!(rows[0].hot);
}

fn entry(p: &str, depth: u32, container: bool) -> ExpectedEntry {
    ExpectedEntry { path: p.into(), depth, container, ..Default::default() }
}

#[test]
fn stuck_rows_count_files_only_and_order_by_silence() {
    let now = t("2026-08-14T09:04:00Z");
    let root = |id: &str, last: &str, written: u64| StuckRoot {
        root: Doc { document_id: id.into(), revision_id: "00".into(), ..Default::default() },
        members_written: written,
        last_progress: Some(last.into()),
        deepest: Some(0),
        expected: Some(Expected {
            entries: vec![entry("a.pdf", 0, false), entry("b.zip", 0, true), entry("b.zip/c.pdf", 1, false)],
            error: None,
        }),
        replica: None,
    };
    let mut o = overview();
    o.stuck = vec![root("recent", "2026-08-14T09:00:00Z", 1), root("silent", "2026-08-14T06:46:00Z", 1)];
    let rows = stuck(&o, now);
    assert_eq!(rows[0].document_id, "silent");
    assert_eq!(rows[0].written, "1 / 2");
    assert_eq!(rows[0].pct, Some(50));
    assert_eq!(rows[0].depth, "level 0 of 1");
    assert_eq!(rows[0].last, "2h 18m ago");
    assert!(rows[0].stalled);
    assert!(!rows[1].stalled, "4 minutes of quiet is not a stall");
    assert_eq!(rows[1].replica, "unknown");
}

#[test]
fn the_parked_queue_sorts_by_waiting_time() {
    let (_, rows) = queue(&overview(), t("2026-08-14T09:00:00Z"));
    let longest_first = sorted(&rows, Some(Sort { column: 3, ascending: false }));
    assert_eq!(longest_first[0].key, "old");
    let shortest_first = sorted(&rows, Some(Sort { column: 3, ascending: true }));
    assert_eq!(shortest_first[0].key, "young");
}

#[test]
fn built_at_and_age_sort_in_opposite_directions() {
    let mut o = overview();
    o.references.push(RefPointer {
        reference_set_id: "old".into(),
        generation: Some(1),
        built_at: Some("2026-08-01T00:00:00Z".into()),
        ..Default::default()
    });
    let rows = references(&o, t("2026-08-14T09:00:00Z"));
    let by_built = sorted(&rows, Some(Sort { column: 2, ascending: true }));
    let by_age = sorted(&rows, Some(Sort { column: 3, ascending: true }));
    assert_eq!(by_built[0].set_id, "old", "oldest build first");
    assert_eq!(by_age[0].set_id, "mdr", "youngest first");
}

#[test]
fn deepest_level_sorts_as_a_number_not_as_text() {
    let root = |id: &str, deepest: u32| StuckRoot {
        root: Doc { document_id: id.into(), revision_id: "10".into(), ..Default::default() },
        deepest: Some(deepest),
        last_progress: Some("2026-08-14T08:00:00Z".into()),
        ..Default::default()
    };
    let mut o = overview();
    o.stuck = vec![root("ten", 10), root("two", 2)];
    let rows = stuck(&o, t("2026-08-14T09:00:00Z"));
    assert_eq!(sorted(&rows, Some(Sort { column: 3, ascending: true }))[0].document_id, "two");
    assert_eq!(rows[0].sort_key(1), SortKey::Num(10), "a numeric revision sorts as a number");
}

#[test]
fn timing_ignores_members_and_counts_documents_in_step() {
    let now = t("2026-08-14T09:00:00Z");
    let promoted = |id: &str, root_guid: &str, mins: i64| Doc {
        document_id: id.into(),
        file_guid: id.into(),
        root_file_guid: root_guid.into(),
        state: "Dispatched".into(),
        uploaded_at: Some("2026-08-14T08:00:00Z".into()),
        promoted_at: Some(dev_monitor::format::full(t("2026-08-14T08:00:00Z") + mins * 60_000).replace(' ', "T")),
        ..Default::default()
    };
    let parked = Doc { state: "PendingMetadata".into(), pending_since: Some("2026-08-13T09:00:00Z".into()), ..Default::default() };
    let timing_input = Timing {
        docs: vec![promoted("a", "", 2), promoted("b", "", 4), promoted("m", "root", 500), parked],
        ..Default::default()
    };
    let rows = timing(&timing_input, now);
    let gate = rows.iter().find(|r| r.step == "Gate: uploaded → promoted").unwrap();
    assert_eq!((gate.samples, gate.p50.as_str(), gate.p95.as_str()), (2, "2m 00s", "4m 00s"));
    let reference = rows.iter().find(|r| r.step == "Waiting on reference").unwrap();
    assert_eq!((reference.in_step, reference.oldest.as_str()), (1, "1d 00h"));
}

#[test]
fn dead_letters_resolve_documents_and_flag_landing_deletes() {
    let now = t("2026-08-14T09:00:00Z");
    let d = DeadLetters {
        env: Env { landing_retention_days: 8, ..Default::default() },
        messages: vec![DeadMessage {
            queue: "landing-created".into(),
            enqueued_at: Some("2026-08-07T10:00:00Z".into()),
            delivery_count: Some(10),
            reason: Some("MaxDeliveryCountExceeded".into()),
            document_id: Some("D1".into()),
            ..Default::default()
        }],
        docs: vec![Doc {
            document_id: "D1".into(),
            business_key: "001-x".into(),
            uploaded_at: Some("2026-08-07T09:59:00Z".into()),
            ..Default::default()
        }],
        ..Default::default()
    };
    let rows = dead_letters(&d, now);
    assert_eq!(rows[0].key, "001-x");
    assert_eq!(rows[0].landing_deletes, "deletes 1d");
    assert!(rows[0].hot);
    assert_eq!(rows[0].retry, "10 deliveries · MaxDeliveryCountExceeded");
}

#[test]
fn an_empty_catalog_is_reported_as_nothing_to_trace() {
    let mut o = overview();
    o.catalog_rows = 0;
    o.audit_rows = 1;
    let h = home(&o, t("2026-08-14T09:00:00Z"));
    assert!(h.empty);
    assert_eq!(h.headline, "DEV has nothing to trace yet");
    assert!(h.body.starts_with("1 audit row and 0 catalog rows as of 2026-08-14 09:00:00Z"));
}

#[test]
fn a_stale_pointer_warns_and_counts_who_waits_on_it() {
    let rows = references(&overview(), t("2026-08-16T09:00:00Z"));
    assert_eq!(rows[0].waiting, 2);
    assert_eq!(rows[0].tone, Tone::Warn);
}

#[test]
fn a_fresh_pointer_names_its_readers() {
    let mut o = overview();
    o.sources.push(SourceCfg { source_system: "PACE".into(), reference_set: Some("mdr".into()), pending_max_days: None });
    let rows = references(&o, t("2026-08-14T09:00:00Z"));
    assert_eq!(rows[0].tone, Tone::Good);
    assert_eq!(rows[0].note, "Read by NEO, PACE.");
    assert_eq!((rows[0].generation.as_str(), rows[0].rows.as_str(), rows[0].age.as_str()), ("2", "9", "7h 00m"));
    assert_eq!(rows[0].built_at, "2026-08-14 02:00:00Z");
    assert_eq!(rows[0].age_secs, Some(7 * 3600));
}

#[test]
fn an_unreadable_pointer_is_bad_and_a_missing_one_is_info() {
    let mut o = overview();
    o.references[0].error = Some("403 Forbidden".into());
    let (kpis, _) = queue(&o, t("2026-08-14T09:00:00Z"));
    assert_eq!((kpis[3].value.as_str(), kpis[3].unit.as_str(), kpis[3].tone), ("—", "pointer unreadable", Tone::Bad));
    assert_eq!(references(&o, t("2026-08-14T09:00:00Z"))[0].note, "403 Forbidden");
    o.references.clear();
    let (kpis, _) = queue(&o, t("2026-08-14T09:00:00Z"));
    assert_eq!((kpis[3].unit.as_str(), kpis[3].tone), ("no reference set", Tone::Info));
}

#[test]
fn the_busiest_reference_set_heads_the_queue_and_ties_go_to_the_first_name() {
    let mut o = overview();
    o.sources = vec![
        SourceCfg { source_system: "NEO".into(), reference_set: Some("zeta".into()), pending_max_days: None },
        SourceCfg { source_system: "PACE".into(), reference_set: Some("alpha".into()), pending_max_days: None },
    ];
    o.parked[1].source_system = "PACE".into();
    o.references = vec![
        RefPointer { reference_set_id: "zeta".into(), generation: Some(5), ..Default::default() },
        RefPointer { reference_set_id: "alpha".into(), generation: Some(7), ..Default::default() },
    ];
    let (kpis, _) = queue(&o, t("2026-08-14T09:00:00Z"));
    assert_eq!((kpis[3].value.as_str(), kpis[3].unit.as_str()), ("7", "built at unknown"));
    o.parked[1].source_system = "NEO".into();
    let (kpis, _) = queue(&o, t("2026-08-14T09:00:00Z"));
    assert_eq!(kpis[3].value, "5");
}

#[test]
fn a_promoted_document_is_safe_and_a_past_delete_says_how_long_ago() {
    let now = t("2026-08-20T09:00:00Z");
    let msg = |id: &str| DeadMessage {
        queue: "q".into(),
        enqueued_at: Some("2026-08-07T10:00:00Z".into()),
        delivery_count: Some(1),
        document_id: Some(id.into()),
        ..Default::default()
    };
    let d = DeadLetters {
        env: Env { landing_retention_days: 8, ..Default::default() },
        messages: vec![msg("P"), msg("L")],
        docs: vec![
            Doc { document_id: "P".into(), uploaded_at: Some("2026-08-07T09:00:00Z".into()), promoted_at: Some("2026-08-07T09:05:00Z".into()), ..Default::default() },
            Doc { document_id: "L".into(), uploaded_at: Some("2026-08-07T09:00:00Z".into()), ..Default::default() },
        ],
        ..Default::default()
    };
    let rows = dead_letters(&d, now);
    assert_eq!(rows[0].landing_deletes, "promoted · safe");
    assert!(!rows[0].hot);
    assert_eq!(rows[0].retry, "1 delivery");
    assert_eq!(rows[1].landing_deletes, "deleted 5d 00h ago");
    assert!(rows[1].hot);
    let unknown = DeadLetters { messages: vec![DeadMessage { sequence: Some(42), ..Default::default() }], ..Default::default() };
    assert_eq!(dead_letters(&unknown, now)[0].key, "message #42");
}

#[test]
fn a_populated_catalog_reads_as_today() {
    let mut o = overview();
    o.env.cosmos_account = "acct".into();
    o.env.cosmos_db = "cdw".into();
    let h = home(&o, t("2026-08-14T09:00:00Z"));
    assert!(!h.empty);
    assert_eq!(h.headline, "DEV as it is today");
    assert_eq!(h.body, "12 catalog rows and 40 audit rows as of 2026-08-14 09:00:00Z. Every figure below was read just now, read-only.");
    assert_eq!(h.facts[2], ("Parked on metadata".to_string(), "2".to_string()));
    assert_eq!(h.facts[8], ("Cosmos".to_string(), "acct/cdw".to_string()));
    assert_eq!(h.facts.len(), 10);
}

fn queue_with(count: Option<u64>) -> dev_monitor::model::QueueState {
    dev_monitor::model::QueueState { name: "q".into(), dead_letter_count: count, ..Default::default() }
}

#[test]
fn the_dead_letter_badge_counts_the_queues_when_each_reported() {
    let mut d = DeadLetters::default();
    d.queues = vec![queue_with(Some(3)), queue_with(Some(4))];
    d.messages = vec![DeadMessage::default()];
    d.event_grid = vec![Default::default(), Default::default()];
    assert_eq!(dead_badge(&d), 3 + 4 + 2);
}

#[test]
fn an_unreported_queue_count_falls_back_to_the_messages_peeked() {
    let mut d = DeadLetters::default();
    d.queues = vec![queue_with(Some(3)), queue_with(None), queue_with(Some(9))];
    d.messages = vec![DeadMessage::default(), DeadMessage::default()];
    d.event_grid = vec![Default::default()];
    assert_eq!(dead_badge(&d), 2 + 1);
    assert_eq!(dead_badge(&DeadLetters::default()), 0);
}
