//! The log timeline of a trace: audit entries and log lines, grouped by
//! the part of the pipeline they speak of.

use vstd::prelude::*;
use crate::fleet_view::{is_stable_order, order_by_text, Rank};
use crate::format::{
    day_clock, fits_calendar, in_calendar, parse, parse_opt, parse_spec, span, span_spec, utc_text, whole_seconds,
    CALENDAR_FIRST_MS, CALENDAR_LAST_MS, DASH,
};
use crate::model::{AuditRow, BlobCheck, LogRow, Trace};
use crate::text::{chars_of, dec, dec_of, lit, push_all, str_eq, string_of};
use crate::trace_card::checked_time;
use crate::trace_steps::{cat2, cat3, has_prerequisite, is_event, opt_piece, pending, replica_in, text_opt};
use crate::trace_view::{
    audit_text, audit_text_spec, group_of_event, group_of_event_spec, group_of_log, group_of_log_spec, log_kind,
    find, log_kind_spec, Gap, GroupId, LogEntry, LogGroup, LogKind, Prov, Status, Step, StepId, Tree, TreeRow,
};
use crate::model::Doc;
use crate::transit::{opt_instant, prov_of, status_of};

verus! {

/// A log entry as values.
pub open spec fn entry_view(e: LogEntry) -> (Seq<char>, LogKind, Seq<char>) {
    (e.at@, e.kind, e.text@)
}

/// A timestamp as a day and clock time, or a dash.
pub open spec fn day_clock_or_dash(at: Seq<char>) -> Seq<char> {
    match parse_spec(at) {
        Some(ms) => if in_calendar(ms) {
            utc_text(ms, "%m-%d %H:%M:%SZ"@)
        } else {
            DASH@
        },
        None => DASH@,
    }
}

fn day_clock_or_dash_of(at: &str) -> (r: String)
    ensures
        r@ == day_clock_or_dash(at@),
{
    match parse(at) {
        Some(ms) => if fits_calendar(ms) {
            day_clock(ms)
        } else {
            DASH.to_owned()
        },
        None => DASH.to_owned(),
    }
}

/// A log line's text: its message, tagged with its replica, else its category.
pub open spec fn log_text(row: LogRow) -> Seq<char> {
    match row.replica {
        Some(r) => "["@ + r@ + "] "@ + row.message@,
        None => if row.category@.len() > 0 {
            "["@ + row.category@ + "] "@ + row.message@
        } else {
            row.message@
        },
    }
}

/// The audit entries filed in a group, each with the text it sorts by.
pub open spec fn audit_items(audit: Seq<AuditRow>, g: GroupId) -> Seq<(Seq<char>, (Seq<char>, LogKind, Seq<char>))>
    decreases audit.len(),
{
    if audit.len() == 0 {
        seq![]
    } else {
        let a = audit.last();
        audit_items(audit.drop_last(), g) + if group_of_event_spec(a.event_type@, a.detail@) == g {
            seq![(a.occurred_at@, (day_clock_or_dash(a.occurred_at@), LogKind::Audit, audit_text_spec(a)))]
        } else {
            seq![]
        }
    }
}

/// The log lines filed in a group, each with the text it sorts by.
pub open spec fn log_items(rows: Seq<LogRow>, g: GroupId) -> Seq<(Seq<char>, (Seq<char>, LogKind, Seq<char>))>
    decreases rows.len(),
{
    if rows.len() == 0 {
        seq![]
    } else {
        let r = rows.last();
        log_items(rows.drop_last(), g) + if group_of_log_spec(r.source@, r.category@) == g {
            seq![(r.at@, (day_clock_or_dash(r.at@), log_kind_spec(r.level@), log_text(r)))]
        } else {
            seq![]
        }
    }
}

/// Everything filed in a group, audit entries first, before sorting.
pub open spec fn bucket(t: Trace, g: GroupId) -> Seq<(Seq<char>, (Seq<char>, LogKind, Seq<char>))> {
    audit_items(t.audit@, g) + log_items(t.logs.entries@, g)
}

pub open spec fn bucket_keys(t: Trace, g: GroupId) -> Seq<Rank> {
    bucket(t, g).map_values(|x: (Seq<char>, (Seq<char>, LogKind, Seq<char>))| Rank::Text(x.0))
}

pub open spec fn group_label(g: GroupId) -> Seq<char> {
    match g {
        GroupId::Admitted => "Received + admitted"@,
        GroupId::Reference => "Reference lookup"@,
        GroupId::Promotion => "Promotion + dispatch"@,
        GroupId::Extraction => "Extraction"@,
        GroupId::Lifecycle => "Lifecycle sweep"@,
        GroupId::Other => "Other"@,
    }
}

/// What an empty group says, and its lag column.
pub open spec fn quiet_text(t: Trace, root: Doc, g: GroupId) -> (Seq<char>, Seq<char>) {
    match g {
        GroupId::Promotion => (
            "No log or audit entry exists for this step. Promotion is never recorded — it is read from the catalog."@,
            "no entries"@,
        ),
        GroupId::Extraction => if !t.is_archive {
            ("Skipped — not an archive."@, "not run"@)
        } else {
            ("No extraction entry was found for this archive."@, "no entries"@)
        },
        GroupId::Reference => if !has_prerequisite(t, root) {
            ("Skipped — this source has no metadata prerequisite."@, "not run"@)
        } else {
            ("No reference entry was found for this document."@, "no entries"@)
        },
        _ => ("No upload or validation entry was found for this document."@, "no entries"@),
    }
}

/// How far App Insights lags, when it said.
pub open spec fn lag_label(t: Trace) -> Seq<char> {
    if !t.logs.available {
        "logs unavailable"@
    } else {
        match t.logs.lag_millis {
            Some(l) => span_spec(whole_seconds(l as int)),
            None => "lag unknown"@,
        }
    }
}

/// As of when the log entries are current.
pub open spec fn logs_as_of(t: Trace, now: i64) -> Seq<char> {
    let checked = match opt_instant(t.logs.checked_at) {
        Some(x) => x,
        None => checked_time(t, now),
    };
    let at = checked - match t.logs.lag_millis {
        Some(l) => l as int,
        None => 0,
    };
    if !t.logs.available {
        DASH@
    } else if CALENDAR_FIRST_MS <= at <= CALENDAR_LAST_MS {
        utc_text(at as i64, "%m-%d %H:%M:%SZ"@)
    } else {
        DASH@
    }
}

/// The note above the log timeline: how current it is.
pub open spec fn log_note(t: Trace) -> Seq<char> {
    if t.logs.available {
        match t.logs.lag_millis {
            Some(l) => "App Insights is "@ + span_spec(whole_seconds(l as int))
                + " behind. State and timeline above are current; these log entries are not, and each group carries its own as of."@,
            None => "App Insights reported no recent ingestion to measure its lag against, so how current these entries are is unknown. State and timeline above are current."@,
        }
    } else {
        "Logs could not be read"@ + opt_piece(": "@, text_opt(t.logs.reason))
            + ". State, zones and audit entries are still current; only log lines are missing."@
    }
}

/// A group shown even when empty, or only when it holds something.
pub open spec fn always_shown(g: GroupId) -> bool {
    g != GroupId::Lifecycle && g != GroupId::Other
}

pub open spec fn plan() -> Seq<GroupId> {
    seq![
        GroupId::Admitted,
        GroupId::Reference,
        GroupId::Promotion,
        GroupId::Extraction,
        GroupId::Lifecycle,
        GroupId::Other,
    ]
}

/// The groups the timeline shows, in plan order.
pub open spec fn shown_groups(t: Trace, gs: Seq<GroupId>) -> Seq<GroupId>
    decreases gs.len(),
{
    if gs.len() == 0 {
        seq![]
    } else {
        shown_groups(t, gs.drop_last()) + if always_shown(gs.last()) || bucket(t, gs.last()).len() > 0 {
            seq![gs.last()]
        } else {
            seq![]
        }
    }
}

/// One group of the timeline.
pub open spec fn group_ok(gr: LogGroup, g: GroupId, t: Trace, root: Doc, now: i64) -> bool {
    let b = bucket(t, g);
    &&& gr.id == g
    &&& gr.label@ == group_label(g)
    &&& if b.len() == 0 {
        &&& gr.as_of@ == DASH@
        &&& gr.lag@ == quiet_text(t, root, g).1
        &&& gr.quiet
        &&& gr.entries@.map_values(|e: LogEntry| entry_view(e)) == seq![(DASH@, LogKind::Blank, quiet_text(t, root, g).0)]
    } else {
        &&& gr.as_of@ == logs_as_of(t, now)
        &&& gr.lag@ == lag_label(t)
        &&& gr.quiet == !t.logs.available
        &&& exists|order: Seq<int>|
            #[trigger] is_stable_order(bucket_keys(t, g), true, order) && gr.entries@.map_values(|e: LogEntry| entry_view(e))
                == order.map_values(|k: int| b[k].1)
    }
}

fn log_text_of(row: &LogRow) -> (r: String)
    ensures
        r@ == log_text(*row),
{
    match &row.replica {
        Some(r) => {
            let mut v = lit("[");
            push_all(&mut v, &chars_of(r.as_str()));
            push_all(&mut v, &lit("] "));
            push_all(&mut v, &chars_of(row.message.as_str()));
            string_of(v.as_slice())
        },
        None => if !row.category.as_str().is_empty() {
            let mut v = lit("[");
            push_all(&mut v, &chars_of(row.category.as_str()));
            push_all(&mut v, &lit("] "));
            push_all(&mut v, &chars_of(row.message.as_str()));
            string_of(v.as_slice())
        } else {
            row.message.clone()
        },
    }
}

pub open spec fn item_views(keys: Seq<Vec<char>>, items: Seq<LogEntry>) -> Seq<(Seq<char>, (Seq<char>, LogKind, Seq<char>))> {
    Seq::new(keys.len(), |i: int| (keys[i]@, entry_view(items[i])))
}

/// The entries filed in a group, with their sort texts, before sorting.
fn collect(t: &Trace, g: GroupId) -> (r: (Vec<Vec<char>>, Vec<LogEntry>))
    ensures
        r.0@.len() == r.1@.len(),
        item_views(r.0@, r.1@) == bucket(*t, g),
{
    let mut keys: Vec<Vec<char>> = Vec::new();
    let mut items: Vec<LogEntry> = Vec::new();
    let mut i: usize = 0;
    while i < t.audit.len()
        invariant
            i <= t.audit@.len(),
            keys@.len() == items@.len(),
            item_views(keys@, items@) == audit_items(t.audit@.take(i as int), g),
        decreases t.audit@.len() - i,
    {
        proof {
            assert(t.audit@.take(i + 1).drop_last() =~= t.audit@.take(i as int));
            assert(t.audit@.take(i + 1).last() == t.audit@[i as int]);
        }
        let a = &t.audit[i];
        if group_of_event(a) == g {
            keys.push(chars_of(a.occurred_at.as_str()));
            items.push(LogEntry { at: day_clock_or_dash_of(a.occurred_at.as_str()), kind: LogKind::Audit, text: audit_text(a) });
        }
        proof {
            assert(item_views(keys@, items@) =~= audit_items(t.audit@.take(i + 1), g));
        }
        i += 1;
    }
    proof {
        assert(t.audit@.take(i as int) =~= t.audit@);
    }
    let ghost head = audit_items(t.audit@, g);
    let mut j: usize = 0;
    while j < t.logs.entries.len()
        invariant
            j <= t.logs.entries@.len(),
            keys@.len() == items@.len(),
            item_views(keys@, items@) == head + log_items(t.logs.entries@.take(j as int), g),
        decreases t.logs.entries@.len() - j,
    {
        proof {
            assert(t.logs.entries@.take(j + 1).drop_last() =~= t.logs.entries@.take(j as int));
            assert(t.logs.entries@.take(j + 1).last() == t.logs.entries@[j as int]);
        }
        let row = &t.logs.entries[j];
        let ghost prev = item_views(keys@, items@);
        let ghost extra: Seq<(Seq<char>, (Seq<char>, LogKind, Seq<char>))> = if group_of_log_spec(row.source@, row.category@) == g {
            seq![(row.at@, (day_clock_or_dash(row.at@), log_kind_spec(row.level@), log_text(*row)))]
        } else {
            seq![]
        };
        if group_of_log(row) == g {
            keys.push(chars_of(row.at.as_str()));
            items.push(LogEntry { at: day_clock_or_dash_of(row.at.as_str()), kind: log_kind(row.level.as_str()), text: log_text_of(row) });
        }
        proof {
            assert(item_views(keys@, items@) =~= prev + extra);
            assert(log_items(t.logs.entries@.take(j + 1), g) == log_items(t.logs.entries@.take(j as int), g) + extra);
            assert(head + log_items(t.logs.entries@.take(j + 1), g) =~= prev + extra);
        }
        j += 1;
    }
    proof {
        assert(t.logs.entries@.take(j as int) =~= t.logs.entries@);
    }
    (keys, items)
}

fn group_label_of(g: GroupId) -> (r: &'static str)
    ensures
        r@ == group_label(g),
{
    match g {
        GroupId::Admitted => "Received + admitted",
        GroupId::Reference => "Reference lookup",
        GroupId::Promotion => "Promotion + dispatch",
        GroupId::Extraction => "Extraction",
        GroupId::Lifecycle => "Lifecycle sweep",
        GroupId::Other => "Other",
    }
}

/// The timeline's note and its groups, in plan order: a group with nothing
/// in it says why, or is left out when nothing is expected there.
pub fn log_groups(t: &Trace, root: &Doc, now: i64) -> (r: (String, Vec<LogGroup>))
    ensures
        r.0@ == log_note(*t),
        r.1@.len() == shown_groups(*t, plan()).len(),
        forall|i: int| 0 <= i < r.1@.len() ==> group_ok(#[trigger] r.1@[i], shown_groups(*t, plan())[i], *t, *root, now),
{
    let logs = &t.logs;
    let note = if logs.available {
        match logs.lag_millis {
            Some(l) => {
                let mut v = lit("App Insights is ");
                push_all(&mut v, &chars_of(span(if l >= 0 { l / 1000 } else { -(l / -1000) }).as_str()));
                push_all(
                    &mut v,
                    &lit(" behind. State and timeline above are current; these log entries are not, and each group carries its own as of."),
                );
                string_of(v.as_slice())
            },
            None => "App Insights reported no recent ingestion to measure its lag against, so how current these entries are is unknown. State and timeline above are current.".to_owned(),
        }
    } else {
        let mut v = lit("Logs could not be read");
        match &logs.reason {
            Some(r) => {
                push_all(&mut v, &chars_of(cat2(": ", r.as_str()).as_str()));
            },
            None => {
                proof {
                    assert(v@ =~= v@ + seq![]);
                }
            },
        }
        push_all(&mut v, &lit(". State, zones and audit entries are still current; only log lines are missing."));
        string_of(v.as_slice())
    };
    let checked: i64 = match parse_opt(&logs.checked_at) {
        Some(x) => x,
        None => match parse(t.checked_at.as_str()) {
            Some(x) => x,
            None => now,
        },
    };
    let at: i128 = checked as i128 - match logs.lag_millis {
        Some(l) => l as i128,
        None => 0,
    };
    let as_of = if !logs.available {
        DASH.to_owned()
    } else if CALENDAR_FIRST_MS as i128 <= at && at <= CALENDAR_LAST_MS as i128 {
        day_clock(at as i64)
    } else {
        DASH.to_owned()
    };
    let lag = if !logs.available {
        "logs unavailable".to_owned()
    } else {
        match logs.lag_millis {
            Some(l) => span(if l >= 0 { l / 1000 } else { -(l / -1000) }),
            None => "lag unknown".to_owned(),
        }
    };
    let prerequisite = match &t.source {
        Some(src) => src.reference_set.is_some(),
        None => false,
    } || root.pending_since.is_some();
    let ids = [
        GroupId::Admitted,
        GroupId::Reference,
        GroupId::Promotion,
        GroupId::Extraction,
        GroupId::Lifecycle,
        GroupId::Other,
    ];
    proof {
        assert(ids@ =~= plan());
    }
    let mut groups: Vec<LogGroup> = Vec::new();
    let mut k: usize = 0;
    while k < 6
        invariant
            k <= 6,
            ids@ == plan(),
            as_of@ == logs_as_of(*t, now),
            lag@ == lag_label(*t),
            prerequisite == has_prerequisite(*t, *root),
            groups@.len() == shown_groups(*t, plan().take(k as int)).len(),
            forall|i: int|
                0 <= i < groups@.len() ==> group_ok(#[trigger] groups@[i], shown_groups(*t, plan().take(k as int))[i], *t, *root, now),
        decreases 6 - k,
    {
        let g = ids[k];
        proof {
            assert(plan().take(k + 1).drop_last() =~= plan().take(k as int));
            assert(plan().take(k + 1).last() == plan()[k as int]);
        }
        let ghost before = groups@;
        let (keys, items) = collect(t, g);
        if items.len() == 0 {
            let quiet: Option<(&str, &str)> = match g {
                GroupId::Promotion => Some(
                    (
                        "No log or audit entry exists for this step. Promotion is never recorded — it is read from the catalog.",
                        "no entries",
                    ),
                ),
                GroupId::Extraction => if !t.is_archive {
                    Some(("Skipped — not an archive.", "not run"))
                } else {
                    Some(("No extraction entry was found for this archive.", "no entries"))
                },
                GroupId::Reference => if !prerequisite {
                    Some(("Skipped — this source has no metadata prerequisite.", "not run"))
                } else {
                    Some(("No reference entry was found for this document.", "no entries"))
                },
                GroupId::Admitted => Some(("No upload or validation entry was found for this document.", "no entries")),
                _ => None,
            };
            match quiet {
                Some((text, lag_text)) => {
                    let entries = vec![LogEntry { at: DASH.to_owned(), kind: LogKind::Blank, text: text.to_owned() }];
                    proof {
                        assert(entries@.map_values(|e: LogEntry| entry_view(e)) =~= seq![(DASH@, LogKind::Blank, quiet_text(*t, *root, g).0)]);
                    }
                    groups.push(
                        LogGroup {
                            id: g,
                            label: group_label_of(g),
                            as_of: DASH.to_owned(),
                            lag: lag_text.to_owned(),
                            quiet: true,
                            entries,
                        },
                    );
                },
                None => {},
            }
        } else {
            let order = order_by_text(&keys);
            let ghost b = bucket(*t, g);
            proof {
                let kl = keys@.map_values(|k: Vec<char>| Rank::Text(k@));
                let kr = bucket_keys(*t, g);
                assert forall|x: int| 0 <= x < keys@.len() implies #[trigger] kl[x] == kr[x] by {
                    assert(item_views(keys@, items@)[x] == b[x]);
                }
                assert(kl =~= kr);
                assert forall|a: int| 0 <= a < order@.len() implies 0 <= #[trigger] order@[a] < items@.len() by {
                    assert(order@.map_values(|x: usize| x as int)[a] == order@[a] as int);
                }
            }
            let mut entries: Vec<LogEntry> = Vec::new();
            let mut m: usize = 0;
            while m < order.len()
                invariant
                    m <= order@.len(),
                    order@.len() == items@.len(),
                    keys@.len() == items@.len(),
                    item_views(keys@, items@) == b,
                    forall|a: int| 0 <= a < order@.len() ==> 0 <= #[trigger] order@[a] < items@.len(),
                    entries@.len() == m,
                    forall|a: int| 0 <= a < m ==> entry_view(#[trigger] entries@[a]) == b[order@[a] as int].1,
                decreases order@.len() - m,
            {
                let e = &items[order[m]];
                proof {
                    assert(item_views(keys@, items@)[order@[m as int] as int] == b[order@[m as int] as int]);
                }
                entries.push(LogEntry { at: e.at.clone(), kind: e.kind, text: e.text.clone() });
                m += 1;
            }
            proof {
                let ord = order@.map_values(|x: usize| x as int);
                let lhs = entries@.map_values(|e: LogEntry| entry_view(e));
                let rhs = ord.map_values(|x: int| b[x].1);
                assert forall|a: int| 0 <= a < ord.len() implies #[trigger] lhs[a] == rhs[a] by {
                    assert(ord[a] == order@[a] as int);
                }
                assert(lhs =~= rhs);
                assert(is_stable_order(bucket_keys(*t, g), true, ord));
            }
            groups.push(
                LogGroup {
                    id: g,
                    label: group_label_of(g),
                    as_of: as_of.clone(),
                    lag: lag.clone(),
                    quiet: !t.logs.available,
                    entries,
                },
            );
        }
        proof {
            assert(bucket(*t, g).len() == items@.len());
            let sg_prev = shown_groups(*t, plan().take(k as int));
            let sg = shown_groups(*t, plan().take(k + 1));
            assert(sg == sg_prev + (if always_shown(g) || bucket(*t, g).len() > 0 {
                seq![g]
            } else {
                seq![]
            }));
            assert forall|i: int| 0 <= i < groups@.len() implies group_ok(
                #[trigger] groups@[i],
                shown_groups(*t, plan().take(k + 1))[i],
                *t,
                *root,
                now,
            ) by {
                if i < before.len() {
                    assert(groups@[i] == before[i]);
                    assert(sg[i] == sg_prev[i]);
                    assert(group_ok(before[i], sg_prev[i], *t, *root, now));
                } else {
                    assert(sg[i] == g);
                }
            }
        }
        k += 1;
    }
    proof {
        assert(plan().take(6) =~= plan());
    }
    (note, groups)
}


/// Members the tree draws as expected but unwritten.
pub open spec fn unwritten(rows: Seq<TreeRow>) -> nat
    decreases rows.len(),
{
    if rows.len() == 0 {
        0
    } else {
        unwritten(rows.drop_last()) + if !rows.last().reached && !rows.last().container {
            1nat
        } else {
            0nat
        }
    }
}

/// How many audit entries of a kind the document has.
pub open spec fn event_count(audit: Seq<AuditRow>, root: Doc, name: Seq<char>) -> nat
    decreases audit.len(),
{
    if audit.len() == 0 {
        0
    } else {
        event_count(audit.drop_last(), root, name) + if is_event(audit.last(), root, name) {
            1nat
        } else {
            0nat
        }
    }
}

/// One gap per zone whose check could not run.
pub open spec fn blob_gaps(blobs: Seq<BlobCheck>) -> Seq<(Seq<char>, Seq<char>)>
    decreases blobs.len(),
{
    if blobs.len() == 0 {
        seq![]
    } else {
        blob_gaps(blobs.drop_last()) + match blobs.last().error {
            Some(e) => seq![("Whether "@ + blobs.last().zone@ + " holds an object is unknown"@, e@)],
            None => seq![],
        }
    }
}

pub open spec fn gap_if(c: bool, short: Seq<char>, why: Seq<char>) -> Seq<(Seq<char>, Seq<char>)> {
    if c {
        seq![(short, why)]
    } else {
        seq![]
    }
}

/// What this view cannot see, each with why, in a fixed order.
pub open spec fn gap_list(t: Trace, root: Doc, steps: Seq<Step>, tree: Option<Tree>) -> Seq<(Seq<char>, Seq<char>)> {
    let stalled = status_of(steps, StepId::Extracted) == Status::Stalled;
    let missing: nat = match tree {
        Some(tr) => unwritten(tr.rows@),
        None => 0,
    };
    let attempts: nat = match root.pending_attempts {
        Some(n) => n as nat,
        None => 0,
    };
    let recorded = event_count(t.audit@, root, "DocumentPendingMetadata"@) + event_count(
        t.audit@,
        root,
        "PendingMetadataResolved"@,
    );
    gap_if(
        stalled,
        "Why the walk stopped is not recorded anywhere"@,
        "There is no failure entry. The absence of progress in the catalog is the only signal, so the stall is inferred and the cause is unknown to this view."@,
    ) + gap_if(
        missing > 0,
        "The "@ + dec(missing) + " unwritten member"@ + (if missing == 1 {
            " is"@
        } else {
            "s are"@
        }) + " expected, not observed"@,
        "Member identity is a pure function of (documentId, revisionId, pathFromRoot), so the rows can be drawn before the walk runs. They are shown as expected and not reached, never as facts."@,
    ) + (match t.expected {
        Some(e) => match e.error {
            Some(err) => seq![("The archive's full member list could not be read"@, err@)],
            None => seq![],
        },
        None => seq![],
    }) + gap_if(
        stalled && replica_in(t.logs.entries@) is None,
        "Which Job replica ran the walk is unknown"@,
        "No console log line from the extraction Job names this document, so the replica cannot be identified."@,
    ) + gap_if(
        root.promoted_at is Some || pending(root),
        "Promotion is inferred: no DocumentPromoted audit event exists"@,
        "The landing → raw hop is deduced from catalog.promotedAt. This view marks it inferred rather than drawing it like a recorded hop."@,
    ) + gap_if(
        attempts > recorded && attempts > 1,
        dec((attempts - recorded) as nat) + " of "@ + dec(attempts) + " reference lookups are counted, not recorded"@,
        "The catalog keeps an attempt counter, but a re-check that still finds no row writes no audit entry, so the earlier timings are unknown."@,
    ) + gap_if(
        prov_of(steps, StepId::Received) == Some(Prov::Inferred),
        "The upload itself left no audit entry"@,
        "A session upload writes straight to landing; the arrival time comes from catalog.uploadedAt."@,
    ) + gap_if(
        status_of(steps, StepId::Curated) == Status::NotBuilt,
        "curated cannot be reported on — the zone does not exist"@,
        "Absence here means the zone is not built in this environment, not that this document is missing from it."@,
    ) + blob_gaps(t.blobs@) + gap_if(
        !t.logs.available,
        "Log lines could not be read"@,
        match t.logs.reason {
            Some(r) => r@,
            None => "Neither App Insights nor Log Analytics could be located for this environment."@,
        },
    ) + gap_if(
        t.is_archive && t.family@.len() > 0,
        "Member identity is read from the catalog, not the audit trail"@,
        "Each member carries its own documentId and fileGuid that no event reports, so member identity is a catalog fact rather than an observed one."@,
    )
}

pub open spec fn gaps_view(gs: Seq<Gap>) -> Seq<(Seq<char>, Seq<char>)> {
    gs.map_values(|g: Gap| (g.short@, g.why@))
}

fn push_gap_if(out: &mut Vec<Gap>, c: bool, short: String, why: String)
    ensures
        gaps_view(final(out)@) == gaps_view(old(out)@) + gap_if(c, short@, why@),
{
    let ghost before = out@;
    if c {
        out.push(Gap { short, why });
        proof {
            assert(gaps_view(out@) =~= gaps_view(before) + seq![(short@, why@)]);
        }
    } else {
        proof {
            assert(gaps_view(out@) =~= gaps_view(before) + seq![]);
        }
    }
}

fn unwritten_of(rows: &Vec<TreeRow>) -> (n: usize)
    ensures
        n == unwritten(rows@),
{
    let mut n: usize = 0;
    let mut i: usize = 0;
    while i < rows.len()
        invariant
            i <= rows@.len(),
            n == unwritten(rows@.take(i as int)),
            n <= i,
        decreases rows@.len() - i,
    {
        proof {
            assert(rows@.take(i + 1).drop_last() =~= rows@.take(i as int));
            assert(rows@.take(i + 1).last() == rows@[i as int]);
        }
        if !rows[i].reached && !rows[i].container {
            n += 1;
        }
        i += 1;
    }
    proof {
        assert(rows@.take(i as int) =~= rows@);
    }
    n
}

fn event_count_of(t: &Trace, root: &Doc, name: &str) -> (n: usize)
    ensures
        n == event_count(t.audit@, *root, name@),
{
    let mut n: usize = 0;
    let mut i: usize = 0;
    while i < t.audit.len()
        invariant
            i <= t.audit@.len(),
            n == event_count(t.audit@.take(i as int), *root, name@),
            n <= i,
        decreases t.audit@.len() - i,
    {
        proof {
            assert(t.audit@.take(i + 1).drop_last() =~= t.audit@.take(i as int));
            assert(t.audit@.take(i + 1).last() == t.audit@[i as int]);
        }
        if str_eq(t.audit[i].event_type.as_str(), name) && str_eq(t.audit[i].document_id.as_str(), root.document_id.as_str()) {
            n += 1;
        }
        i += 1;
    }
    proof {
        assert(t.audit@.take(i as int) =~= t.audit@);
    }
    n
}

fn has_replica(entries: &Vec<LogRow>) -> (b: bool)
    ensures
        b == (replica_in(entries@) is Some),
{
    let mut i: usize = entries.len();
    proof {
        assert(entries@.take(i as int) =~= entries@);
    }
    while i > 0
        invariant
            i <= entries@.len(),
            replica_in(entries@) == replica_in(entries@.take(i as int)),
        decreases i,
    {
        proof {
            assert(entries@.take(i as int).drop_last() =~= entries@.take(i - 1));
            assert(entries@.take(i as int).last() == entries@[i - 1]);
        }
        if entries[i - 1].replica.is_some() {
            return true;
        }
        i -= 1;
    }
    false
}

fn status_in(steps: &Vec<Step>, id: StepId) -> (r: (Status, Option<Prov>))
    ensures
        r.0 == status_of(steps@, id),
        r.1 == prov_of(steps@, id),
{
    let s = find(steps.as_slice(), id);
    (s.status, s.prov)
}

/// What this view cannot see of the trace, and why.
pub fn gaps(t: &Trace, root: &Doc, steps: &Vec<Step>, tree: &Option<Tree>) -> (out: Vec<Gap>)
    ensures
        gaps_view(out@) == gap_list(*t, *root, steps@, *tree),
{
    let mut out: Vec<Gap> = Vec::new();
    proof {
        assert(gaps_view(out@) =~= seq![]);
    }
    let stalled = status_in(steps, StepId::Extracted).0 == Status::Stalled;
    push_gap_if(
        &mut out,
        stalled,
        "Why the walk stopped is not recorded anywhere".to_owned(),
        "There is no failure entry. The absence of progress in the catalog is the only signal, so the stall is inferred and the cause is unknown to this view.".to_owned(),
    );
    let missing: usize = match tree {
        Some(tr) => unwritten_of(&tr.rows),
        None => 0,
    };
    let mut short = lit("The ");
    push_all(&mut short, &dec_of(missing as u128));
    push_all(&mut short, &lit(" unwritten member"));
    if missing == 1 {
        push_all(&mut short, &lit(" is"));
    } else {
        push_all(&mut short, &lit("s are"));
    }
    push_all(&mut short, &lit(" expected, not observed"));
    push_gap_if(
        &mut out,
        missing > 0,
        string_of(short.as_slice()),
        "Member identity is a pure function of (documentId, revisionId, pathFromRoot), so the rows can be drawn before the walk runs. They are shown as expected and not reached, never as facts.".to_owned(),
    );
    let listing_error: Option<String> = match &t.expected {
        Some(e) => e.error.clone(),
        None => None,
    };
    match listing_error {
        Some(err) => push_gap_if(&mut out, true, "The archive's full member list could not be read".to_owned(), err),
        None => {
            proof {
                assert(gaps_view(out@) =~= gaps_view(out@) + seq![]);
            }
        },
    }
    push_gap_if(
        &mut out,
        stalled && !has_replica(&t.logs.entries),
        "Which Job replica ran the walk is unknown".to_owned(),
        "No console log line from the extraction Job names this document, so the replica cannot be identified.".to_owned(),
    );
    push_gap_if(
        &mut out,
        root.promoted_at.is_some() || str_eq(root.state.as_str(), "PendingMetadata"),
        "Promotion is inferred: no DocumentPromoted audit event exists".to_owned(),
        "The landing → raw hop is deduced from catalog.promotedAt. This view marks it inferred rather than drawing it like a recorded hop.".to_owned(),
    );
    let attempts: u128 = match root.pending_attempts {
        Some(n) => n as u128,
        None => 0,
    };
    let recorded: u128 = event_count_of(t, root, "DocumentPendingMetadata") as u128 + event_count_of(
        t,
        root,
        "PendingMetadataResolved",
    ) as u128;
    let counted = attempts > recorded && attempts > 1;
    let mut short = dec_of(if counted { attempts - recorded } else { 0 });
    push_all(&mut short, &lit(" of "));
    push_all(&mut short, &dec_of(attempts));
    push_all(&mut short, &lit(" reference lookups are counted, not recorded"));
    push_gap_if(
        &mut out,
        counted,
        string_of(short.as_slice()),
        "The catalog keeps an attempt counter, but a re-check that still finds no row writes no audit entry, so the earlier timings are unknown.".to_owned(),
    );
    push_gap_if(
        &mut out,
        status_in(steps, StepId::Received).1 == Some(Prov::Inferred),
        "The upload itself left no audit entry".to_owned(),
        "A session upload writes straight to landing; the arrival time comes from catalog.uploadedAt.".to_owned(),
    );
    push_gap_if(
        &mut out,
        status_in(steps, StepId::Curated).0 == Status::NotBuilt,
        "curated cannot be reported on — the zone does not exist".to_owned(),
        "Absence here means the zone is not built in this environment, not that this document is missing from it.".to_owned(),
    );
    let ghost head = gaps_view(out@);
    let mut i: usize = 0;
    while i < t.blobs.len()
        invariant
            i <= t.blobs@.len(),
            gaps_view(out@) == head + blob_gaps(t.blobs@.take(i as int)),
        decreases t.blobs@.len() - i,
    {
        proof {
            assert(t.blobs@.take(i + 1).drop_last() =~= t.blobs@.take(i as int));
            assert(t.blobs@.take(i + 1).last() == t.blobs@[i as int]);
        }
        let b = &t.blobs[i];
        match &b.error {
            Some(e) => push_gap_if(&mut out, true, cat3("Whether ", b.zone.as_str(), " holds an object is unknown"), e.clone()),
            None => {},
        }
        proof {
            assert(gaps_view(out@) =~= head + blob_gaps(t.blobs@.take(i + 1)));
        }
        i += 1;
    }
    proof {
        assert(t.blobs@.take(i as int) =~= t.blobs@);
    }
    push_gap_if(
        &mut out,
        !t.logs.available,
        "Log lines could not be read".to_owned(),
        match &t.logs.reason {
            Some(r) => r.clone(),
            None => "Neither App Insights nor Log Analytics could be located for this environment.".to_owned(),
        },
    );
    push_gap_if(
        &mut out,
        t.is_archive && t.family.len() > 0,
        "Member identity is read from the catalog, not the audit trail".to_owned(),
        "Each member carries its own documentId and fileGuid that no event reports, so member identity is a catalog fact rather than an observed one.".to_owned(),
    );
    proof {
        let want = gap_list(*t, *root, steps@, *tree);
        assert(gaps_view(out@) =~= want);
    }
    out
}

} // verus!
