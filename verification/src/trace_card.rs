//! The cards at the top of the trace screen: the document, its lifecycle
//! in a sentence, its state in a sentence, and the one figure that matters now.

use vstd::prelude::*;
use crate::fleet_view::{secs_of, span_between};
use crate::format::{
    date, fits_calendar, full, in_calendar, parse, parse_opt, parse_spec, span, span_spec, until, until_spec,
    utc_text, whole_seconds, DASH,
};
use crate::model::{field_str, field_text, Doc, Trace};
use crate::text::{chars_of, dec, dec_of, dec_signed, lit, push_all, str_eq, string_of};
use crate::trace_steps::{
    cat2, cat3, expired_pending, expired_pending_of, extraction_is, extraction_is_of, extraction_stalled,
    extraction_stalled_of, facts_view, last_event, last_event_spec, num_text, opt_piece, or_dash_of, or_dash_text,
    pending, pending_max_days, pending_max_days_of, quarantine_reason, quarantine_reason_of, signed_text, state_is,
    text_opt,
};
use crate::trace_tree::{bytes_text, doc_size, written_count};
use crate::trace_view::{
    capitalise, capitalise_spec, fact, find, step_of, Header, Hero, Live, Prov, Status, Step, StepId, Tone,
};
use crate::transit::{
    expected_files, landing_deletes, landing_deletes_exec, last_progress, last_progress_exec, listing_of,
    members_of, opt_instant, present, present_exec, shifted, shifted_exec,
};

verus! {

/// Texts joined with a separator.
pub open spec fn joined_with(items: Seq<Seq<char>>, sep: Seq<char>) -> Seq<char>
    decreases items.len(),
{
    if items.len() == 0 {
        seq![]
    } else if items.len() == 1 {
        items[0]
    } else {
        joined_with(items.drop_last(), sep) + sep + items.last()
    }
}

pub(crate) fn join_with(items: &Vec<String>, sep: &str) -> (r: String)
    ensures
        r@ == joined_with(items@.map_values(|s: String| s@), sep@),
{
    let ghost all = items@.map_values(|s: String| s@);
    let mut r: Vec<char> = Vec::new();
    let mut i: usize = 0;
    while i < items.len()
        invariant
            i <= items@.len(),
            all == items@.map_values(|s: String| s@),
            r@ == joined_with(all.take(i as int), sep@),
        decreases items@.len() - i,
    {
        proof {
            assert(all.take(i + 1).drop_last() =~= all.take(i as int));
            assert(all.take(i + 1).last() == items@[i as int]@);
        }
        if i > 0 {
            push_all(&mut r, &lit(sep));
        } else {
            proof {
                assert(all.take(1)[0] == all.take(1).last());
            }
        }
        push_all(&mut r, &chars_of(items[i].as_str()));
        i += 1;
    }
    proof {
        assert(all.take(i as int) =~= all);
    }
    string_of(r.as_slice())
}

/// When the probe read the platform: its own time, else now.
pub open spec fn checked_time(t: Trace, now: i64) -> i64 {
    match parse_spec(t.checked_at@) {
        Some(x) => x,
        None => now,
    }
}

/// An instant in full, or a dash.
pub open spec fn full_or_dash(x: Option<i64>) -> Seq<char> {
    match x {
        Some(v) => if in_calendar(v) {
            utc_text(v, "%Y-%m-%d %H:%M:%SZ"@)
        } else {
            DASH@
        },
        None => DASH@,
    }
}

pub(crate) fn full_or_dash_of(x: Option<i64>) -> (r: String)
    ensures
        r@ == full_or_dash(x),
{
    match x {
        Some(v) => if fits_calendar(v) {
            full(v)
        } else {
            DASH.to_owned()
        },
        None => DASH.to_owned(),
    }
}

/// The state the header shows, and how it reads.
pub open spec fn header_state(t: Trace, root: Doc, now: i64) -> (Seq<char>, Status) {
    if extraction_is(root, "Extracting"@) {
        (
            "Extracting"@,
            if extraction_stalled(t, root, now) {
                Status::Stalled
            } else {
                Status::Waiting
            },
        )
    } else if extraction_is(root, "Extracted"@) {
        ("Extracted"@, Status::Done)
    } else if extraction_is(root, "ExtractionFailed"@) {
        ("ExtractionFailed"@, Status::Failed)
    } else {
        (
            root.state@,
            if state_is(root, "Registered"@) || state_is(root, "AwaitingUpload"@) || state_is(root, "Uploaded"@)
                || state_is(root, "PendingMetadata"@) {
                Status::Waiting
            } else if state_is(root, "Quarantined"@) || state_is(root, "Rejected"@) || state_is(root, "Failed"@)
                || state_is(root, "Expired"@) {
                Status::Failed
            } else if root.state@.len() == 0 {
                Status::Unknown
            } else {
                Status::Done
            },
        )
    }
}

/// The pieces under the document key: file, source, revision, size.
pub open spec fn sub_pieces(root: Doc) -> Seq<Seq<char>> {
    (if root.file_name@.len() > 0 {
        seq![root.file_name@]
    } else {
        seq![]
    }) + (if root.source_system@.len() > 0 {
        seq![root.source_system@]
    } else {
        seq![]
    }) + seq!["rev "@ + or_dash_text(root.revision_id@)] + match doc_size(root) {
        Some(n) => seq![bytes_text(n)],
        None => seq![],
    }
}

/// When the bytes were received: upload, else registration.
pub open spec fn received_at(root: Doc) -> Option<i64> {
    match opt_instant(root.uploaded_at) {
        Some(x) => Some(x),
        None => opt_instant(root.registered_at),
    }
}

/// The landing copy's fate, after a sentence about raw.
pub open spec fn landing_tail(t: Trace, root: Doc) -> Seq<char> {
    if present(t, "landing"@) && landing_deletes(t, root) is Some {
        " The landing copy is still present and will be deleted on "@ + utc_text(
            landing_deletes(t, root)->0,
            "%Y-%m-%d"@,
        ) + "."@
    } else {
        seq![]
    }
}

/// How many files the listing says the archive holds, in words.
pub open spec fn total_text(t: Trace) -> Seq<char> {
    match expected_files(t) {
        Some(n) => dec(n),
        None => "an unknown number of"@,
    }
}

/// When a parked document is quarantined if its metadata never resolves.
pub open spec fn expires_at(t: Trace, root: Doc) -> Option<i64> {
    match (opt_instant(root.pending_since), pending_max_days(t)) {
        (Some(s), Some(d)) => shifted(Some(s), d as int),
        _ => None,
    }
}

/// Where the document is in its lifecycle, in a sentence, and how that reads.
pub open spec fn lifecycle_spec(t: Trace, root: Doc, zone_at: Option<Seq<char>>, now: i64) -> (Seq<char>, Tone) {
    let written = written_count(t.family@);
    if state_is(root, "Quarantined"@) {
        if expired_pending(t, root) {
            (
                "In quarantine. Its metadata never resolved"@ + match pending_max_days(t) {
                    Some(d) => " within "@ + dec_signed(d as int) + " days"@,
                    None => seq![],
                } + ", so the sweeper expired it. Quarantine is terminal."@,
                Tone::Bad,
            )
        } else {
            (
                "In quarantine — refused by a rule"@ + opt_piece(": "@, quarantine_reason(t, root))
                    + ". Quarantine is terminal, not a later stage."@,
                Tone::Bad,
            )
        }
    } else if state_is(root, "Rejected"@) {
        (
            "Rejected at the validation gate"@ + opt_piece(
                ": "@,
                match last_event_spec(t, root, "UploadRejected"@) {
                    Some(a) => field_text(a.detail@, "reason"@),
                    None => None,
                },
            ) + ". Rejected is terminal."@,
            Tone::Bad,
        )
    } else if state_is(root, "Expired"@) {
        ("Expired: it was registered, but its bytes never arrived before the upload session ran out."@, Tone::Bad)
    } else if state_is(root, "Failed"@) {
        ("Failed. The catalog records no further progress for this document."@, Tone::Bad)
    } else if state_is(root, "Registered"@) || state_is(root, "AwaitingUpload"@) {
        ("Registered — its bytes have not arrived in landing yet."@, Tone::Warn)
    } else if state_is(root, "Uploaded"@) {
        ("In landing; the validation gate has not decided on it yet."@, Tone::Warn)
    } else if state_is(root, "PendingMetadata"@) {
        let in_landing = zone_at == Some("landing"@);
        let first = if in_landing && landing_deletes(t, root) is Some {
            let at = landing_deletes(t, root)->0;
            "Still in landing. Landing is transient — the lifecycle rule deletes this object on "@ + utc_text(
                at,
                "%Y-%m-%d"@,
            ) + ", "@ + until_spec(now as int, at as int) + "."@
        } else if in_landing {
            "Still in landing. Landing is transient."@
        } else {
            "Parked on metadata, but no landing object was found at the recorded address."@
        };
        let second = match expires_at(t, root) {
            Some(at) => " Unresolved, the sweeper quarantines it on "@ + utc_text(at, "%Y-%m-%d"@) + " ("@ + until_spec(
                now as int,
                at as int,
            ) + ")."@,
            None => " No pending budget applies to this source, so only the landing lifecycle ends the wait."@,
        };
        (
            first + second,
            if in_landing {
                Tone::Warn
            } else {
                Tone::Bad
            },
        )
    } else if extraction_is(root, "Extracting"@) && extraction_stalled(t, root, now) {
        (
            "In raw, stuck on Extracting. "@ + dec(written) + " of "@ + total_text(t) + " members written"@
                + match last_progress(t, root) {
                Some(p) => ", the last "@ + span_spec(whole_seconds(now - p)) + " ago"@,
                None => seq![],
            } + " and nothing has progressed since; no failure was reported."@,
            Tone::Bad,
        )
    } else if extraction_is(root, "Extracting"@) {
        ("In raw and extracting — "@ + dec(written) + " of "@ + total_text(t) + " members written so far."@, Tone::Warn)
    } else if extraction_is(root, "ExtractionFailed"@) {
        (
            "In raw, but extraction failed after "@ + dec(written)
                + " members. The root is quarantined for consumption; members written before the breach are inert."@,
            Tone::Bad,
        )
    } else if extraction_is(root, "Extracted"@) {
        ("In raw, with "@ + dec(written) + " members written back into raw beside it."@ + landing_tail(t, root), Tone::Good)
    } else if zone_at == Some("raw"@) {
        ("In raw, the source of truth for content."@ + landing_tail(t, root), Tone::Good)
    } else {
        ("State "@ + root.state@ + ", but no object was found in any zone it should occupy."@, Tone::Bad)
    }
}

fn landing_tail_of(t: &Trace, root: &Doc) -> (r: Vec<char>)
    ensures
        r@ == landing_tail(*t, *root),
{
    match landing_deletes_exec(t, root) {
        Some(at) => if present_exec(t, "landing") {
            let mut v = lit(" The landing copy is still present and will be deleted on ");
            push_all(&mut v, &chars_of(date(at).as_str()));
            push_all(&mut v, &lit("."));
            v
        } else {
            Vec::new()
        },
        None => Vec::new(),
    }
}

pub(crate) fn total_text_of(t: &Trace) -> (r: String)
    ensures
        r@ == total_text(*t),
{
    match listing_of(t).files {
        Some(n) => num_text(n as u64),
        None => "an unknown number of".to_owned(),
    }
}

fn lifecycle(t: &Trace, root: &Doc, zone_at: Option<&str>, now: i64) -> (r: (String, Tone))
    ensures
        r.0@ == lifecycle_spec(
            *t,
            *root,
            match zone_at {
                Some(z) => Some(z@),
                None => None,
            },
            now,
        ).0,
        r.1 == lifecycle_spec(
            *t,
            *root,
            match zone_at {
                Some(z) => Some(z@),
                None => None,
            },
            now,
        ).1,
{
    let st = root.state.as_str();
    let written = members_of(&t.family).written;
    if str_eq(st, "Quarantined") {
        if expired_pending_of(t, root) {
            let mut v = lit("In quarantine. Its metadata never resolved");
            match pending_max_days_of(t) {
                Some(d) => {
                    push_all(&mut v, &chars_of(cat3(" within ", signed_text(d).as_str(), " days").as_str()));
                },
                None => {
                    proof {
                        assert(v@ =~= v@ + seq![]);
                    }
                },
            }
            push_all(&mut v, &lit(", so the sweeper expired it. Quarantine is terminal."));
            return (string_of(v.as_slice()), Tone::Bad);
        }
        let mut v = lit("In quarantine — refused by a rule");
        match quarantine_reason_of(t, root) {
            Some(x) => {
                push_all(&mut v, &chars_of(cat2(": ", x.as_str()).as_str()));
            },
            None => {
                proof {
                    assert(v@ =~= v@ + seq![]);
                }
            },
        }
        push_all(&mut v, &lit(". Quarantine is terminal, not a later stage."));
        return (string_of(v.as_slice()), Tone::Bad);
    }
    if str_eq(st, "Rejected") {
        let reason = match last_event(t, root, "UploadRejected") {
            Some(a) => field_str(&a.detail, "reason"),
            None => None,
        };
        let mut v = lit("Rejected at the validation gate");
        match reason {
            Some(x) => {
                push_all(&mut v, &chars_of(cat2(": ", x.as_str()).as_str()));
            },
            None => {
                proof {
                    assert(v@ =~= v@ + seq![]);
                }
            },
        }
        push_all(&mut v, &lit(". Rejected is terminal."));
        return (string_of(v.as_slice()), Tone::Bad);
    }
    if str_eq(st, "Expired") {
        return (
            "Expired: it was registered, but its bytes never arrived before the upload session ran out.".to_owned(),
            Tone::Bad,
        );
    }
    if str_eq(st, "Failed") {
        return ("Failed. The catalog records no further progress for this document.".to_owned(), Tone::Bad);
    }
    if str_eq(st, "Registered") || str_eq(st, "AwaitingUpload") {
        return ("Registered — its bytes have not arrived in landing yet.".to_owned(), Tone::Warn);
    }
    if str_eq(st, "Uploaded") {
        return ("In landing; the validation gate has not decided on it yet.".to_owned(), Tone::Warn);
    }
    if str_eq(st, "PendingMetadata") {
        let in_landing = match zone_at {
            Some(z) => str_eq(z, "landing"),
            None => false,
        };
        let deletes = landing_deletes_exec(t, root);
        let mut v: Vec<char>;
        if in_landing && deletes.is_some() {
            let at = deletes.unwrap();
            v = lit("Still in landing. Landing is transient — the lifecycle rule deletes this object on ");
            push_all(&mut v, &chars_of(date(at).as_str()));
            push_all(&mut v, &lit(", "));
            push_all(&mut v, &chars_of(until(now, at).as_str()));
            push_all(&mut v, &lit("."));
        } else if in_landing {
            v = lit("Still in landing. Landing is transient.");
        } else {
            v = lit("Parked on metadata, but no landing object was found at the recorded address.");
        }
        let ghost first = v@;
        let expires = match (parse_opt(&root.pending_since), pending_max_days_of(t)) {
            (Some(s), Some(d)) => shifted_exec(Some(s), d),
            _ => None,
        };
        match expires {
            Some(at) => {
                let mut w = lit(" Unresolved, the sweeper quarantines it on ");
                push_all(&mut w, &chars_of(date(at).as_str()));
                push_all(&mut w, &lit(" ("));
                push_all(&mut w, &chars_of(until(now, at).as_str()));
                push_all(&mut w, &lit(")."));
                push_all(&mut v, &w);
            },
            None => {
                push_all(&mut v, &lit(" No pending budget applies to this source, so only the landing lifecycle ends the wait."));
            },
        }
        return (
            string_of(v.as_slice()),
            if in_landing {
                Tone::Warn
            } else {
                Tone::Bad
            },
        );
    }
    let total = total_text_of(t);
    if extraction_is_of(root, "Extracting") && extraction_stalled_of(t, root, now) {
        let mut v = lit("In raw, stuck on Extracting. ");
        push_all(&mut v, &dec_of(written as u128));
        push_all(&mut v, &lit(" of "));
        push_all(&mut v, &chars_of(total.as_str()));
        push_all(&mut v, &lit(" members written"));
        match last_progress_exec(t, root) {
            Some(p) => {
                push_all(&mut v, &chars_of(cat3(", the last ", span_between(p, now).as_str(), " ago").as_str()));
            },
            None => {
                proof {
                    assert(v@ =~= v@ + seq![]);
                }
            },
        }
        push_all(&mut v, &lit(" and nothing has progressed since; no failure was reported."));
        return (string_of(v.as_slice()), Tone::Bad);
    }
    if extraction_is_of(root, "Extracting") {
        let mut v = lit("In raw and extracting — ");
        push_all(&mut v, &dec_of(written as u128));
        push_all(&mut v, &lit(" of "));
        push_all(&mut v, &chars_of(total.as_str()));
        push_all(&mut v, &lit(" members written so far."));
        return (string_of(v.as_slice()), Tone::Warn);
    }
    if extraction_is_of(root, "ExtractionFailed") {
        let mut v = lit("In raw, but extraction failed after ");
        push_all(&mut v, &dec_of(written as u128));
        push_all(
            &mut v,
            &lit(" members. The root is quarantined for consumption; members written before the breach are inert."),
        );
        return (string_of(v.as_slice()), Tone::Bad);
    }
    if extraction_is_of(root, "Extracted") {
        let mut v = lit("In raw, with ");
        push_all(&mut v, &dec_of(written as u128));
        push_all(&mut v, &lit(" members written back into raw beside it."));
        push_all(&mut v, &landing_tail_of(t, root));
        return (string_of(v.as_slice()), Tone::Good);
    }
    let in_raw = match zone_at {
        Some(z) => str_eq(z, "raw"),
        None => false,
    };
    if in_raw {
        let mut v = lit("In raw, the source of truth for content.");
        push_all(&mut v, &landing_tail_of(t, root));
        return (string_of(v.as_slice()), Tone::Good);
    }
    (cat3("State ", st, ", but no object was found in any zone it should occupy."), Tone::Bad)
}

/// The facts on the document card.
pub open spec fn header_facts(root: Doc) -> Seq<(Seq<char>, Seq<char>)> {
    seq![
        ("DOCUMENTID"@, root.document_id@),
        ("REVISION"@, or_dash_text(root.revision_id@)),
        ("SOURCE"@, or_dash_text(root.source_system@)),
        ("RECEIVED"@, full_or_dash(received_at(root))),
        ("SIZE"@, match doc_size(root) {
            Some(n) => bytes_text(n),
            None => DASH@,
        }),
    ]
}

/// The document card.
pub open spec fn header_ok(h: Header, t: Trace, root: Doc, zone_at: Option<Seq<char>>, now: i64) -> bool {
    &&& h.key@ == (if root.business_key@.len() == 0 {
        root.document_id@
    } else {
        root.business_key@
    })
    &&& h.sub@ == joined_with(sub_pieces(root), " · "@)
    &&& h.state@ == header_state(t, root, now).0
    &&& h.tone == header_state(t, root, now).1
    &&& h.matched_on@ == match t.matched_on {
        Some(m) => m@,
        None => "query"@,
    }
    &&& facts_view(h.facts@) == header_facts(root)
    &&& h.as_of@ == full_or_dash(Some(checked_time(t, now)))
    &&& h.lifecycle@ == lifecycle_spec(t, root, zone_at, now).0
    &&& h.life == lifecycle_spec(t, root, zone_at, now).1
}

fn size_or_dash(root: &Doc) -> (r: String)
    ensures
        r@ == match doc_size(*root) {
            Some(n) => bytes_text(n),
            None => DASH@,
        },
{
    let size = match root.actual_size_bytes {
        Some(s) => Some(s),
        None => root.size_bytes,
    };
    match size {
        Some(n) => crate::format::bytes(n),
        None => DASH.to_owned(),
    }
}

pub fn header(t: &Trace, root: &Doc, zone_at: Option<&str>, now: i64) -> (h: Header)
    ensures
        header_ok(
            h,
            *t,
            *root,
            match zone_at {
                Some(z) => Some(z@),
                None => None,
            },
            now,
        ),
{
    let stalled = extraction_stalled_of(t, root, now);
    let st = root.state.as_str();
    let (state, tone) = if extraction_is_of(root, "Extracting") {
        (
            "Extracting".to_owned(),
            if stalled {
                Status::Stalled
            } else {
                Status::Waiting
            },
        )
    } else if extraction_is_of(root, "Extracted") {
        ("Extracted".to_owned(), Status::Done)
    } else if extraction_is_of(root, "ExtractionFailed") {
        ("ExtractionFailed".to_owned(), Status::Failed)
    } else {
        (
            root.state.clone(),
            if str_eq(st, "Registered") || str_eq(st, "AwaitingUpload") || str_eq(st, "Uploaded") || str_eq(
                st,
                "PendingMetadata",
            ) {
                Status::Waiting
            } else if str_eq(st, "Quarantined") || str_eq(st, "Rejected") || str_eq(st, "Failed") || str_eq(
                st,
                "Expired",
            ) {
                Status::Failed
            } else if st.is_empty() {
                Status::Unknown
            } else {
                Status::Done
            },
        )
    };
    let mut pieces: Vec<String> = Vec::new();
    if !root.file_name.as_str().is_empty() {
        pieces.push(root.file_name.clone());
    }
    if !root.source_system.as_str().is_empty() {
        pieces.push(root.source_system.clone());
    }
    pieces.push(cat2("rev ", or_dash_of(root.revision_id.as_str()).as_str()));
    let size = match root.actual_size_bytes {
        Some(s) => Some(s),
        None => root.size_bytes,
    };
    match size {
        Some(n) => pieces.push(crate::format::bytes(n)),
        None => {},
    }
    proof {
        assert(pieces@.map_values(|s: String| s@) =~= sub_pieces(*root));
    }
    let received = match parse_opt(&root.uploaded_at) {
        Some(x) => Some(x),
        None => parse_opt(&root.registered_at),
    };
    let checked = match parse(t.checked_at.as_str()) {
        Some(x) => x,
        None => now,
    };
    let (lifecycle, life) = lifecycle(t, root, zone_at, now);
    let facts = vec![
        fact("DOCUMENTID", root.document_id.clone()),
        fact("REVISION", or_dash_of(root.revision_id.as_str())),
        fact("SOURCE", or_dash_of(root.source_system.as_str())),
        fact("RECEIVED", full_or_dash_of(received)),
        fact("SIZE", size_or_dash(root)),
    ];
    proof {
        assert(facts_view(facts@) =~= header_facts(*root));
    }
    let h = Header {
        key: root.display_key().to_owned(),
        sub: join_with(&pieces, " · "),
        state,
        tone,
        matched_on: match &t.matched_on {
            Some(m) => m.clone(),
            None => "query".to_owned(),
        },
        facts,
        as_of: full_or_dash_of(Some(checked)),
        lifecycle,
        life,
    };
    h
}


/// Some step was done, but only deduced.
pub open spec fn some_hop_inferred(steps: Seq<Step>) -> bool {
    exists|i: int| 0 <= i < steps.len() && #[trigger] steps[i].status == Status::Done && steps[i].prov == Some(Prov::Inferred)
}

fn some_hop_inferred_of(steps: &Vec<Step>) -> (b: bool)
    ensures
        b == some_hop_inferred(steps@),
{
    let mut i: usize = 0;
    while i < steps.len()
        invariant
            i <= steps@.len(),
            forall|j: int| 0 <= j < i ==> !(#[trigger] steps@[j].status == Status::Done && steps@[j].prov == Some(Prov::Inferred)),
        decreases steps@.len() - i,
    {
        if steps[i].status == Status::Done && steps[i].prov == Some(Prov::Inferred) {
            return true;
        }
        i += 1;
    }
    false
}

/// The icon and the small line above the status card's title.
pub open spec fn hero_badge(root: Doc, steps: Seq<Step>, tone: Status) -> (Seq<char>, Seq<char>) {
    if tone == Status::Waiting && pending(root) {
        ("hourglass-high"@, "waiting, not failing"@)
    } else if tone == Status::Waiting {
        ("clock"@, "in progress"@)
    } else if tone == Status::Stalled {
        ("warning"@, "stalled"@)
    } else if tone == Status::Failed {
        ("warning-circle"@, "stopped"@)
    } else if some_hop_inferred(steps) {
        ("seal-check"@, "complete · some hops inferred"@)
    } else {
        ("seal-check"@, "every step recorded"@)
    }
}

/// The status card: the document's state in a sentence.
pub open spec fn hero_ok(h: Hero, root: Doc, steps: Seq<Step>, focus: Option<StepId>, head: Header) -> bool {
    let n: u32 = match root.pending_attempts {
        Some(x) => x,
        None => 0,
    };
    &&& h.icon@ == hero_badge(root, steps, head.tone).0
    &&& h.kicker@ == hero_badge(root, steps, head.tone).1
    &&& h.tone == head.tone
    &&& if pending(root) {
        &&& h.title@ == "Waiting on the next reference refresh"@
        &&& h.body@ == "The document arrived intact. Its routing metadata has not reached the platform yet — "@ + dec(
            n as nat,
        ) + " lookup"@ + (if n == 1 {
            seq![]
        } else {
            "s"@
        }) + " so far, and no caller action is needed."@
    } else {
        match focus {
            Some(id) => match step_of(steps, id) {
                Some(x) => h.title@ == capitalise_spec(x.detail@) && h.body@ == x.why@,
                None => h.title@ == capitalise_spec(seq![]) && h.body@.len() == 0,
            },
            None => h.title@ == head.state@ && h.body@ == head.lifecycle@,
        }
    }
}

pub fn hero(root: &Doc, steps: &Vec<Step>, focus: Option<StepId>, head: &Header) -> (h: Hero)
    ensures
        hero_ok(h, *root, steps@, focus, *head),
{
    let pend = str_eq(root.state.as_str(), "PendingMetadata");
    let (icon, kicker): (&'static str, &str) = if head.tone == Status::Waiting && pend {
        ("hourglass-high", "waiting, not failing")
    } else if head.tone == Status::Waiting {
        ("clock", "in progress")
    } else if head.tone == Status::Stalled {
        ("warning", "stalled")
    } else if head.tone == Status::Failed {
        ("warning-circle", "stopped")
    } else if some_hop_inferred_of(steps) {
        ("seal-check", "complete · some hops inferred")
    } else {
        ("seal-check", "every step recorded")
    };
    if pend {
        let n: u32 = match root.pending_attempts {
            Some(x) => x,
            None => 0,
        };
        let mut v = lit("The document arrived intact. Its routing metadata has not reached the platform yet — ");
        push_all(&mut v, &dec_of(n as u128));
        push_all(&mut v, &lit(" lookup"));
        if n != 1 {
            push_all(&mut v, &lit("s"));
        } else {
            proof {
                assert(v@ =~= v@ + seq![]);
            }
        }
        push_all(&mut v, &lit(" so far, and no caller action is needed."));
        return Hero {
            icon,
            kicker: kicker.to_owned(),
            title: "Waiting on the next reference refresh".to_owned(),
            body: string_of(v.as_slice()),
            tone: head.tone,
        };
    }
    let (title, body) = match focus {
        Some(id) => {
            let s = find(steps.as_slice(), id);
            (capitalise(s.detail.as_str()), s.why)
        },
        None => (head.state.clone(), head.lifecycle.clone()),
    };
    Hero { icon, kicker: kicker.to_owned(), title, body, tone: head.tone }
}

/// The later of two optional instants.
pub open spec fn later(x: Option<i64>, y: Option<i64>) -> Option<i64> {
    match (x, y) {
        (Some(a), Some(b)) => Some(if a >= b { a } else { b }),
        (Some(a), None) => Some(a),
        (None, y) => y,
    }
}

/// When the document last moved on: extraction, dispatch or promotion, whichever is latest.
pub open spec fn finished_at(root: Doc) -> Option<i64> {
    later(later(opt_instant(root.archive_extracted_at), opt_instant(root.dispatched_at)), opt_instant(root.promoted_at))
}

/// How long since an instant, as a span.
pub open spec fn since(x: Option<i64>, now: i64) -> Option<Seq<char>> {
    match x {
        Some(p) => Some(span_spec(whole_seconds(now - p))),
        None => None,
    }
}

/// The one figure the "right now" card shows, and what it counts.
pub open spec fn live_figure(t: Trace, root: Doc, now: i64, tone: Status) -> (Option<Seq<char>>, Seq<char>) {
    if pending(root) {
        (since(opt_instant(root.pending_since), now), "waiting"@)
    } else if extraction_is(root, "Extracting"@) && extraction_stalled(t, root, now) {
        (since(last_progress(t, root), now), "since last progress"@)
    } else if extraction_is(root, "Extracting"@) {
        (
            Some(dec(written_count(t.family@)) + match expected_files(t) {
                Some(n) => " / "@ + dec(n),
                None => seq![],
            }),
            "members written"@,
        )
    } else if tone == Status::Done && received_at(root) is Some && finished_at(root) is Some {
        (Some(span_spec(whole_seconds(finished_at(root)->0 - received_at(root)->0))), "end to end"@)
    } else {
        (since(opt_instant(root.written_at), now), "since the last change"@)
    }
}

/// The "right now" card.
pub open spec fn live_ok(l: Live, t: Trace, root: Doc, now: i64, head: Header) -> bool {
    &&& l.state@ == match root.archive_extraction_state {
        Some(x) => root.state@ + " · "@ + x@,
        None => root.state@,
    }
    &&& l.big@ == match live_figure(t, root, now, head.tone).0 {
        Some(b) => b,
        None => DASH@,
    }
    &&& l.big_note@ == live_figure(t, root, now, head.tone).1
    &&& l.note@ == head.lifecycle@
    &&& l.tone == head.tone
}

fn later_of(x: Option<i64>, y: Option<i64>) -> (r: Option<i64>)
    ensures
        r == later(x, y),
{
    match (x, y) {
        (Some(a), Some(b)) => Some(if a >= b { a } else { b }),
        (Some(a), None) => Some(a),
        (None, y) => y,
    }
}

fn since_of(x: Option<i64>, now: i64) -> (r: Option<String>)
    ensures
        text_opt(r) == since(x, now),
{
    match x {
        Some(p) => Some(span_between(p, now)),
        None => None,
    }
}

pub fn live(t: &Trace, root: &Doc, now: i64, head: &Header) -> (l: Live)
    ensures
        live_ok(l, *t, *root, now, *head),
{
    let (big, big_note): (Option<String>, &str) = if str_eq(root.state.as_str(), "PendingMetadata") {
        (since_of(parse_opt(&root.pending_since), now), "waiting")
    } else if extraction_is_of(root, "Extracting") && extraction_stalled_of(t, root, now) {
        (since_of(last_progress_exec(t, root), now), "since last progress")
    } else if extraction_is_of(root, "Extracting") {
        let written = members_of(&t.family).written;
        let mut v = dec_of(written as u128);
        match listing_of(t).files {
            Some(n) => {
                push_all(&mut v, &chars_of(cat2(" / ", num_text(n as u64).as_str()).as_str()));
            },
            None => {
                proof {
                    assert(v@ =~= v@ + seq![]);
                }
            },
        }
        (Some(string_of(v.as_slice())), "members written")
    } else {
        let start = match parse_opt(&root.uploaded_at) {
            Some(x) => Some(x),
            None => parse_opt(&root.registered_at),
        };
        let end = later_of(
            later_of(parse_opt(&root.archive_extracted_at), parse_opt(&root.dispatched_at)),
            parse_opt(&root.promoted_at),
        );
        match (head.tone == Status::Done, start, end) {
            (true, Some(s), Some(e)) => (Some(span(secs_of(s, e))), "end to end"),
            _ => (since_of(parse_opt(&root.written_at), now), "since the last change"),
        }
    };
    Live {
        state: match &root.archive_extraction_state {
            Some(x) => cat3(root.state.as_str(), " · ", x.as_str()),
            None => root.state.clone(),
        },
        big: match big {
            Some(b) => b,
            None => DASH.to_owned(),
        },
        big_note: big_note.to_owned(),
        note: head.lifecycle.clone(),
        tone: head.tone,
    }
}

} // verus!
