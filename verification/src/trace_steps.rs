//! The eight pipeline steps of one document, each with how it is known.

use vstd::prelude::*;
use crate::fleet_view::span_between;
use crate::format::{
    bytes, clock, fits_calendar, in_calendar, parse, parse_opt, parse_spec, span_spec, utc_text, whole_seconds,
    DASH,
};
use crate::model::{attribute_spec, field_str, field_text, AuditRow, Doc, Trace};
use crate::text::{
    chars_of, dec, dec_of, dec_signed, dec_signed_of, eq_ignore_ascii_case, eq_ignore_ascii_case_of, is_ascii_alnum,
    lit, push_all, str_eq, string_of,
};
use crate::trace_tree::{bytes_text, doc_size, has_path, has_path_of, written_count};
use crate::transit::{
    curated_built, deepest_reached, depth_total, expected_files, last_progress, last_progress_exec, listing_of,
    members_of, opt_instant, present,
};
use crate::trace_tree::family_containers;
use crate::trace_view::{
    at_of, at_of_spec, fact, Fact, Prov, Status, Step, StepId, METADATA_UNRESOLVED, STALL_AFTER_MINUTES,
};

verus! {

/// What a step says, as values.
pub struct StepSpec {
    pub status: Status,
    pub prov: Option<Prov>,
    pub at: Seq<char>,
    pub detail: Seq<char>,
    pub why: Seq<char>,
    pub meta: Seq<(Seq<char>, Seq<char>)>,
}

pub open spec fn facts_view(meta: Seq<Fact>) -> Seq<(Seq<char>, Seq<char>)> {
    meta.map_values(|f: Fact| (f.label@, f.value@))
}

/// A step has this identity and label and says exactly this.
pub open spec fn step_is(s: Step, id: StepId, label: Seq<char>, w: StepSpec) -> bool {
    &&& s.id == id
    &&& s.label@ == label
    &&& s.status == w.status
    &&& s.prov == w.prov
    &&& s.at@ == w.at
    &&& s.detail@ == w.detail
    &&& s.why@ == w.why
    &&& facts_view(s.meta@) == w.meta
}

pub open spec fn is_event(a: AuditRow, root: Doc, name: Seq<char>) -> bool {
    a.event_type@ == name && a.document_id@ == root.document_id@
}

/// The last audit entry of this kind for the document.
pub open spec fn last_event_in(audit: Seq<AuditRow>, root: Doc, name: Seq<char>) -> Option<AuditRow>
    decreases audit.len(),
{
    if audit.len() == 0 {
        None
    } else if is_event(audit.last(), root, name) {
        Some(audit.last())
    } else {
        last_event_in(audit.drop_last(), root, name)
    }
}

pub open spec fn last_event_spec(t: Trace, root: Doc, name: Seq<char>) -> Option<AuditRow> {
    last_event_in(t.audit@, root, name)
}

pub fn last_event<'a>(t: &'a Trace, root: &Doc, name: &str) -> (r: Option<&'a AuditRow>)
    ensures
        match r {
            Some(a) => last_event_spec(*t, *root, name@) == Some(*a),
            None => last_event_spec(*t, *root, name@) is None,
        },
{
    let mut i: usize = t.audit.len();
    proof {
        assert(t.audit@.take(i as int) =~= t.audit@);
    }
    while i > 0
        invariant
            i <= t.audit@.len(),
            last_event_spec(*t, *root, name@) == last_event_in(t.audit@.take(i as int), *root, name@),
        decreases i,
    {
        proof {
            assert(t.audit@.take(i as int).drop_last() =~= t.audit@.take(i - 1));
            assert(t.audit@.take(i as int).last() == t.audit@[i - 1]);
        }
        let a = &t.audit[i - 1];
        if str_eq(a.event_type.as_str(), name) && str_eq(a.document_id.as_str(), root.document_id.as_str()) {
            return Some(a);
        }
        i -= 1;
    }
    None
}

/// When an audit entry happened, as a clock time.
pub open spec fn event_at_spec(a: AuditRow) -> Seq<char> {
    match parse_spec(a.occurred_at@) {
        Some(ms) => if in_calendar(ms) {
            utc_text(ms, "%H:%M:%SZ"@)
        } else {
            DASH@
        },
        None => DASH@,
    }
}

pub fn event_at(a: &AuditRow) -> (r: String)
    ensures
        r@ == event_at_spec(*a),
{
    match parse(a.occurred_at.as_str()) {
        Some(ms) => if fits_calendar(ms) {
            clock(ms)
        } else {
            DASH.to_owned()
        },
        None => DASH.to_owned(),
    }
}

/// The event's time, or a dash when there is no event.
pub open spec fn event_at_or_dash(a: Option<AuditRow>) -> Seq<char> {
    match a {
        Some(x) => event_at_spec(x),
        None => DASH@,
    }
}

fn event_at_or_dash_of(a: Option<&AuditRow>) -> (r: String)
    ensures
        r@ == event_at_or_dash(match a {
            Some(x) => Some(*x),
            None => None,
        }),
{
    match a {
        Some(x) => event_at(x),
        None => DASH.to_owned(),
    }
}

/// An audit entry's detail field, or a stand-in text.
pub open spec fn detail_or(a: AuditRow, key: Seq<char>, fallback: Seq<char>) -> Seq<char> {
    match field_text(a.detail@, key) {
        Some(x) => x,
        None => fallback,
    }
}

fn detail_or_of(a: &AuditRow, key: &str, fallback: &str) -> (r: String)
    ensures
        r@ == detail_or(*a, key@, fallback@),
{
    match field_str(&a.detail, key) {
        Some(x) => x,
        None => fallback.to_owned(),
    }
}

pub(crate) fn cat2(a: &str, b: &str) -> (r: String)
    ensures
        r@ == a@ + b@,
{
    let mut v = chars_of(a);
    push_all(&mut v, &chars_of(b));
    string_of(v.as_slice())
}

pub(crate) fn cat3(a: &str, b: &str, c: &str) -> (r: String)
    ensures
        r@ == a@ + b@ + c@,
{
    let mut v = chars_of(a);
    push_all(&mut v, &chars_of(b));
    push_all(&mut v, &chars_of(c));
    string_of(v.as_slice())
}

pub(crate) fn cat4(a: &str, b: &str, c: &str, d: &str) -> (r: String)
    ensures
        r@ == a@ + b@ + c@ + d@,
{
    let mut v = chars_of(a);
    push_all(&mut v, &chars_of(b));
    push_all(&mut v, &chars_of(c));
    push_all(&mut v, &chars_of(d));
    string_of(v.as_slice())
}

pub(crate) fn num_text(n: u64) -> (r: String)
    ensures
        r@ == dec(n as nat),
{
    string_of(dec_of(n as u128).as_slice())
}

pub(crate) fn signed_text(n: i64) -> (r: String)
    ensures
        r@ == dec_signed(n as int),
{
    string_of(dec_signed_of(n).as_slice())
}

/// The text, or a dash when it is empty.
pub open spec fn or_dash_text(s: Seq<char>) -> Seq<char> {
    if s.len() > 0 {
        s
    } else {
        DASH@
    }
}

pub(crate) fn or_dash_of(s: &str) -> (r: String)
    ensures
        r@ == or_dash_text(s@),
{
    if s.is_empty() {
        DASH.to_owned()
    } else {
        s.to_owned()
    }
}

/// The document's size, or a stand-in text.
pub open spec fn size_text(root: Doc) -> Seq<char> {
    match doc_size(root) {
        Some(n) => bytes_text(n),
        None => "size unknown"@,
    }
}

fn size_text_of(root: &Doc) -> (r: String)
    ensures
        r@ == size_text(*root),
{
    let size = match root.actual_size_bytes {
        Some(s) => Some(s),
        None => root.size_bytes,
    };
    match size {
        Some(n) => bytes(n),
        None => "size unknown".to_owned(),
    }
}

pub open spec fn state_is(root: Doc, s: Seq<char>) -> bool {
    root.state@ == s
}

/// Parked on metadata.
pub open spec fn pending(root: Doc) -> bool {
    state_is(root, "PendingMetadata"@)
}

/// Why the document was quarantined: the quarantine event's reason, else the catalog's.
pub open spec fn quarantine_reason(t: Trace, root: Doc) -> Option<Seq<char>> {
    let from_event = match last_event_spec(t, root, "UploadQuarantined"@) {
        Some(a) => field_text(a.detail@, "reason"@),
        None => None,
    };
    match from_event {
        Some(x) => Some(x),
        None => match root.quarantine_reason {
            Some(q) => Some(q@),
            None => None,
        },
    }
}

pub fn quarantine_reason_of(t: &Trace, root: &Doc) -> (r: Option<String>)
    ensures
        match r {
            Some(x) => quarantine_reason(*t, *root) == Some(x@),
            None => quarantine_reason(*t, *root) is None,
        },
{
    let from_event = match last_event(t, root, "UploadQuarantined") {
        Some(a) => field_str(&a.detail, "reason"),
        None => None,
    };
    match from_event {
        Some(x) => Some(x),
        None => root.quarantine_reason.clone(),
    }
}

/// Quarantined because its metadata never resolved: an expiry, not a refusal.
pub open spec fn expired_pending(t: Trace, root: Doc) -> bool {
    quarantine_reason(t, root) == Some(METADATA_UNRESOLVED@)
}

pub fn expired_pending_of(t: &Trace, root: &Doc) -> (b: bool)
    ensures
        b == expired_pending(*t, *root),
{
    match quarantine_reason_of(t, root) {
        Some(x) => str_eq(x.as_str(), METADATA_UNRESOLVED),
        None => false,
    }
}

/// The source looks up a reference set, or the document has parked on one.
pub open spec fn has_prerequisite(t: Trace, root: Doc) -> bool {
    (t.source matches Some(s) && s.reference_set is Some) || root.pending_since is Some
}

pub open spec fn pending_max_days(t: Trace) -> Option<i64> {
    match t.source {
        Some(s) => s.pending_max_days,
        None => None,
    }
}

pub(crate) fn pending_max_days_of(t: &Trace) -> (r: Option<i64>)
    ensures
        r == pending_max_days(*t),
{
    match &t.source {
        Some(s) => s.pending_max_days,
        None => None,
    }
}

/// The first step: how the bytes arrived from the source.
pub open spec fn received_spec(t: Trace, root: Doc) -> StepSpec {
    let size = size_text(root);
    match last_event_spec(t, root, "DocumentUploadedSmall"@) {
        Some(a) => StepSpec {
            status: Status::Done,
            prov: Some(Prov::Observed),
            at: event_at_spec(a),
            detail: "DocumentUploadedSmall · "@ + size + " · "@ + root.source_system@,
            why: "The upload event was written to the audit trail, so this hop is recorded rather than deduced."@,
            meta: seq![],
        },
        None => if root.uploaded_at is Some {
            StepSpec {
                status: Status::Done,
                prov: Some(Prov::Inferred),
                at: at_of_spec(root.uploaded_at),
                detail: "deduced from catalog.uploadedAt · "@ + size + " · "@ + root.source_system@,
                why: "No upload event exists for this document — a session upload writes the blob directly and is only seen when the validation gate reconciles it. The time comes from the catalog."@,
                meta: seq![("INFERRED FROM"@, "catalog.uploadedAt"@)],
            }
        } else if state_is(root, "Expired"@) {
            let ex = last_event_spec(t, root, "DocumentExpired"@);
            StepSpec {
                status: Status::Failed,
                prov: Some(
                    if ex is Some {
                        Prov::Observed
                    } else {
                        Prov::Checked
                    },
                ),
                at: event_at_or_dash(ex),
                detail: "the upload session expired before any bytes arrived"@,
                why: "Registration succeeded, but nothing was ever written to landing for it."@,
                meta: seq![],
            }
        } else {
            match last_event_spec(t, root, "DocumentRegistered"@) {
                Some(a) => StepSpec {
                    status: Status::Waiting,
                    prov: Some(Prov::Observed),
                    at: event_at_spec(a),
                    detail: "registered — bytes not uploaded yet"@,
                    why: "The caller pre-registered the document; the upload itself has not reached landing."@,
                    meta: seq![],
                },
                None => StepSpec {
                    status: Status::Unknown,
                    prov: None,
                    at: DASH@,
                    detail: "no upload event and no catalog upload time"@,
                    why: "Nothing on record says when, or whether, the bytes arrived."@,
                    meta: seq![],
                },
            }
        },
    }
}

fn make(
    id: StepId,
    label: &'static str,
    status: Status,
    prov: Option<Prov>,
    at: String,
    detail: String,
    why: String,
    meta: Vec<Fact>,
) -> (s: Step)
    ensures
        s.id == id,
        s.label == label,
        s.status == status,
        s.prov == prov,
        s.at == at,
        s.detail == detail,
        s.why == why,
        s.meta == meta,
{
    Step { id, label, status, prov, at, detail, why, meta }
}

pub fn step_received(t: &Trace, root: &Doc) -> (s: Step)
    ensures
        step_is(s, StepId::Received, "Received from source"@, received_spec(*t, *root)),
{
    let size = size_text_of(root);
    let label = "Received from source";
    if let Some(a) = last_event(t, root, "DocumentUploadedSmall") {
        let s = make(
            StepId::Received,
            label,
            Status::Done,
            Some(Prov::Observed),
            event_at(a),
            cat4("DocumentUploadedSmall · ", size.as_str(), " · ", root.source_system.as_str()),
            "The upload event was written to the audit trail, so this hop is recorded rather than deduced.".to_owned(),
            Vec::new(),
        );
        proof {
            assert(facts_view(s.meta@) =~= seq![]);
        }
        s
    } else if root.uploaded_at.is_some() {
        let s = make(
            StepId::Received,
            label,
            Status::Done,
            Some(Prov::Inferred),
            at_of(&root.uploaded_at),
            cat4("deduced from catalog.uploadedAt · ", size.as_str(), " · ", root.source_system.as_str()),
            "No upload event exists for this document — a session upload writes the blob directly and is only seen when the validation gate reconciles it. The time comes from the catalog.".to_owned(),
            vec![fact("INFERRED FROM", "catalog.uploadedAt".to_owned())],
        );
        proof {
            assert(facts_view(s.meta@) =~= seq![("INFERRED FROM"@, "catalog.uploadedAt"@)]);
        }
        s
    } else if str_eq(root.state.as_str(), "Expired") {
        let ex = last_event(t, root, "DocumentExpired");
        let s = make(
            StepId::Received,
            label,
            Status::Failed,
            Some(
                if ex.is_some() {
                    Prov::Observed
                } else {
                    Prov::Checked
                },
            ),
            event_at_or_dash_of(ex),
            "the upload session expired before any bytes arrived".to_owned(),
            "Registration succeeded, but nothing was ever written to landing for it.".to_owned(),
            Vec::new(),
        );
        proof {
            assert(facts_view(s.meta@) =~= seq![]);
        }
        s
    } else if let Some(a) = last_event(t, root, "DocumentRegistered") {
        let s = make(
            StepId::Received,
            label,
            Status::Waiting,
            Some(Prov::Observed),
            event_at(a),
            "registered — bytes not uploaded yet".to_owned(),
            "The caller pre-registered the document; the upload itself has not reached landing.".to_owned(),
            Vec::new(),
        );
        proof {
            assert(facts_view(s.meta@) =~= seq![]);
        }
        s
    } else {
        let s = make(
            StepId::Received,
            label,
            Status::Unknown,
            None,
            DASH.to_owned(),
            "no upload event and no catalog upload time".to_owned(),
            "Nothing on record says when, or whether, the bytes arrived.".to_owned(),
            Vec::new(),
        );
        proof {
            assert(facts_view(s.meta@) =~= seq![]);
        }
        s
    }
}


/// Whether the declared and sniffed types agree, when both are known.
pub open spec fn mime_agrees(root: Doc) -> Option<bool> {
    if root.sniffed_mime@.len() == 0 || root.mime_type@.len() == 0 {
        None
    } else {
        Some(eq_ignore_ascii_case(root.sniffed_mime@, root.mime_type@))
    }
}

fn mime_agrees_of(root: &Doc) -> (r: Option<bool>)
    ensures
        r == mime_agrees(*root),
{
    if root.sniffed_mime.as_str().is_empty() || root.mime_type.as_str().is_empty() {
        None
    } else {
        Some(eq_ignore_ascii_case_of(&chars_of(root.sniffed_mime.as_str()), &chars_of(root.mime_type.as_str())))
    }
}

/// The second step: what the validation gate decided.
pub open spec fn validated_spec(t: Trace, root: Doc) -> StepSpec {
    let quarantined = last_event_spec(t, root, "UploadQuarantined"@);
    match last_event_spec(t, root, "UploadRejected"@) {
        Some(a) => StepSpec {
            status: Status::Failed,
            prov: Some(Prov::Observed),
            at: event_at_spec(a),
            detail: "rejected — "@ + detail_or(a, "reason"@, "no reason recorded"@),
            why: "The validation gate refused the bytes and moved them to rejected. Rejected is terminal."@,
            meta: seq![],
        },
        None => if quarantined is Some && !expired_pending(t, root) {
            StepSpec {
                status: Status::Failed,
                prov: Some(Prov::Observed),
                at: event_at_spec(quarantined->0),
                detail: "quarantined — "@ + detail_or(quarantined->0, "reason"@, "no reason recorded"@),
                why: "A rule refused the document and the validation gate moved it to quarantine."@,
                meta: seq![],
            }
        } else if state_is(root, "Registered"@) || state_is(root, "AwaitingUpload"@) || state_is(root, "Expired"@) {
            StepSpec {
                status: if state_is(root, "Expired"@) {
                    Status::Skipped
                } else {
                    Status::Waiting
                },
                prov: None,
                at: DASH@,
                detail: "nothing uploaded to validate"@,
                why: "The validation gate runs when bytes land. None have."@,
                meta: seq![],
            }
        } else if state_is(root, "Uploaded"@) && root.sniffed_mime@.len() == 0 {
            StepSpec {
                status: Status::Waiting,
                prov: Some(Prov::Checked),
                at: DASH@,
                detail: "in landing, not yet sniffed"@,
                why: "The validation gate has not recorded a sniffed type yet."@,
                meta: seq![],
            }
        } else {
            match mime_agrees(root) {
                Some(true) => StepSpec {
                    status: Status::Done,
                    prov: Some(Prov::Checked),
                    at: at_of_spec(root.uploaded_at),
                    detail: "passed — declared MIME matches sniffed MIME"@,
                    why: "Both the declared and the sniffed type are "@ + root.sniffed_mime@
                        + ". A disagreement here is the class of bug that shipped once."@,
                    meta: seq![],
                },
                Some(false) => StepSpec {
                    status: Status::Done,
                    prov: Some(Prov::Checked),
                    at: at_of_spec(root.uploaded_at),
                    detail: "passed — but declared and sniffed MIME disagree"@,
                    why: "The caller's declared type and the type sniffed from the bytes differ, and the validation gate admitted it anyway. Routing reads the sniffed type, so this is worth reading beside everything that follows."@,
                    meta: seq![("DECLARED"@, root.mime_type@), ("SNIFFED"@, root.sniffed_mime@)],
                },
                None => StepSpec {
                    status: Status::Done,
                    prov: Some(Prov::Checked),
                    at: at_of_spec(root.uploaded_at),
                    detail: "passed — no declared type to compare"@,
                    why: "Sniffed as "@ + or_dash_text(root.sniffed_mime@)
                        + "; the caller declared no MIME type, so there was nothing to disagree with."@,
                    meta: seq![],
                },
            }
        },
    }
}

pub fn step_validated(t: &Trace, root: &Doc) -> (s: Step)
    ensures
        step_is(s, StepId::Validated, "Validation gate"@, validated_spec(*t, *root)),
{
    let label = "Validation gate";
    let id = StepId::Validated;
    if let Some(a) = last_event(t, root, "UploadRejected") {
        let s = make(
            id,
            label,
            Status::Failed,
            Some(Prov::Observed),
            event_at(a),
            cat2("rejected — ", detail_or_of(a, "reason", "no reason recorded").as_str()),
            "The validation gate refused the bytes and moved them to rejected. Rejected is terminal.".to_owned(),
            Vec::new(),
        );
        proof {
            assert(facts_view(s.meta@) =~= seq![]);
        }
        return s;
    }
    let quarantined = last_event(t, root, "UploadQuarantined");
    if quarantined.is_some() && !expired_pending_of(t, root) {
        let a = quarantined.unwrap();
        let s = make(
            id,
            label,
            Status::Failed,
            Some(Prov::Observed),
            event_at(a),
            cat2("quarantined — ", detail_or_of(a, "reason", "no reason recorded").as_str()),
            "A rule refused the document and the validation gate moved it to quarantine.".to_owned(),
            Vec::new(),
        );
        proof {
            assert(facts_view(s.meta@) =~= seq![]);
        }
        return s;
    }
    let st = root.state.as_str();
    if str_eq(st, "Registered") || str_eq(st, "AwaitingUpload") || str_eq(st, "Expired") {
        let s = make(
            id,
            label,
            if str_eq(st, "Expired") {
                Status::Skipped
            } else {
                Status::Waiting
            },
            None,
            DASH.to_owned(),
            "nothing uploaded to validate".to_owned(),
            "The validation gate runs when bytes land. None have.".to_owned(),
            Vec::new(),
        );
        proof {
            assert(facts_view(s.meta@) =~= seq![]);
        }
        return s;
    }
    if str_eq(st, "Uploaded") && root.sniffed_mime.as_str().is_empty() {
        let s = make(
            id,
            label,
            Status::Waiting,
            Some(Prov::Checked),
            DASH.to_owned(),
            "in landing, not yet sniffed".to_owned(),
            "The validation gate has not recorded a sniffed type yet.".to_owned(),
            Vec::new(),
        );
        proof {
            assert(facts_view(s.meta@) =~= seq![]);
        }
        return s;
    }
    match mime_agrees_of(root) {
        Some(true) => {
            let s = make(
                id,
                label,
                Status::Done,
                Some(Prov::Checked),
                at_of(&root.uploaded_at),
                "passed — declared MIME matches sniffed MIME".to_owned(),
                cat3(
                    "Both the declared and the sniffed type are ",
                    root.sniffed_mime.as_str(),
                    ". A disagreement here is the class of bug that shipped once.",
                ),
                Vec::new(),
            );
            proof {
                assert(facts_view(s.meta@) =~= seq![]);
            }
            s
        },
        Some(false) => {
            let s = make(
                id,
                label,
                Status::Done,
                Some(Prov::Checked),
                at_of(&root.uploaded_at),
                "passed — but declared and sniffed MIME disagree".to_owned(),
                "The caller's declared type and the type sniffed from the bytes differ, and the validation gate admitted it anyway. Routing reads the sniffed type, so this is worth reading beside everything that follows.".to_owned(),
                vec![fact("DECLARED", root.mime_type.clone()), fact("SNIFFED", root.sniffed_mime.clone())],
            );
            proof {
                assert(facts_view(s.meta@) =~= seq![("DECLARED"@, root.mime_type@), ("SNIFFED"@, root.sniffed_mime@)]);
            }
            s
        },
        None => {
            let s = make(
                id,
                label,
                Status::Done,
                Some(Prov::Checked),
                at_of(&root.uploaded_at),
                "passed — no declared type to compare".to_owned(),
                cat3(
                    "Sniffed as ",
                    or_dash_of(root.sniffed_mime.as_str()).as_str(),
                    "; the caller declared no MIME type, so there was nothing to disagree with.",
                ),
                Vec::new(),
            );
            proof {
                assert(facts_view(s.meta@) =~= seq![]);
            }
            s
        },
    }
}

/// The blob the probe checked in a zone.
pub open spec fn zone_blob(t: Trace, zone: Seq<char>) -> Option<crate::model::BlobCheck> {
    crate::transit::blob_of(t.blobs@, zone)
}

/// Whether the landing object was there when checked, if that could be checked.
pub open spec fn landing_exists(t: Trace) -> Option<bool> {
    match zone_blob(t, "landing"@) {
        Some(b) => b.exists,
        None => None,
    }
}

/// The third step: the bytes in landing.
pub open spec fn admitted_spec(t: Trace, root: Doc) -> StepSpec {
    let has_path = root.landing matches Some(l) && l.path@.len() > 0;
    let exists = landing_exists(t);
    let lost = exists == Some(false) && root.promoted_at is None && !state_is(root, "Quarantined"@) && !state_is(
        root,
        "Rejected"@,
    );
    let why = "landing holds the caller's bytes untouched. It is transient: objects are deleted "@ + dec_signed(
        t.env.landing_retention_days as int,
    ) + " days after arrival."@;
    if !has_path && root.uploaded_at is None {
        StepSpec {
            status: if state_is(root, "Registered"@) || state_is(root, "AwaitingUpload"@) {
                Status::Waiting
            } else {
                Status::Unknown
            },
            prov: None,
            at: DASH@,
            detail: "no landing address recorded"@,
            why: "The catalog names no landing object for this document."@,
            meta: seq![],
        }
    } else {
        StepSpec {
            status: if lost {
                Status::Failed
            } else {
                Status::Done
            },
            prov: Some(
                if last_event_spec(t, root, "DocumentUploadedSmall"@) is Some {
                    Prov::Observed
                } else {
                    Prov::Checked
                },
            ),
            at: at_of_spec(root.uploaded_at),
            detail: match exists {
                Some(true) => "zone landing — as the caller wrote it"@,
                Some(false) => if root.promoted_at is Some {
                    "zone landing — since removed after promotion"@
                } else {
                    "zone landing — the object is no longer there"@
                },
                None => "zone landing — presence could not be checked"@,
            },
            why: if lost {
                why + " The catalog was never promoted, yet the landing object is gone — the lifecycle rule deletes with no catalog write."@
            } else {
                why
            },
            meta: seq![],
        }
    }
}

pub fn step_admitted(t: &Trace, root: &Doc) -> (s: Step)
    ensures
        step_is(s, StepId::Admitted, "Admitted to landing"@, admitted_spec(*t, *root)),
{
    let label = "Admitted to landing";
    let id = StepId::Admitted;
    let st = root.state.as_str();
    let has_path = match &root.landing {
        Some(l) => !l.path.as_str().is_empty(),
        None => false,
    };
    if !has_path && root.uploaded_at.is_none() {
        let s = make(
            id,
            label,
            if str_eq(st, "Registered") || str_eq(st, "AwaitingUpload") {
                Status::Waiting
            } else {
                Status::Unknown
            },
            None,
            DASH.to_owned(),
            "no landing address recorded".to_owned(),
            "The catalog names no landing object for this document.".to_owned(),
            Vec::new(),
        );
        proof {
            assert(facts_view(s.meta@) =~= seq![]);
        }
        return s;
    }
    let exists = match crate::transit::blob_of_exec(&t.blobs, "landing") {
        Some(b) => b.exists,
        None => None,
    };
    let lost = exists == Some(false) && root.promoted_at.is_none() && !str_eq(st, "Quarantined") && !str_eq(st, "Rejected");
    let detail = match exists {
        Some(true) => "zone landing — as the caller wrote it".to_owned(),
        Some(false) => if root.promoted_at.is_some() {
            "zone landing — since removed after promotion".to_owned()
        } else {
            "zone landing — the object is no longer there".to_owned()
        },
        None => "zone landing — presence could not be checked".to_owned(),
    };
    let why = cat3(
        "landing holds the caller's bytes untouched. It is transient: objects are deleted ",
        signed_text(t.env.landing_retention_days).as_str(),
        " days after arrival.",
    );
    let why = if lost {
        cat2(
            why.as_str(),
            " The catalog was never promoted, yet the landing object is gone — the lifecycle rule deletes with no catalog write.",
        )
    } else {
        why
    };
    let s = make(
        id,
        label,
        if lost {
            Status::Failed
        } else {
            Status::Done
        },
        Some(
            if last_event(t, root, "DocumentUploadedSmall").is_some() {
                Prov::Observed
            } else {
                Prov::Checked
            },
        ),
        at_of(&root.uploaded_at),
        detail,
        why,
        Vec::new(),
    );
    proof {
        assert(facts_view(s.meta@) =~= seq![]);
    }
    s
}


/// A text after a prefix, or nothing.
pub open spec fn opt_piece(prefix: Seq<char>, o: Option<Seq<char>>) -> Seq<char> {
    match o {
        Some(x) => prefix + x,
        None => seq![],
    }
}

/// A fact, or none.
pub open spec fn opt_fact(label: Seq<char>, o: Option<Seq<char>>) -> Seq<(Seq<char>, Seq<char>)> {
    match o {
        Some(x) => seq![(label, x)],
        None => seq![],
    }
}

pub open spec fn signed_opt(o: Option<i64>) -> Option<Seq<char>> {
    match o {
        Some(g) => Some(dec_signed(g as int)),
        None => None,
    }
}

pub open spec fn text_opt(o: Option<String>) -> Option<Seq<char>> {
    match o {
        Some(x) => Some(x@),
        None => None,
    }
}

fn push_opt(v: &mut Vec<char>, prefix: &str, o: &Option<String>)
    ensures
        final(v)@ == old(v)@ + opt_piece(prefix@, text_opt(*o)),
{
    match o {
        Some(x) => {
            let ghost before = v@;
            push_all(v, &lit(prefix));
            push_all(v, &chars_of(x.as_str()));
            proof {
                assert(v@ =~= before + (prefix@ + x@));
            }
        },
        None => {
            proof {
                assert(v@ =~= old(v)@ + seq![]);
            }
        },
    }
}

fn push_fact(meta: &mut Vec<Fact>, label: &str, o: Option<String>)
    ensures
        facts_view(final(meta)@) == facts_view(old(meta)@) + opt_fact(label@, text_opt(o)),
{
    match o {
        Some(x) => {
            let ghost before = meta@;
            meta.push(fact(label, x));
            proof {
                assert(facts_view(meta@) =~= facts_view(before) + seq![(label@, x@)]);
            }
        },
        None => {
            proof {
                assert(facts_view(meta@) =~= facts_view(old(meta)@) + seq![]);
            }
        },
    }
}

fn signed_opt_of(o: Option<i64>) -> (r: Option<String>)
    ensures
        text_opt(r) == signed_opt(o),
{
    match o {
        Some(g) => Some(signed_text(g)),
        None => None,
    }
}

/// The fourth step: the reference lookup the routing waits on.
pub open spec fn reference_spec(t: Trace, root: Doc) -> StepSpec {
    let generation: Option<i64> = match t.reference {
        Some(p) => p.generation,
        None => None,
    };
    let attempts: u32 = match root.pending_attempts {
        Some(n) => n,
        None => 0,
    };
    let project = attribute_spec(root.attributes@, "reference.sbmProjectNumber"@);
    let tail = opt_fact("SBMPROJECTNUMBER"@, project) + opt_fact("GENERATION"@, signed_opt(generation));
    if !has_prerequisite(t, root) {
        StepSpec {
            status: Status::Skipped,
            prov: Some(Prov::Checked),
            at: DASH@,
            detail: "no metadata prerequisite for "@ + or_dash_text(root.source_system@),
            why: "This source declares no reference set, so nothing is looked up and nothing waits."@,
            meta: seq![],
        }
    } else if pending(root) {
        StepSpec {
            status: Status::Waiting,
            prov: Some(Prov::Checked),
            at: match last_event_spec(t, root, "DocumentPendingMetadata"@) {
                Some(a) => event_at_spec(a),
                None => at_of_spec(root.pending_since),
            },
            detail: dec(attempts as nat) + " lookup"@ + (if attempts == 1 {
                seq![]
            } else {
                "s"@
            }) + " since arrival, none resolved"@,
            why: "The document arrived intact. The business metadata its routing depends on has not yet reached the platform's reference data. It is re-checked after every reference refresh and needs no caller action."@,
            meta: opt_fact("PENDINGKEY"@, text_opt(root.pending_key)) + seq![("ATTEMPTS"@, dec(attempts as nat))]
                + opt_fact("GENERATION"@, signed_opt(generation)) + opt_fact("REASON"@, text_opt(root.pending_reason)),
        }
    } else if expired_pending(t, root) {
        StepSpec {
            status: Status::Failed,
            prov: Some(Prov::Observed),
            at: event_at_or_dash(last_event_spec(t, root, "UploadQuarantined"@)),
            detail: match pending_max_days(t) {
                Some(d) => "never resolved · expired after "@ + dec_signed(d as int) + " days"@,
                None => "never resolved · expired"@,
            },
            why: "The reference lookup kept failing until the pending budget ran out, and the sweeper moved the document to quarantine."@,
            meta: seq![("ATTEMPTS"@, dec(attempts as nat))],
        }
    } else {
        match last_event_spec(t, root, "PendingMetadataResolved"@) {
            Some(a) => StepSpec {
                status: Status::Done,
                prov: Some(Prov::Observed),
                at: event_at_spec(a),
                detail: "resolved after "@ + dec(attempts as nat) + " attempts"@ + opt_piece(" · "@, project),
                why: "The document parked on metadata, then a later reference generation held its row."@,
                meta: tail,
            },
            None => if root.promoted_at is Some || root.reference_data_as_of is Some {
                StepSpec {
                    status: Status::Done,
                    prov: Some(Prov::Checked),
                    at: at_of_spec(root.promoted_at),
                    detail: "resolved"@ + opt_piece(" · generation "@, signed_opt(generation)) + opt_piece(
                        " · "@,
                        project,
                    ),
                    why: "The register held a row for this document, so routing attributes were available when the validation gate needed them."@,
                    meta: tail,
                }
            } else if state_is(root, "Quarantined"@) || state_is(root, "Rejected"@) {
                StepSpec {
                    status: Status::Skipped,
                    prov: None,
                    at: DASH@,
                    detail: "not reached"@,
                    why: "The document stopped at the validation gate, before any lookup."@,
                    meta: seq![],
                }
            } else {
                StepSpec {
                    status: Status::Waiting,
                    prov: None,
                    at: DASH@,
                    detail: "not looked up yet"@,
                    why: "The lookup runs when the validation gate admits the bytes."@,
                    meta: seq![],
                }
            },
        }
    }
}

pub fn step_reference(t: &Trace, root: &Doc) -> (s: Step)
    ensures
        step_is(s, StepId::Reference, "Reference resolved"@, reference_spec(*t, *root)),
{
    let label = "Reference resolved";
    let id = StepId::Reference;
    let generation: Option<i64> = match &t.reference {
        Some(p) => p.generation,
        None => None,
    };
    let attempts: u32 = match root.pending_attempts {
        Some(n) => n,
        None => 0,
    };
    let prerequisite = match &t.source {
        Some(src) => src.reference_set.is_some(),
        None => false,
    } || root.pending_since.is_some();
    if !prerequisite {
        let s = make(
            id,
            label,
            Status::Skipped,
            Some(Prov::Checked),
            DASH.to_owned(),
            cat2("no metadata prerequisite for ", or_dash_of(root.source_system.as_str()).as_str()),
            "This source declares no reference set, so nothing is looked up and nothing waits.".to_owned(),
            Vec::new(),
        );
        proof {
            assert(facts_view(s.meta@) =~= seq![]);
        }
        return s;
    }
    if str_eq(root.state.as_str(), "PendingMetadata") {
        let at = match last_event(t, root, "DocumentPendingMetadata") {
            Some(a) => event_at(a),
            None => at_of(&root.pending_since),
        };
        let mut detail = dec_of(attempts as u128);
        push_all(&mut detail, &lit(" lookup"));
        if attempts != 1 {
            push_all(&mut detail, &lit("s"));
        } else {
            proof {
                assert(detail@ =~= detail@ + seq![]);
            }
        }
        push_all(&mut detail, &lit(" since arrival, none resolved"));
        let mut meta: Vec<Fact> = Vec::new();
        proof {
            assert(facts_view(meta@) =~= seq![]);
        }
        push_fact(&mut meta, "PENDINGKEY", root.pending_key.clone());
        push_fact(&mut meta, "ATTEMPTS", Some(num_text(attempts as u64)));
        push_fact(&mut meta, "GENERATION", signed_opt_of(generation));
        push_fact(&mut meta, "REASON", root.pending_reason.clone());
        proof {
            assert(seq![] + opt_fact("PENDINGKEY"@, text_opt(root.pending_key)) =~= opt_fact(
                "PENDINGKEY"@,
                text_opt(root.pending_key),
            ));
        }
        return make(
            id,
            label,
            Status::Waiting,
            Some(Prov::Checked),
            at,
            string_of(detail.as_slice()),
            "The document arrived intact. The business metadata its routing depends on has not yet reached the platform's reference data. It is re-checked after every reference refresh and needs no caller action.".to_owned(),
            meta,
        );
    }
    if expired_pending_of(t, root) {
        let detail = match pending_max_days_of(t) {
            Some(d) => cat3("never resolved · expired after ", signed_text(d).as_str(), " days"),
            None => "never resolved · expired".to_owned(),
        };
        let s = make(
            id,
            label,
            Status::Failed,
            Some(Prov::Observed),
            event_at_or_dash_of(last_event(t, root, "UploadQuarantined")),
            detail,
            "The reference lookup kept failing until the pending budget ran out, and the sweeper moved the document to quarantine.".to_owned(),
            vec![fact("ATTEMPTS", num_text(attempts as u64))],
        );
        proof {
            assert(facts_view(s.meta@) =~= seq![("ATTEMPTS"@, dec(attempts as nat))]);
        }
        return s;
    }
    let project = root.attribute("reference.sbmProjectNumber");
    proof {
        assert(text_opt(project) == attribute_spec(root.attributes@, "reference.sbmProjectNumber"@));
    }
    let mut tail: Vec<Fact> = Vec::new();
    proof {
        assert(facts_view(tail@) =~= seq![]);
    }
    push_fact(&mut tail, "SBMPROJECTNUMBER", project.clone());
    push_fact(&mut tail, "GENERATION", signed_opt_of(generation));
    proof {
        assert(seq![] + opt_fact("SBMPROJECTNUMBER"@, text_opt(project)) =~= opt_fact("SBMPROJECTNUMBER"@, text_opt(project)));
    }
    if let Some(a) = last_event(t, root, "PendingMetadataResolved") {
        let mut detail = lit("resolved after ");
        push_all(&mut detail, &dec_of(attempts as u128));
        push_all(&mut detail, &lit(" attempts"));
        push_opt(&mut detail, " · ", &project);
        return make(
            id,
            label,
            Status::Done,
            Some(Prov::Observed),
            event_at(a),
            string_of(detail.as_slice()),
            "The document parked on metadata, then a later reference generation held its row.".to_owned(),
            tail,
        );
    }
    if root.promoted_at.is_some() || root.reference_data_as_of.is_some() {
        let mut detail = lit("resolved");
        push_opt(&mut detail, " · generation ", &signed_opt_of(generation));
        push_opt(&mut detail, " · ", &project);
        return make(
            id,
            label,
            Status::Done,
            Some(Prov::Checked),
            at_of(&root.promoted_at),
            string_of(detail.as_slice()),
            "The register held a row for this document, so routing attributes were available when the validation gate needed them.".to_owned(),
            tail,
        );
    }
    let st = root.state.as_str();
    let s = if str_eq(st, "Quarantined") || str_eq(st, "Rejected") {
        make(
            id,
            label,
            Status::Skipped,
            None,
            DASH.to_owned(),
            "not reached".to_owned(),
            "The document stopped at the validation gate, before any lookup.".to_owned(),
            Vec::new(),
        )
    } else {
        make(
            id,
            label,
            Status::Waiting,
            None,
            DASH.to_owned(),
            "not looked up yet".to_owned(),
            "The lookup runs when the validation gate admits the bytes.".to_owned(),
            Vec::new(),
        )
    };
    proof {
        assert(facts_view(s.meta@) =~= seq![]);
    }
    s
}


pub open spec fn left_main_line(root: Doc) -> bool {
    state_is(root, "Quarantined"@) || state_is(root, "Rejected"@) || state_is(root, "Expired"@)
}

fn left_main_line_of(root: &Doc) -> (b: bool)
    ensures
        b == left_main_line(*root),
{
    let st = root.state.as_str();
    str_eq(st, "Quarantined") || str_eq(st, "Rejected") || str_eq(st, "Expired")
}

/// The fifth step: the move from landing into raw, which no audit entry records.
pub open spec fn promoted_spec(t: Trace, root: Doc) -> StepSpec {
    let inferred_from = seq![("INFERRED FROM"@, "catalog.promotedAt"@)];
    match last_event_spec(t, root, "DocumentPromotionStalled"@) {
        Some(a) => StepSpec {
            status: Status::Stalled,
            prov: Some(Prov::Observed),
            at: event_at_spec(a),
            detail: "the sweeper found the promotion stalled"@,
            why: "promotedAt was set but the move did not complete; the sweeper recorded the stall."@,
            meta: inferred_from,
        },
        None => if root.promoted_at is Some {
            StepSpec {
                status: Status::Done,
                prov: Some(Prov::Inferred),
                at: at_of_spec(root.promoted_at),
                detail: "deduced from catalog.promotedAt — no audit event exists"@,
                why: "Nothing records the promotion itself. The timestamp comes from the catalog, so this hop is shown as inferred even though it plainly happened."@,
                meta: inferred_from,
            }
        } else if left_main_line(root) || state_is(root, "Failed"@) {
            StepSpec {
                status: Status::Skipped,
                prov: None,
                at: DASH@,
                detail: "not taken"@,
                why: "The document left the main line before promotion."@,
                meta: seq![],
            }
        } else {
            StepSpec {
                status: Status::Waiting,
                prov: Some(Prov::Inferred),
                at: DASH@,
                detail: if pending(root) {
                    "waiting on reference"@
                } else {
                    "nothing to infer yet"@
                },
                why: "Promotion waits on the validation gate and the reference lookup. This hop never writes an audit event, so even once it happens it can only be deduced from catalog.promotedAt."@,
                meta: inferred_from,
            }
        },
    }
}

fn inferred_from(field: &str) -> (m: Vec<Fact>)
    ensures
        facts_view(m@) == seq![("INFERRED FROM"@, field@)],
{
    let m = vec![fact("INFERRED FROM", field.to_owned())];
    proof {
        assert(facts_view(m@) =~= seq![("INFERRED FROM"@, field@)]);
    }
    m
}

fn no_facts() -> (m: Vec<Fact>)
    ensures
        facts_view(m@) == Seq::<(Seq<char>, Seq<char>)>::empty(),
{
    let m: Vec<Fact> = Vec::new();
    proof {
        assert(facts_view(m@) =~= Seq::<(Seq<char>, Seq<char>)>::empty());
    }
    m
}

pub fn step_promoted(t: &Trace, root: &Doc) -> (s: Step)
    ensures
        step_is(s, StepId::Promoted, "Promoted landing → raw"@, promoted_spec(*t, *root)),
{
    let label = "Promoted landing → raw";
    let id = StepId::Promoted;
    if let Some(a) = last_event(t, root, "DocumentPromotionStalled") {
        return make(
            id,
            label,
            Status::Stalled,
            Some(Prov::Observed),
            event_at(a),
            "the sweeper found the promotion stalled".to_owned(),
            "promotedAt was set but the move did not complete; the sweeper recorded the stall.".to_owned(),
            inferred_from("catalog.promotedAt"),
        );
    }
    if root.promoted_at.is_some() {
        return make(
            id,
            label,
            Status::Done,
            Some(Prov::Inferred),
            at_of(&root.promoted_at),
            "deduced from catalog.promotedAt — no audit event exists".to_owned(),
            "Nothing records the promotion itself. The timestamp comes from the catalog, so this hop is shown as inferred even though it plainly happened.".to_owned(),
            inferred_from("catalog.promotedAt"),
        );
    }
    if left_main_line_of(root) || str_eq(root.state.as_str(), "Failed") {
        return make(
            id,
            label,
            Status::Skipped,
            None,
            DASH.to_owned(),
            "not taken".to_owned(),
            "The document left the main line before promotion.".to_owned(),
            no_facts(),
        );
    }
    make(
        id,
        label,
        Status::Waiting,
        Some(Prov::Inferred),
        DASH.to_owned(),
        if str_eq(root.state.as_str(), "PendingMetadata") {
            "waiting on reference".to_owned()
        } else {
            "nothing to infer yet".to_owned()
        },
        "Promotion waits on the validation gate and the reference lookup. This hop never writes an audit event, so even once it happens it can only be deduced from catalog.promotedAt.".to_owned(),
        inferred_from("catalog.promotedAt"),
    )
}

/// The sixth step: the notification that sends the document to its processing rules.
pub open spec fn dispatched_spec(t: Trace, root: Doc) -> StepSpec {
    match last_event_spec(t, root, "DocumentDispatchFailed"@) {
        Some(a) => StepSpec {
            status: Status::Failed,
            prov: Some(Prov::Observed),
            at: event_at_spec(a),
            detail: "the evaluate notification could not be sent"@,
            why: "The document is in raw but its processing-rules notification failed. Nothing downstream will pick it up until it is re-dispatched."@,
            meta: seq![],
        },
        None => match last_event_spec(t, root, "DocumentDispatched"@) {
            Some(a) => StepSpec {
                status: Status::Done,
                prov: Some(Prov::Observed),
                at: event_at_spec(a),
                detail: "DocumentDispatched · "@ + detail_or(a, "queue"@, "evaluate"@),
                why: "The processing-rules notification was sent and recorded."@,
                meta: seq![],
            },
            None => if root.dispatched_at is Some {
                StepSpec {
                    status: Status::Done,
                    prov: Some(Prov::Inferred),
                    at: at_of_spec(root.dispatched_at),
                    detail: "deduced from catalog.dispatchedAt"@,
                    why: "The catalog records a dispatch time but no audit entry was found for it."@,
                    meta: seq![("INFERRED FROM"@, "catalog.dispatchedAt"@)],
                }
            } else if root.promoted_at is None {
                StepSpec {
                    status: if left_main_line(root) {
                        Status::Skipped
                    } else {
                        Status::Waiting
                    },
                    prov: None,
                    at: DASH@,
                    detail: "waits on promotion"@,
                    why: "Dispatch follows promotion."@,
                    meta: seq![],
                }
            } else {
                StepSpec {
                    status: Status::Waiting,
                    prov: None,
                    at: DASH@,
                    detail: "promoted, not dispatched yet"@,
                    why: "The document is in raw; its evaluate notification has not been recorded."@,
                    meta: seq![],
                }
            },
        },
    }
}

pub fn step_dispatched(t: &Trace, root: &Doc) -> (s: Step)
    ensures
        step_is(s, StepId::Dispatched, "Dispatched for evaluation"@, dispatched_spec(*t, *root)),
{
    let label = "Dispatched for evaluation";
    let id = StepId::Dispatched;
    if let Some(a) = last_event(t, root, "DocumentDispatchFailed") {
        return make(
            id,
            label,
            Status::Failed,
            Some(Prov::Observed),
            event_at(a),
            "the evaluate notification could not be sent".to_owned(),
            "The document is in raw but its processing-rules notification failed. Nothing downstream will pick it up until it is re-dispatched.".to_owned(),
            no_facts(),
        );
    }
    if let Some(a) = last_event(t, root, "DocumentDispatched") {
        return make(
            id,
            label,
            Status::Done,
            Some(Prov::Observed),
            event_at(a),
            cat2("DocumentDispatched · ", detail_or_of(a, "queue", "evaluate").as_str()),
            "The processing-rules notification was sent and recorded.".to_owned(),
            no_facts(),
        );
    }
    if root.dispatched_at.is_some() {
        return make(
            id,
            label,
            Status::Done,
            Some(Prov::Inferred),
            at_of(&root.dispatched_at),
            "deduced from catalog.dispatchedAt".to_owned(),
            "The catalog records a dispatch time but no audit entry was found for it.".to_owned(),
            inferred_from("catalog.dispatchedAt"),
        );
    }
    if root.promoted_at.is_none() {
        make(
            id,
            label,
            if left_main_line_of(root) {
                Status::Skipped
            } else {
                Status::Waiting
            },
            None,
            DASH.to_owned(),
            "waits on promotion".to_owned(),
            "Dispatch follows promotion.".to_owned(),
            no_facts(),
        )
    } else {
        make(
            id,
            label,
            Status::Waiting,
            None,
            DASH.to_owned(),
            "promoted, not dispatched yet".to_owned(),
            "The document is in raw; its evaluate notification has not been recorded.".to_owned(),
            no_facts(),
        )
    }
}


/// The file indicators curated placement can read.
pub const READABLE_INDICATORS: [&'static str; 4] = ["RO", "RW", "RP", "RA"];

pub open spec fn readable_indicator(fi: Seq<char>) -> bool {
    fi == "RO"@ || fi == "RW"@ || fi == "RP"@ || fi == "RA"@
}

fn readable_indicator_of(fi: &str) -> (b: bool)
    ensures
        b == readable_indicator(fi@),
{
    str_eq(fi, "RO") || str_eq(fi, "RW") || str_eq(fi, "RP") || str_eq(fi, "RA")
}

/// What `<str as Debug>::fmt` writes for a text.
pub uninterp spec fn debug_quoted(s: Seq<char>) -> Seq<char>;

/// `format!("{:?}", s)`: the text in double quotes, with quotes, backslashes
/// and control characters escaped. The contract states the quoting for
/// texts of ASCII letters and digits, which need no escape; the escapes
/// themselves are left to the name.
#[verifier::external_body]
fn debug_text(s: &str) -> (r: String)
    ensures
        r@ == debug_quoted(s@),
        (forall|i: int| 0 <= i < s@.len() ==> is_ascii_alnum(#[trigger] s@[i])) ==> r@ == seq!['"'] + s@ + seq!['"'],
{
    format!("{:?}", s)
}

/// How many members hold an address in curated.
pub open spec fn curated_count(family: Seq<Doc>) -> nat
    decreases family.len(),
{
    if family.len() == 0 {
        0
    } else {
        curated_count(family.drop_last()) + if has_path(family.last().curated) {
            1nat
        } else {
            0nat
        }
    }
}

fn members_curated_of(family: &Vec<Doc>) -> (r: (usize, usize))
    ensures
        r.0 == curated_count(family@),
        r.1 == written_count(family@),
{
    let mut placed: usize = 0;
    let mut files: usize = 0;
    let mut i: usize = 0;
    while i < family.len()
        invariant
            i <= family@.len(),
            placed == curated_count(family@.take(i as int)),
            files == written_count(family@.take(i as int)),
            placed <= i,
            files <= i,
        decreases family@.len() - i,
    {
        proof {
            assert(family@.take(i + 1).drop_last() =~= family@.take(i as int));
            assert(family@.take(i + 1).last() == family@[i as int]);
        }
        if has_path_of(&family[i].curated) {
            placed += 1;
        }
        if has_path_of(&family[i].raw) {
            files += 1;
        }
        i += 1;
    }
    proof {
        assert(family@.take(i as int) =~= family@);
    }
    (placed, files)
}

/// The curated address the catalog records; it writes an empty one on every document.
pub open spec fn curated_address(root: Doc) -> Option<Seq<char>> {
    match root.curated {
        Some(c) => if c.path@.len() > 0 {
            Some(c.path@)
        } else {
            None
        },
        None => None,
    }
}

/// The last replica the logs name.
pub open spec fn replica_in(entries: Seq<crate::model::LogRow>) -> Option<Seq<char>>
    decreases entries.len(),
{
    if entries.len() == 0 {
        None
    } else {
        match entries.last().replica {
            Some(r) => Some(r@),
            None => replica_in(entries.drop_last()),
        }
    }
}

/// The eighth step: the consumer-facing copy in curated.
pub open spec fn curated_spec(t: Trace, root: Doc) -> StepSpec {
    let placement_keys = attribute_spec(root.attributes@, "reference.sbmProjectNumber"@) is Some && (attribute_spec(
        root.attributes@,
        "reference.uniqueDocNumber"@,
    ) is Some || root.business_key@.len() > 0);
    let placed = curated_count(t.family@);
    let files = written_count(t.family@);
    let share = dec(placed) + " of "@ + dec(files);
    if !curated_built(t) {
        StepSpec {
            status: Status::NotBuilt,
            prov: None,
            at: DASH@,
            detail: "the zone does not exist"@,
            why: "No curated container exists in this storage account. This is not an empty result; the zone is not built here."@,
            meta: seq![],
        }
    } else if present(t, "curated"@) {
        StepSpec {
            status: Status::Done,
            prov: Some(Prov::Checked),
            at: DASH@,
            detail: "published copy present"@,
            why: "A consumer-facing copy exists at the curated address the catalog records."@,
            meta: match root.curated {
                Some(c) => seq![("PATH"@, c.container@ + "/"@ + c.path@)],
                None => seq![],
            },
        }
    } else if t.is_archive {
        StepSpec {
            status: if curated_address(root) is Some {
                Status::Done
            } else {
                Status::Skipped
            },
            prov: Some(Prov::Checked),
            at: DASH@,
            detail: if curated_address(root) is Some {
                "curated address assigned · "@ + share + " members in curated"@
            } else {
                "archive roots are not offered"@
            },
            why: "An archive root gets a curated address so its place in the tree is visible, but never its bytes: it is retained, not offered to a consumer. Its members are placed in curated one by one."@,
            meta: opt_fact("ADDRESS"@, curated_address(root)) + seq![("MEMBERS IN CURATED"@, share)],
        }
    } else if left_main_line(root) {
        StepSpec {
            status: Status::Skipped,
            prov: Some(Prov::Checked),
            at: DASH@,
            detail: "not taken"@,
            why: "Only documents that reach raw are curated."@,
            meta: seq![],
        }
    } else if curated_address(root) is Some {
        StepSpec {
            status: Status::Failed,
            prov: Some(Prov::Checked),
            at: DASH@,
            detail: "the catalog names a curated address with no object"@,
            why: "catalog.curated.path is set, but nothing exists at that path."@,
            meta: seq![],
        }
    } else if root.dispatched_at is Some && !readable_indicator(root.file_indicator@) {
        StepSpec {
            status: Status::Stalled,
            prov: Some(Prov::Inferred),
            at: DASH@,
            detail: "parked — file indicator "@ + debug_quoted(root.file_indicator@) + " cannot be read"@,
            why: "Curated placement reads the file indicator to choose the role and the Official/Native half, and accepts only RO, RW, RP or RA exactly. Any other value parks the document (CuratedSkipped reason=NO_ROLE); it stays intact in raw until the indicator is corrected and the document is re-evaluated."@,
            meta: seq![("FILE INDICATOR"@, or_dash_text(root.file_indicator@))],
        }
    } else if root.dispatched_at is Some && !placement_keys {
        StepSpec {
            status: Status::Stalled,
            prov: Some(Prov::Inferred),
            at: DASH@,
            detail: "parked — no project or document number"@,
            why: "The curated path is built from the register's project and document numbers. Without both, placement parks the document (CuratedSkipped reason=NO_PLACEMENT_KEYS)."@,
            meta: seq![],
        }
    } else {
        StepSpec {
            status: Status::Waiting,
            prov: Some(Prov::Checked),
            at: DASH@,
            detail: "not written yet"@,
            why: "Curation follows promotion and the processing rules."@,
            meta: seq![],
        }
    }
}

pub fn step_curated(t: &Trace, root: &Doc) -> (s: Step)
    ensures
        step_is(s, StepId::Curated, "Written to curated"@, curated_spec(*t, *root)),
{
    let label = "Written to curated";
    let id = StepId::Curated;
    let built = match crate::transit::blob_of_exec(&t.blobs, "curated") {
        Some(b) => b.container_exists,
        None => false,
    } || t.env.has_container("curated");
    if !built {
        return make(
            id,
            label,
            Status::NotBuilt,
            None,
            DASH.to_owned(),
            "the zone does not exist".to_owned(),
            "No curated container exists in this storage account. This is not an empty result; the zone is not built here.".to_owned(),
            no_facts(),
        );
    }
    if crate::transit::present_exec(t, "curated") {
        let meta = match &root.curated {
            Some(c) => {
                let m = vec![fact("PATH", cat3(c.container.as_str(), "/", c.path.as_str()))];
                proof {
                    assert(facts_view(m@) =~= seq![("PATH"@, c.container@ + "/"@ + c.path@)]);
                }
                m
            },
            None => no_facts(),
        };
        return make(
            id,
            label,
            Status::Done,
            Some(Prov::Checked),
            DASH.to_owned(),
            "published copy present".to_owned(),
            "A consumer-facing copy exists at the curated address the catalog records.".to_owned(),
            meta,
        );
    }
    let address: Option<String> = match &root.curated {
        Some(c) => if c.path.as_str().is_empty() {
            None
        } else {
            Some(c.path.clone())
        },
        None => None,
    };
    proof {
        assert(text_opt(address) == curated_address(*root));
    }
    if t.is_archive {
        let (placed, files) = members_curated_of(&t.family);
        let share = cat3(num_text(placed as u64).as_str(), " of ", num_text(files as u64).as_str());
        let mut meta: Vec<Fact> = Vec::new();
        proof {
            assert(facts_view(meta@) =~= seq![]);
        }
        push_fact(&mut meta, "ADDRESS", address.clone());
        push_fact(&mut meta, "MEMBERS IN CURATED", Some(share.clone()));
        proof {
            assert(seq![] + opt_fact("ADDRESS"@, text_opt(address)) =~= opt_fact("ADDRESS"@, text_opt(address)));
        }
        return make(
            id,
            label,
            if address.is_some() {
                Status::Done
            } else {
                Status::Skipped
            },
            Some(Prov::Checked),
            DASH.to_owned(),
            if address.is_some() {
                cat3("curated address assigned · ", share.as_str(), " members in curated")
            } else {
                "archive roots are not offered".to_owned()
            },
            "An archive root gets a curated address so its place in the tree is visible, but never its bytes: it is retained, not offered to a consumer. Its members are placed in curated one by one.".to_owned(),
            meta,
        );
    }
    if left_main_line_of(root) {
        return make(
            id,
            label,
            Status::Skipped,
            Some(Prov::Checked),
            DASH.to_owned(),
            "not taken".to_owned(),
            "Only documents that reach raw are curated.".to_owned(),
            no_facts(),
        );
    }
    if address.is_some() {
        return make(
            id,
            label,
            Status::Failed,
            Some(Prov::Checked),
            DASH.to_owned(),
            "the catalog names a curated address with no object".to_owned(),
            "catalog.curated.path is set, but nothing exists at that path.".to_owned(),
            no_facts(),
        );
    }
    if root.dispatched_at.is_some() && !readable_indicator_of(root.file_indicator.as_str()) {
        let m = vec![fact("FILE INDICATOR", or_dash_of(root.file_indicator.as_str()))];
        proof {
            assert(facts_view(m@) =~= seq![("FILE INDICATOR"@, or_dash_text(root.file_indicator@))]);
        }
        return make(
            id,
            label,
            Status::Stalled,
            Some(Prov::Inferred),
            DASH.to_owned(),
            cat3("parked — file indicator ", debug_text(root.file_indicator.as_str()).as_str(), " cannot be read"),
            "Curated placement reads the file indicator to choose the role and the Official/Native half, and accepts only RO, RW, RP or RA exactly. Any other value parks the document (CuratedSkipped reason=NO_ROLE); it stays intact in raw until the indicator is corrected and the document is re-evaluated.".to_owned(),
            m,
        );
    }
    let placement_keys = root.attribute("reference.sbmProjectNumber").is_some() && (root.attribute(
        "reference.uniqueDocNumber",
    ).is_some() || !root.business_key.as_str().is_empty());
    if root.dispatched_at.is_some() && !placement_keys {
        return make(
            id,
            label,
            Status::Stalled,
            Some(Prov::Inferred),
            DASH.to_owned(),
            "parked — no project or document number".to_owned(),
            "The curated path is built from the register's project and document numbers. Without both, placement parks the document (CuratedSkipped reason=NO_PLACEMENT_KEYS).".to_owned(),
            no_facts(),
        );
    }
    make(
        id,
        label,
        Status::Waiting,
        Some(Prov::Checked),
        DASH.to_owned(),
        "not written yet".to_owned(),
        "Curation follows promotion and the processing rules.".to_owned(),
        no_facts(),
    )
}


pub open spec fn extraction_is(root: Doc, x: Seq<char>) -> bool {
    root.archive_extraction_state matches Some(s) && s@ == x
}

pub(crate) fn extraction_is_of(root: &Doc, x: &str) -> (b: bool)
    ensures
        b == extraction_is(*root, x@),
{
    match &root.archive_extraction_state {
        Some(s) => str_eq(s.as_str(), x),
        None => false,
    }
}

/// An extraction that is neither leased nor progressing: marked Extracting,
/// no live lease, and no member written for longer than the stall threshold.
pub open spec fn extraction_stalled(t: Trace, root: Doc, now: i64) -> bool {
    let lease_live = match opt_instant(root.archive_extraction_lease_expires_at) {
        Some(l) => l > now,
        None => false,
    };
    &&& extraction_is(root, "Extracting"@)
    &&& !lease_live
    &&& match last_progress(t, root) {
        Some(p) => now - p > STALL_AFTER_MINUTES * 60_000,
        None => true,
    }
}

pub(crate) fn extraction_stalled_of(t: &Trace, root: &Doc, now: i64) -> (b: bool)
    ensures
        b == extraction_stalled(*t, *root, now),
{
    if !extraction_is_of(root, "Extracting") {
        return false;
    }
    match parse_opt(&root.archive_extraction_lease_expires_at) {
        Some(l) => if l > now {
            return false;
        },
        None => {},
    }
    match last_progress_exec(t, root) {
        Some(p) => now as i128 - p as i128 > 10 * 60_000,
        None => true,
    }
}

/// How deep the walk got, of how deep the listing goes.
pub open spec fn depth_text(deepest: Option<u32>, total: Option<u32>) -> Seq<char> {
    match (deepest, total) {
        (Some(d), Some(t)) => dec(d as nat) + " of "@ + dec(t as nat),
        (Some(d), None) => dec(d as nat),
        (None, Some(t)) => "none of "@ + dec(t as nat),
        (None, None) => DASH@,
    }
}

/// A clock time of an instant, or a dash.
pub open spec fn clock_or_dash(t: Option<i64>) -> Seq<char> {
    match t {
        Some(p) => if in_calendar(p) {
            utc_text(p, "%H:%M:%SZ"@)
        } else {
            DASH@
        },
        None => DASH@,
    }
}

/// The seventh step: the walk that writes an archive's members.
pub open spec fn extracted_spec(t: Trace, root: Doc, now: i64) -> StepSpec {
    let written = written_count(t.family@);
    let total = expected_files(t);
    let deepest = deepest_reached(t.family@, family_containers(t.family@));
    let last = last_progress(t, root);
    let of = match total {
        Some(n) => dec(written) + " of "@ + dec(n),
        None => dec(written) + " of ?"@,
    };
    let stalled = extraction_stalled(t, root, now);
    if !t.is_archive {
        StepSpec {
            status: Status::Skipped,
            prov: Some(Prov::Checked),
            at: DASH@,
            detail: "not an archive"@,
            why: "Sniffed as "@ + or_dash_text(root.sniffed_mime@)
                + ", so no extraction is attempted. Skipped is a different fact from failed."@,
            meta: seq![],
        }
    } else {
        match last_event_spec(t, root, "ArchiveExtractionFailed"@) {
            Some(a) => StepSpec {
                status: Status::Failed,
                prov: Some(Prov::Observed),
                at: event_at_spec(a),
                detail: "ArchiveExtractionFailed · "@ + detail_or(a, "reason"@, ""@),
                why: "The walk hit a budget or policy breach and quarantined the root. Members written before it stay inert."@,
                meta: seq![("MEMBERS WRITTEN"@, detail_or(a, "membersWritten"@, dec(written)))],
            },
            None => if extraction_is(root, "Extracted"@) {
                let observed = last_event_spec(t, root, "ArchiveExtracted"@);
                let count: nat = match root.archive_member_count {
                    Some(c) => c as nat,
                    None => written,
                };
                let depths: nat = match deepest {
                    Some(d) => d as nat + 1,
                    None => 1,
                };
                let reached: nat = match deepest {
                    Some(d) => d as nat,
                    None => 0,
                };
                StepSpec {
                    status: Status::Done,
                    prov: Some(
                        if observed is Some {
                            Prov::Observed
                        } else {
                            Prov::Inferred
                        },
                    ),
                    at: match observed {
                        Some(a) => event_at_spec(a),
                        None => at_of_spec(root.archive_extracted_at),
                    },
                    detail: "ArchiveExtracted · "@ + dec(count) + " members at "@ + dec(depths) + " depth"@ + (if depths
                        == 1 {
                        seq![]
                    } else {
                        "s"@
                    }),
                    why: "The walk reached depth "@ + dec(reached)
                        + " and wrote every member back into raw. Depth is the thing to check: nested extraction was silently broken until 2026-08-14."@,
                    meta: seq![("MEMBERS"@, dec(count)), ("DEEPEST"@, dec(reached))],
                }
            } else if extraction_is(root, "Extracting"@) {
                StepSpec {
                    status: if stalled {
                        Status::Stalled
                    } else {
                        Status::Waiting
                    },
                    prov: Some(Prov::Inferred),
                    at: clock_or_dash(last),
                    detail: if stalled {
                        of + " members written, then no progress for "@ + match last {
                            Some(p) => span_spec(whole_seconds(now - p)),
                            None => "an unknown time"@,
                        }
                    } else {
                        "walking — "@ + of + " members written so far"@
                    },
                    why: if stalled {
                        "The walk wrote members and stopped. No ArchiveExtracted event was written and no failure was reported — the Job replica ended mid-walk. The stall is inferred from the absence of progress, which is the only signal there is."@
                    } else {
                        "The walk is writing members; progress is read from each member's last write."@
                    },
                    meta: seq![("WRITTEN"@, of), ("DEEPEST"@, depth_text(deepest, depth_total(t)))] + opt_fact(
                        "LAST PROGRESS"@,
                        match last {
                            Some(p) => Some(span_spec(whole_seconds(now - p)) + " ago"@),
                            None => None,
                        },
                    ) + opt_fact("REPLICA"@, replica_in(t.logs.entries@)),
                }
            } else if extraction_is(root, "ExtractionFailed"@) {
                StepSpec {
                    status: Status::Failed,
                    prov: Some(Prov::Checked),
                    at: at_of_spec(root.archive_extracted_at),
                    detail: "extraction failed after "@ + dec(written) + " members"@,
                    why: "The catalog marks the root ExtractionFailed, but no failure event was found to say why."@,
                    meta: seq![],
                }
            } else if root.promoted_at is None {
                StepSpec {
                    status: if left_main_line(root) {
                        Status::Skipped
                    } else {
                        Status::Waiting
                    },
                    prov: Some(Prov::Checked),
                    at: DASH@,
                    detail: "waits on promotion"@,
                    why: "An archive is extracted from raw, so the walk cannot start before promotion."@,
                    meta: seq![],
                }
            } else {
                StepSpec {
                    status: Status::Waiting,
                    prov: Some(Prov::Checked),
                    at: DASH@,
                    detail: "promoted, extraction not started"@,
                    why: "The root is in raw but the extraction Job has not marked it Extracting yet."@,
                    meta: seq![],
                }
            },
        }
    }
}

fn replica_of(entries: &Vec<crate::model::LogRow>) -> (r: Option<String>)
    ensures
        text_opt(r) == replica_in(entries@),
{
    let mut i: usize = entries.len();
    proof {
        assert(entries@.take(i as int) =~= entries@);
    }
    while i > 0
        invariant
            i <= entries@.len(),
            replica_in(entries@) == replica_in(entries@.take(i as int)),
        decreases i,
    {
        proof {
            assert(entries@.take(i as int).drop_last() =~= entries@.take(i - 1));
            assert(entries@.take(i as int).last() == entries@[i - 1]);
        }
        match &entries[i - 1].replica {
            Some(r) => {
                return Some(r.clone());
            },
            None => {},
        }
        i -= 1;
    }
    None
}

fn clock_or_dash_of(t: Option<i64>) -> (r: String)
    ensures
        r@ == clock_or_dash(t),
{
    match t {
        Some(p) => if fits_calendar(p) {
            clock(p)
        } else {
            DASH.to_owned()
        },
        None => DASH.to_owned(),
    }
}

pub fn step_extracted(t: &Trace, root: &Doc, now: i64) -> (s: Step)
    ensures
        step_is(s, StepId::Extracted, "Archive extracted"@, extracted_spec(*t, *root, now)),
{
    let label = "Archive extracted";
    let id = StepId::Extracted;
    if !t.is_archive {
        return make(
            id,
            label,
            Status::Skipped,
            Some(Prov::Checked),
            DASH.to_owned(),
            "not an archive".to_owned(),
            cat3(
                "Sniffed as ",
                or_dash_of(root.sniffed_mime.as_str()).as_str(),
                ", so no extraction is attempted. Skipped is a different fact from failed.",
            ),
            no_facts(),
        );
    }
    let members = members_of(&t.family);
    let listing = listing_of(t);
    let written = members.written;
    let deepest = members.deepest;
    let of = match listing.files {
        Some(n) => cat3(num_text(written as u64).as_str(), " of ", num_text(n as u64).as_str()),
        None => cat2(num_text(written as u64).as_str(), " of ?"),
    };
    if let Some(a) = last_event(t, root, "ArchiveExtractionFailed") {
        let m = vec![fact("MEMBERS WRITTEN", detail_or_of(a, "membersWritten", num_text(written as u64).as_str()))];
        proof {
            assert(facts_view(m@) =~= seq![("MEMBERS WRITTEN"@, detail_or(*a, "membersWritten"@, dec(written as nat)))]);
        }
        return make(
            id,
            label,
            Status::Failed,
            Some(Prov::Observed),
            event_at(a),
            cat2("ArchiveExtractionFailed · ", detail_or_of(a, "reason", "").as_str()),
            "The walk hit a budget or policy breach and quarantined the root. Members written before it stay inert.".to_owned(),
            m,
        );
    }
    if extraction_is_of(root, "Extracted") {
        let observed = last_event(t, root, "ArchiveExtracted");
        let count: u64 = match root.archive_member_count {
            Some(c) => c,
            None => written as u64,
        };
        let depths: u64 = match deepest {
            Some(d) => d as u64 + 1,
            None => 1,
        };
        let reached: u64 = match deepest {
            Some(d) => d as u64,
            None => 0,
        };
        let mut detail = lit("ArchiveExtracted · ");
        push_all(&mut detail, &dec_of(count as u128));
        push_all(&mut detail, &lit(" members at "));
        push_all(&mut detail, &dec_of(depths as u128));
        push_all(&mut detail, &lit(" depth"));
        if depths != 1 {
            push_all(&mut detail, &lit("s"));
        } else {
            proof {
                assert(detail@ =~= detail@ + seq![]);
            }
        }
        let m = vec![fact("MEMBERS", num_text(count)), fact("DEEPEST", num_text(reached))];
        proof {
            assert(facts_view(m@) =~= seq![("MEMBERS"@, dec(count as nat)), ("DEEPEST"@, dec(reached as nat))]);
        }
        return make(
            id,
            label,
            Status::Done,
            Some(
                if observed.is_some() {
                    Prov::Observed
                } else {
                    Prov::Inferred
                },
            ),
            match observed {
                Some(a) => event_at(a),
                None => at_of(&root.archive_extracted_at),
            },
            string_of(detail.as_slice()),
            cat3(
                "The walk reached depth ",
                num_text(reached).as_str(),
                " and wrote every member back into raw. Depth is the thing to check: nested extraction was silently broken until 2026-08-14.",
            ),
            m,
        );
    }
    if extraction_is_of(root, "Extracting") {
        let stalled = extraction_stalled_of(t, root, now);
        let last = last_progress_exec(t, root);
        let detail = if stalled {
            let gap = match last {
                Some(p) => span_between(p, now),
                None => "an unknown time".to_owned(),
            };
            cat3(of.as_str(), " members written, then no progress for ", gap.as_str())
        } else {
            cat3("walking — ", of.as_str(), " members written so far")
        };
        let depth = match (deepest, listing.depth) {
            (Some(d), Some(n)) => cat3(num_text(d as u64).as_str(), " of ", num_text(n as u64).as_str()),
            (Some(d), None) => num_text(d as u64),
            (None, Some(n)) => cat2("none of ", num_text(n as u64).as_str()),
            (None, None) => DASH.to_owned(),
        };
        let mut meta = vec![fact("WRITTEN", of.clone()), fact("DEEPEST", depth)];
        proof {
            assert(facts_view(meta@) =~= seq![("WRITTEN"@, of@), ("DEEPEST"@, depth_text(deepest, depth_total(*t)))]);
        }
        push_fact(
            &mut meta,
            "LAST PROGRESS",
            match last {
                Some(p) => Some(cat2(span_between(p, now).as_str(), " ago")),
                None => None,
            },
        );
        push_fact(&mut meta, "REPLICA", replica_of(&t.logs.entries));
        return make(
            id,
            label,
            if stalled {
                Status::Stalled
            } else {
                Status::Waiting
            },
            Some(Prov::Inferred),
            clock_or_dash_of(last),
            detail,
            if stalled {
                "The walk wrote members and stopped. No ArchiveExtracted event was written and no failure was reported — the Job replica ended mid-walk. The stall is inferred from the absence of progress, which is the only signal there is.".to_owned()
            } else {
                "The walk is writing members; progress is read from each member's last write.".to_owned()
            },
            meta,
        );
    }
    if extraction_is_of(root, "ExtractionFailed") {
        return make(
            id,
            label,
            Status::Failed,
            Some(Prov::Checked),
            at_of(&root.archive_extracted_at),
            cat3("extraction failed after ", num_text(written as u64).as_str(), " members"),
            "The catalog marks the root ExtractionFailed, but no failure event was found to say why.".to_owned(),
            no_facts(),
        );
    }
    if root.promoted_at.is_none() {
        return make(
            id,
            label,
            if left_main_line_of(root) {
                Status::Skipped
            } else {
                Status::Waiting
            },
            Some(Prov::Checked),
            DASH.to_owned(),
            "waits on promotion".to_owned(),
            "An archive is extracted from raw, so the walk cannot start before promotion.".to_owned(),
            no_facts(),
        );
    }
    make(
        id,
        label,
        Status::Waiting,
        Some(Prov::Checked),
        DASH.to_owned(),
        "promoted, extraction not started".to_owned(),
        "The root is in raw but the extraction Job has not marked it Extracting yet.".to_owned(),
        no_facts(),
    )
}

/// The eight steps, in pipeline order.
pub open spec fn steps_ok(steps: Seq<Step>, t: Trace, root: Doc, now: i64) -> bool {
    &&& steps.len() == 8
    &&& step_is(steps[0], StepId::Received, "Received from source"@, received_spec(t, root))
    &&& step_is(steps[1], StepId::Validated, "Validation gate"@, validated_spec(t, root))
    &&& step_is(steps[2], StepId::Admitted, "Admitted to landing"@, admitted_spec(t, root))
    &&& step_is(steps[3], StepId::Reference, "Reference resolved"@, reference_spec(t, root))
    &&& step_is(steps[4], StepId::Promoted, "Promoted landing → raw"@, promoted_spec(t, root))
    &&& step_is(steps[5], StepId::Dispatched, "Dispatched for evaluation"@, dispatched_spec(t, root))
    &&& step_is(steps[6], StepId::Extracted, "Archive extracted"@, extracted_spec(t, root, now))
    &&& step_is(steps[7], StepId::Curated, "Written to curated"@, curated_spec(t, root))
}

pub fn steps(t: &Trace, root: &Doc, now: i64) -> (r: Vec<Step>)
    ensures
        steps_ok(r@, *t, *root, now),
{
    let r = vec![
        step_received(t, root),
        step_validated(t, root),
        step_admitted(t, root),
        step_reference(t, root),
        step_promoted(t, root),
        step_dispatched(t, root),
        step_extracted(t, root, now),
        step_curated(t, root),
    ];
    r
}


/// Promotion writes no audit event, so a completed promotion is only ever
/// shown as deduced from the catalog, never as observed.
pub proof fn law_promotion_is_never_observed(t: Trace, root: Doc)
    ensures
        promoted_spec(t, root).status == Status::Done ==> promoted_spec(t, root).prov == Some(Prov::Inferred),
{
}

/// A quarantine because the metadata never resolved is an expiry: it does not
/// fail the validation step, and it fails the reference step instead.
pub proof fn law_expiry_is_not_a_refusal(t: Trace, root: Doc)
    requires
        expired_pending(t, root),
        last_event_spec(t, root, "UploadRejected"@) is None,
        !pending(root),
        has_prerequisite(t, root),
    ensures
        validated_spec(t, root).status != Status::Failed,
        reference_spec(t, root).status == Status::Failed,
{
}

/// A zone the storage account does not have is reported as not built, never
/// as an absent copy.
pub proof fn law_missing_zone_is_not_built(t: Trace, root: Doc)
    requires
        !curated_built(t),
    ensures
        curated_spec(t, root).status == Status::NotBuilt,
        curated_spec(t, root).prov is None,
{
}

/// A live extraction lease keeps a quiet walk out of stalled.
pub proof fn law_live_lease_is_never_stalled(t: Trace, root: Doc, now: i64)
    requires
        opt_instant(root.archive_extraction_lease_expires_at) matches Some(l) && l > now,
    ensures
        !extraction_stalled(t, root, now),
        extraction_is(root, "Extracting"@) && t.is_archive && last_event_spec(t, root, "ArchiveExtractionFailed"@) is None
            ==> extracted_spec(t, root, now).status == Status::Waiting,
{
    reveal_strlit("Extracted");
    reveal_strlit("Extracting");
    assert("Extracted"@.len() != "Extracting"@.len());
}

proof fn lemma_audit_row_found(audit: Seq<AuditRow>, root: Doc, name: Seq<char>, i: int)
    requires
        0 <= i < audit.len(),
        audit[i].event_type@ == name,
        audit[i].document_id@ == root.document_id@,
    ensures
        last_event_in(audit, root, name) matches Some(a) && a.event_type@ == name && a.document_id@
            == root.document_id@ && exists|j: int| 0 <= j < audit.len() && audit[j] == a,
    decreases audit.len(),
{
    if !is_event(audit.last(), root, name) {
        assert(i < audit.len() - 1);
        assert(audit.drop_last()[i] == audit[i]);
        lemma_audit_row_found(audit.drop_last(), root, name, i);
        let a = last_event_in(audit.drop_last(), root, name)->0;
        let j = choose|j: int| 0 <= j < audit.drop_last().len() && audit.drop_last()[j] == a;
        assert(audit[j] == a);
    } else {
        assert(audit[audit.len() - 1] == audit.last());
    }
}

/// A failed dispatch is always shown: whenever the audit holds a
/// `DocumentDispatchFailed` entry for the document, its Dispatched step is
/// Failed, observed, says the evaluate notification could not be sent, and is
/// timed at one of those entries.
pub proof fn law_a_failed_dispatch_is_shown(t: Trace, root: Doc, i: int)
    requires
        0 <= i < t.audit@.len(),
        t.audit@[i].event_type@ == "DocumentDispatchFailed"@,
        t.audit@[i].document_id@ == root.document_id@,
    ensures
        dispatched_spec(t, root).status == Status::Failed,
        dispatched_spec(t, root).prov == Some(Prov::Observed),
        dispatched_spec(t, root).detail == "the evaluate notification could not be sent"@,
        exists|j: int|
            0 <= j < t.audit@.len() && t.audit@[j].event_type@ == "DocumentDispatchFailed"@
                && t.audit@[j].document_id@ == root.document_id@
                && dispatched_spec(t, root).at == event_at_spec(#[trigger] t.audit@[j]),
{
    lemma_audit_row_found(t.audit@, root, "DocumentDispatchFailed"@, i);
}

proof fn lemma_no_audit_row(audit: Seq<AuditRow>, root: Doc, name: Seq<char>)
    requires
        forall|j: int|
            0 <= j < audit.len() ==> !(#[trigger] audit[j].event_type@ == name && audit[j].document_id@
                == root.document_id@),
    ensures
        last_event_in(audit, root, name) is None,
    decreases audit.len(),
{
    if audit.len() > 0 {
        assert(!is_event(audit[audit.len() - 1], root, name));
        assert forall|j: int| 0 <= j < audit.drop_last().len() implies !(#[trigger] audit.drop_last()[j].event_type@
            == name && audit.drop_last()[j].document_id@ == root.document_id@) by {
            assert(audit.drop_last()[j] == audit[j]);
        }
        lemma_no_audit_row(audit.drop_last(), root, name);
    }
}

/// Without a failed dispatch in the audit, the Dispatched step is Done when
/// the audit records a dispatch (observed) or, failing that, the catalog has
/// a dispatch time (inferred); a promoted document with neither is waiting.
pub proof fn law_dispatch_without_a_failure(t: Trace, root: Doc)
    requires
        forall|j: int|
            0 <= j < t.audit@.len() ==> !(#[trigger] t.audit@[j].event_type@ == "DocumentDispatchFailed"@
                && t.audit@[j].document_id@ == root.document_id@),
    ensures
        (exists|j: int|
            0 <= j < t.audit@.len() && #[trigger] t.audit@[j].event_type@ == "DocumentDispatched"@
                && t.audit@[j].document_id@ == root.document_id@) ==> dispatched_spec(t, root).status
            == Status::Done && dispatched_spec(t, root).prov == Some(Prov::Observed),
        (forall|j: int|
            0 <= j < t.audit@.len() ==> !(#[trigger] t.audit@[j].event_type@ == "DocumentDispatched"@
                && t.audit@[j].document_id@ == root.document_id@)) ==> {
            &&& root.dispatched_at is Some ==> dispatched_spec(t, root).status == Status::Done
                && dispatched_spec(t, root).prov == Some(Prov::Inferred)
            &&& (root.dispatched_at is None && root.promoted_at is Some) ==> dispatched_spec(t, root).status
                == Status::Waiting && dispatched_spec(t, root).prov is None && dispatched_spec(t, root).detail
                == "promoted, not dispatched yet"@
        },
{
    lemma_no_audit_row(t.audit@, root, "DocumentDispatchFailed"@);
    if exists|j: int|
        0 <= j < t.audit@.len() && #[trigger] t.audit@[j].event_type@ == "DocumentDispatched"@
            && t.audit@[j].document_id@ == root.document_id@ {
        let j = choose|j: int|
            0 <= j < t.audit@.len() && #[trigger] t.audit@[j].event_type@ == "DocumentDispatched"@
                && t.audit@[j].document_id@ == root.document_id@;
        lemma_audit_row_found(t.audit@, root, "DocumentDispatched"@, j);
    }
    if forall|j: int|
        0 <= j < t.audit@.len() ==> !(#[trigger] t.audit@[j].event_type@ == "DocumentDispatched"@
            && t.audit@[j].document_id@ == root.document_id@) {
        lemma_no_audit_row(t.audit@, root, "DocumentDispatched"@);
    }
}

/// A refusal the audit records is always shown: an `UploadRejected` entry for
/// the document makes its Validated step Failed and observed.
pub proof fn law_a_recorded_rejection_is_shown(t: Trace, root: Doc, i: int)
    requires
        0 <= i < t.audit@.len(),
        t.audit@[i].event_type@ == "UploadRejected"@,
        t.audit@[i].document_id@ == root.document_id@,
    ensures
        validated_spec(t, root).status == Status::Failed,
        validated_spec(t, root).prov == Some(Prov::Observed),
{
    lemma_audit_row_found(t.audit@, root, "UploadRejected"@, i);
}

/// A stalled promotion the sweeper recorded is always shown: a
/// `DocumentPromotionStalled` entry for the document makes its Promoted step
/// Stalled and observed, whatever the catalog says.
pub proof fn law_a_recorded_promotion_stall_is_shown(t: Trace, root: Doc, i: int)
    requires
        0 <= i < t.audit@.len(),
        t.audit@[i].event_type@ == "DocumentPromotionStalled"@,
        t.audit@[i].document_id@ == root.document_id@,
    ensures
        promoted_spec(t, root).status == Status::Stalled,
        promoted_spec(t, root).prov == Some(Prov::Observed),
{
    lemma_audit_row_found(t.audit@, root, "DocumentPromotionStalled"@, i);
}

/// A failed extraction is always shown: for an archive, an
/// `ArchiveExtractionFailed` entry for the document makes its Extracted step
/// Failed and observed, whatever else the catalog says. A document that is no
/// archive is never extracted: its step is Skipped.
pub proof fn law_a_recorded_extraction_failure_is_shown(t: Trace, root: Doc, now: i64, i: int)
    requires
        0 <= i < t.audit@.len(),
        t.audit@[i].event_type@ == "ArchiveExtractionFailed"@,
        t.audit@[i].document_id@ == root.document_id@,
    ensures
        t.is_archive ==> extracted_spec(t, root, now).status == Status::Failed,
        t.is_archive ==> extracted_spec(t, root, now).prov == Some(Prov::Observed),
        !t.is_archive ==> extracted_spec(t, root, now).status == Status::Skipped,
{
    lemma_audit_row_found(t.audit@, root, "ArchiveExtractionFailed"@, i);
}

} // verus!
