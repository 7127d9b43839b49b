//! The panels below the trace map: zone by zone, and declared against
//! resolved metadata.

use vstd::prelude::*;
use crate::format::{bytes, date, day_minute, fits_calendar, in_calendar, parse_opt, utc_text, DASH};
use crate::model::{attribute_spec, strings, Attribute, Doc, Trace};
use crate::text::{
    chars_of, dec, dec_of, dec_signed, eq_ignore_ascii_case, eq_ignore_ascii_case_of, lit, push_all, slice,
    starts_with, starts_with_of, str_eq, string_of,
};
use crate::trace_steps::{
    cat2, cat3, curated_address, curated_count, has_prerequisite, mime_agrees, or_dash_of, or_dash_text, pending,
    quarantine_reason, quarantine_reason_of, signed_text, text_opt,
};
use crate::trace_tree::{bytes_text, doc_size, has_path_of, written_count};
use crate::trace_view::{MetaRow, Tone, ZoneRow};
use crate::transit::{blob_of, blob_of_exec, landing_deletes, landing_deletes_exec};

verus! {

/// The five zones, in their usual order.
pub const ZONES: [&'static str; 5] = ["landing", "raw", "quarantine", "rejected", "curated"];

/// The zones in the order the zone panel lists them: where the bytes are now first.
pub open spec fn zone_order(at: Option<Seq<char>>) -> Seq<Seq<char>> {
    match at {
        Some(z) => seq![z] + (if z != "landing"@ {
            seq!["landing"@]
        } else {
            seq![]
        }) + (if z != "raw"@ {
            seq!["raw"@]
        } else {
            seq![]
        }) + (if z != "quarantine"@ {
            seq!["quarantine"@]
        } else {
            seq![]
        }) + (if z != "rejected"@ {
            seq!["rejected"@]
        } else {
            seq![]
        }) + (if z != "curated"@ {
            seq!["curated"@]
        } else {
            seq![]
        }),
        None => seq!["landing"@, "raw"@, "quarantine"@, "rejected"@, "curated"@],
    }
}

/// What a zone's note says when the check ran.
pub open spec fn zone_note(t: Trace, root: Doc, zone: Seq<char>, present: bool) -> Seq<char> {
    if zone == "landing"@ {
        if present {
            "As the caller wrote it."@ + match landing_deletes(t, root) {
                Some(d) => " Deleted on "@ + utc_text(d, "%Y-%m-%d"@) + " by the "@ + dec_signed(
                    t.env.landing_retention_days as int,
                ) + "-day lifecycle rule."@,
                None => seq![],
            }
        } else if root.promoted_at is Some {
            "Gone: promoted to raw, and landing is transient."@
        } else {
            "Nothing at the recorded landing address."@
        }
    } else if zone == "raw"@ {
        if present {
            if t.is_archive {
                "The source of truth for content. Members sit beside it under the same revision."@
            } else {
                "The source of truth for content."@
            }
        } else if pending(root) {
            "Not promoted: the reference lookup has not resolved. raw is the source of truth for content once it exists."@
        } else if root.promoted_at is Some {
            "catalog.promotedAt is set, yet nothing is at the raw address."@
        } else {
            "Not promoted."@
        }
    } else if zone == "quarantine"@ {
        if present {
            "Refused or expired: "@ + match quarantine_reason(t, root) {
                Some(r) => r,
                None => "no reason recorded"@,
            } + "."@
        } else {
            "Not refused by any rule. A terminal sibling of raw, not a later stage."@
        }
    } else if zone == "rejected"@ {
        if present {
            "Failed the validation gate."@
        } else if root.uploaded_at is Some {
            "Passed the validation gate, so nothing was written here."@
        } else {
            "Nothing uploaded yet, so nothing to reject."@
        }
    } else if zone == "curated"@ && present {
        "The consumer-facing copy."@
    } else if zone == "curated"@ && t.is_archive {
        "Archive roots are not offered to consumers; their members are."@
    } else {
        "No curated copy for this document."@
    }
}

/// One row of the zone panel.
pub open spec fn zone_row_ok(z: ZoneRow, t: Trace, root: Doc, zone: Seq<char>) -> bool {
    let check = blob_of(t.blobs@, zone);
    let built = match check {
        Some(b) => b.container_exists,
        None => strings(t.env.containers@).contains(zone),
    };
    let present = check matches Some(b) && b.exists == Some(true);
    let error: Option<Seq<char>> = match check {
        Some(b) => text_opt(b.error),
        None => None,
    };
    let address_only = zone == "curated"@ && t.is_archive && curated_address(root) is Some && !present;
    &&& z.zone@ == zone
    &&& z.present == present
    &&& z.built == built
    &&& z.path@ == if address_only {
        "curated/"@ + curated_address(root)->0
    } else if present && check->0.path is Some {
        check->0.container@ + "/"@ + check->0.path->0@
    } else {
        DASH@
    }
    &&& z.size@ == if present && check->0.size is Some {
        bytes_text(check->0.size->0)
    } else {
        DASH@
    }
    &&& if address_only {
        &&& z.tag@ == "address only"@
        &&& z.note@ == "Archive roots get a curated address but never bytes; their members are placed one by one — "@
            + dec(curated_count(t.family@)) + " of "@ + dec(written_count(t.family@)) + " are in curated."@
    } else if !built {
        z.tag@ == "zone not built"@ && z.note@ == "The container does not exist in this storage account."@
    } else if error is Some {
        z.tag@ == "unknown"@ && z.note@ == "Could not check: "@ + error->0
    } else {
        &&& z.tag@ == if present {
            "object exists"@
        } else {
            "no object"@
        }
        &&& z.note@ == zone_note(t, root, zone, present)
    }
}

fn zone_note_of(t: &Trace, root: &Doc, zone: &str, present: bool) -> (r: String)
    ensures
        r@ == zone_note(*t, *root, zone@, present),
{
    if str_eq(zone, "landing") {
        if present {
            let mut v = lit("As the caller wrote it.");
            match landing_deletes_exec(t, root) {
                Some(d) => {
                    let mut w = lit(" Deleted on ");
                    push_all(&mut w, &chars_of(date(d).as_str()));
                    push_all(&mut w, &lit(" by the "));
                    push_all(&mut w, &chars_of(signed_text(t.env.landing_retention_days).as_str()));
                    push_all(&mut w, &lit("-day lifecycle rule."));
                    push_all(&mut v, &w);
                },
                None => {
                    proof {
                        assert(v@ =~= v@ + seq![]);
                    }
                },
            }
            string_of(v.as_slice())
        } else if root.promoted_at.is_some() {
            "Gone: promoted to raw, and landing is transient.".to_owned()
        } else {
            "Nothing at the recorded landing address.".to_owned()
        }
    } else if str_eq(zone, "raw") {
        if present {
            if t.is_archive {
                "The source of truth for content. Members sit beside it under the same revision.".to_owned()
            } else {
                "The source of truth for content.".to_owned()
            }
        } else if str_eq(root.state.as_str(), "PendingMetadata") {
            "Not promoted: the reference lookup has not resolved. raw is the source of truth for content once it exists.".to_owned()
        } else if root.promoted_at.is_some() {
            "catalog.promotedAt is set, yet nothing is at the raw address.".to_owned()
        } else {
            "Not promoted.".to_owned()
        }
    } else if str_eq(zone, "quarantine") {
        if present {
            let reason = match quarantine_reason_of(t, root) {
                Some(r) => r,
                None => "no reason recorded".to_owned(),
            };
            cat3("Refused or expired: ", reason.as_str(), ".")
        } else {
            "Not refused by any rule. A terminal sibling of raw, not a later stage.".to_owned()
        }
    } else if str_eq(zone, "rejected") {
        if present {
            "Failed the validation gate.".to_owned()
        } else if root.uploaded_at.is_some() {
            "Passed the validation gate, so nothing was written here.".to_owned()
        } else {
            "Nothing uploaded yet, so nothing to reject.".to_owned()
        }
    } else if str_eq(zone, "curated") && present {
        "The consumer-facing copy.".to_owned()
    } else if str_eq(zone, "curated") && t.is_archive {
        "Archive roots are not offered to consumers; their members are.".to_owned()
    } else {
        "No curated copy for this document.".to_owned()
    }
}

fn curated_share(family: &Vec<Doc>) -> (r: (usize, usize))
    ensures
        r.0 == curated_count(family@),
        r.1 == written_count(family@),
{
    let mut placed: usize = 0;
    let mut files: usize = 0;
    let mut i: usize = 0;
    while i < family.len()
        invariant
            i <= family@.len(),
            placed == curated_count(family@.take(i as int)),
            files == written_count(family@.take(i as int)),
            placed <= i,
            files <= i,
        decreases family@.len() - i,
    {
        proof {
            assert(family@.take(i + 1).drop_last() =~= family@.take(i as int));
            assert(family@.take(i + 1).last() == family@[i as int]);
        }
        if has_path_of(&family[i].curated) {
            placed += 1;
        }
        if has_path_of(&family[i].raw) {
            files += 1;
        }
        i += 1;
    }
    proof {
        assert(family@.take(i as int) =~= family@);
    }
    (placed, files)
}

pub fn zone_row(t: &Trace, root: &Doc, zone: &str) -> (z: ZoneRow)
    ensures
        zone_row_ok(z, *t, *root, zone@),
{
    let check = blob_of_exec(&t.blobs, zone);
    let built = match check {
        Some(b) => b.container_exists,
        None => t.env.has_container(zone),
    };
    let present = match check {
        Some(b) => b.exists == Some(true),
        None => false,
    };
    let address: Option<String> = match &root.curated {
        Some(c) => if c.path.as_str().is_empty() {
            None
        } else {
            Some(c.path.clone())
        },
        None => None,
    };
    proof {
        assert(text_opt(address) == curated_address(*root));
    }
    let address_only = str_eq(zone, "curated") && t.is_archive && address.is_some() && !present;
    let path = if address_only {
        cat2("curated/", address.unwrap().as_str())
    } else {
        match check {
            Some(b) => match &b.path {
                Some(p) => if present {
                    cat3(b.container.as_str(), "/", p.as_str())
                } else {
                    DASH.to_owned()
                },
                None => DASH.to_owned(),
            },
            None => DASH.to_owned(),
        }
    };
    let size = match check {
        Some(b) => match b.size {
            Some(n) => if present {
                bytes(n)
            } else {
                DASH.to_owned()
            },
            None => DASH.to_owned(),
        },
        None => DASH.to_owned(),
    };
    let error: Option<String> = match check {
        Some(b) => b.error.clone(),
        None => None,
    };
    let (tag, note) = if address_only {
        let (placed, files) = curated_share(&t.family);
        let mut v = lit("Archive roots get a curated address but never bytes; their members are placed one by one — ");
        push_all(&mut v, &dec_of(placed as u128));
        push_all(&mut v, &lit(" of "));
        push_all(&mut v, &dec_of(files as u128));
        push_all(&mut v, &lit(" are in curated."));
        ("address only".to_owned(), string_of(v.as_slice()))
    } else if !built {
        ("zone not built".to_owned(), "The container does not exist in this storage account.".to_owned())
    } else {
        match error {
            Some(e) => ("unknown".to_owned(), cat2("Could not check: ", e.as_str())),
            None => (
                if present {
                    "object exists".to_owned()
                } else {
                    "no object".to_owned()
                },
                zone_note_of(t, root, zone, present),
            ),
        }
    };
    ZoneRow { zone: zone.to_owned(), present, built, tag, path, note, size }
}

/// Every zone, where the bytes are now first.
pub fn zones(t: &Trace, root: &Doc, zone_at: Option<&str>) -> (rows: Vec<ZoneRow>)
    ensures
        rows@.len() == zone_order(
            match zone_at {
                Some(z) => Some(z@),
                None => None,
            },
        ).len(),
        forall|i: int|
            0 <= i < rows@.len() ==> zone_row_ok(
                #[trigger] rows@[i],
                *t,
                *root,
                zone_order(
                    match zone_at {
                        Some(z) => Some(z@),
                        None => None,
                    },
                )[i],
            ),
{
    let ghost order = zone_order(
        match zone_at {
            Some(z) => Some(z@),
            None => None,
        },
    );
    let mut names: Vec<&str> = Vec::new();
    match zone_at {
        Some(at) => {
            names.push(at);
            if !str_eq(at, "landing") {
                names.push("landing");
            }
            if !str_eq(at, "raw") {
                names.push("raw");
            }
            if !str_eq(at, "quarantine") {
                names.push("quarantine");
            }
            if !str_eq(at, "rejected") {
                names.push("rejected");
            }
            if !str_eq(at, "curated") {
                names.push("curated");
            }
        },
        None => {
            names.push("landing");
            names.push("raw");
            names.push("quarantine");
            names.push("rejected");
            names.push("curated");
        },
    }
    proof {
        assert(names@.map_values(|n: &str| n@) =~= order);
    }
    let mut rows: Vec<ZoneRow> = Vec::new();
    let mut i: usize = 0;
    while i < names.len()
        invariant
            i <= names@.len(),
            names@.map_values(|n: &str| n@) == order,
            rows@.len() == i,
            forall|j: int| 0 <= j < i ==> zone_row_ok(#[trigger] rows@[j], *t, *root, order[j]),
        decreases names@.len() - i,
    {
        proof {
            assert(names@.map_values(|n: &str| n@)[i as int] == names@[i as int]@);
        }
        rows.push(zone_row(t, root, names[i]));
        i += 1;
    }
    rows
}


/// The text with every leading copy of a prefix removed.
pub open spec fn strip_all(s: Seq<char>, p: Seq<char>) -> Seq<char>
    decreases s.len(),
{
    if p.len() > 0 && starts_with(s, p) && p.len() <= s.len() {
        strip_all(s.skip(p.len() as int), p)
    } else {
        s
    }
}

fn strip_all_of(s: &str, p: &str) -> (r: String)
    ensures
        r@ == strip_all(s@, p@),
{
    let pv = chars_of(p);
    let mut v = chars_of(s);
    while pv.len() > 0 && pv.len() <= v.len() && starts_with_of(&v, &pv)
        invariant
            pv@ == p@,
            strip_all(s@, p@) == strip_all(v@, p@),
        decreases v.len(),
    {
        v = slice(&v, pv.len(), v.len());
        proof {
            assert(v@ =~= v@.skip(0));
        }
    }
    string_of(v.as_slice())
}

/// A register attribute shown as its own row: under `reference.`, other
/// than the two the fixed rows show.
pub open spec fn is_extra(key: Seq<char>) -> bool {
    starts_with(key, "reference."@) && key != "reference.uniqueDocNumber"@ && key != "reference.sbmProjectNumber"@
}

/// The extra rows, as (label, resolved value).
pub open spec fn extra_rows(all: Seq<Attribute>, attrs: Seq<Attribute>) -> Seq<(Seq<char>, Seq<char>)>
    decreases attrs.len(),
{
    if attrs.len() == 0 {
        seq![]
    } else {
        extra_rows(all, attrs.drop_last()) + if is_extra(attrs.last().key@) {
            seq![
                (
                    strip_all(attrs.last().key@, "reference."@),
                    match attribute_spec(all, attrs.last().key@) {
                        Some(v) => v,
                        None => "null"@,
                    },
                ),
            ]
        } else {
            seq![]
        }
    }
}

pub open spec fn meta_row_is(
    r: MetaRow,
    label: Seq<char>,
    declared: Seq<char>,
    resolved: Seq<char>,
    flag: bool,
    pending: bool,
) -> bool {
    r.label@ == label && r.declared@ == declared && r.resolved@ == resolved && r.flag == flag && r.pending == pending
}

/// The number the caller declared: its business key, else its own document id.
pub open spec fn declared_number(root: Doc) -> Seq<char> {
    if root.business_key@.len() == 0 {
        root.source_document_id@
    } else {
        root.business_key@
    }
}

pub open spec fn number_flag(root: Doc) -> bool {
    match attribute_spec(root.attributes@, "reference.uniqueDocNumber"@) {
        Some(n) => declared_number(root).len() > 0 && !eq_ignore_ascii_case(n, declared_number(root)),
        None => false,
    }
}

pub open spec fn mime_flag(root: Doc) -> bool {
    mime_agrees(root) == Some(false)
}

pub open spec fn size_flag(root: Doc) -> bool {
    match (root.size_bytes, root.actual_size_bytes) {
        (Some(a), Some(b)) => a != b && a > 0,
        _ => false,
    }
}

/// What a lookup not yet made reads as.
pub open spec fn unresolved(t: Trace, root: Doc, label: Seq<char>) -> Seq<char> {
    if pending(root) {
        label
    } else if has_prerequisite(t, root) {
        "null"@
    } else {
        "not looked up"@
    }
}

/// The reference generation the register was read at, with when it was built.
pub open spec fn generation_text(t: Trace) -> Option<Seq<char>> {
    match t.reference {
        Some(p) => match p.generation {
            Some(g) => Some(dec_signed(g as int) + match p.built_at {
                Some(b) => match crate::format::parse_spec(b@) {
                    Some(ms) => if in_calendar(ms) {
                        " · "@ + utc_text(ms, "%m-%d %H:%MZ"@)
                    } else {
                        seq![]
                    },
                    None => seq![],
                },
                None => seq![],
            }),
            None => None,
        },
        None => None,
    }
}

pub open spec fn meta_note(root: Doc, t: Trace) -> (Seq<char>, Tone) {
    if mime_flag(root) {
        (
            "declaredMime ≠ sniffedMime ("@ + root.mime_type@ + " against "@ + root.sniffed_mime@
                + "). Routing reads the sniffed type — the shape of the bug that once made every plain ZIP sniff as a Word document."@,
            Tone::Bad,
        )
    } else if number_flag(root) {
        ("The register's document number differs from the one the caller declared."@, Tone::Bad)
    } else if size_flag(root) {
        ("The declared size and the bytes that arrived differ."@, Tone::Bad)
    } else if pending(root) {
        (
            "Declared and sniffed types agree, and the register holds no row for this document number yet — the pending attributes are what promotion is waiting on."@,
            Tone::Info,
        )
    } else if !has_prerequisite(t, root) {
        ("This source has no metadata prerequisite, so nothing was resolved against the register."@, Tone::Info)
    } else {
        (
            "Everything the caller declared is corroborated by the register, and the sniffed type matches the declared one. This is what agreement looks like."@,
            Tone::Good,
        )
    }
}

/// The declared-against-resolved panel: seven fixed rows, then every other
/// register attribute, then a note on what disagrees.
pub open spec fn meta_ok(rows: Seq<MetaRow>, note: Seq<char>, tone: Tone, t: Trace, root: Doc) -> bool {
    let number = attribute_spec(root.attributes@, "reference.uniqueDocNumber"@);
    let project = attribute_spec(root.attributes@, "reference.sbmProjectNumber"@);
    let extras = extra_rows(root.attributes@, root.attributes@);
    &&& rows.len() == 7 + extras.len()
    &&& meta_row_is(
        rows[0],
        "Document number"@,
        or_dash_text(declared_number(root)),
        match number {
            Some(n) => n,
            None => unresolved(t, root, "no row"@),
        },
        number_flag(root),
        pending(root) && number is None,
    )
    &&& meta_row_is(
        rows[1],
        "SBM project number"@,
        DASH@,
        match project {
            Some(p) => p,
            None => unresolved(t, root, "pending"@),
        },
        false,
        pending(root) && project is None,
    )
    &&& meta_row_is(rows[2], "Document type"@, or_dash_text(root.document_type@), or_dash_text(root.document_type@), false, false)
    &&& meta_row_is(rows[3], "Declared MIME"@, or_dash_text(root.mime_type@), or_dash_text(root.sniffed_mime@), mime_flag(root), false)
    &&& meta_row_is(rows[4], "Source system"@, or_dash_text(root.source_system@), or_dash_text(root.source_system@), false, false)
    &&& meta_row_is(
        rows[5],
        "Size"@,
        match root.size_bytes {
            Some(n) => bytes_text(n),
            None => DASH@,
        },
        match doc_size(root) {
            Some(n) => bytes_text(n),
            None => DASH@,
        },
        size_flag(root),
        false,
    )
    &&& meta_row_is(
        rows[6],
        "Reference gen"@,
        DASH@,
        match generation_text(t) {
            Some(g) => g,
            None => if has_prerequisite(t, root) {
                "no pointer"@
            } else {
                DASH@
            },
        },
        false,
        false,
    )
    &&& forall|i: int|
        0 <= i < extras.len() ==> meta_row_is(#[trigger] rows[7 + i], extras[i].0, DASH@, extras[i].1, false, false)
    &&& note == meta_note(root, t).0
    &&& tone == meta_note(root, t).1
}

fn row(label: &str, declared: String, resolved: String, flag: bool, pending: bool) -> (r: MetaRow)
    ensures
        meta_row_is(r, label@, declared@, resolved@, flag, pending),
{
    MetaRow { label: label.to_owned(), declared, resolved, flag, pending }
}

fn bytes_or_dash(n: Option<u64>) -> (r: String)
    ensures
        r@ == match n {
            Some(x) => bytes_text(x),
            None => DASH@,
        },
{
    match n {
        Some(x) => bytes(x),
        None => DASH.to_owned(),
    }
}

pub fn meta(t: &Trace, root: &Doc) -> (r: (Vec<MetaRow>, String, Tone))
    ensures
        meta_ok(r.0@, r.1@, r.2, *t, *root),
{
    let pend = str_eq(root.state.as_str(), "PendingMetadata");
    let looked_up = match &t.source {
        Some(src) => src.reference_set.is_some(),
        None => false,
    } || root.pending_since.is_some();
    let declared = if root.business_key.as_str().is_empty() {
        root.source_document_id.clone()
    } else {
        root.business_key.clone()
    };
    let number = root.attribute("reference.uniqueDocNumber");
    let project = root.attribute("reference.sbmProjectNumber");
    let nflag = match &number {
        Some(n) => !declared.as_str().is_empty() && !eq_ignore_ascii_case_of(
            &chars_of(n.as_str()),
            &chars_of(declared.as_str()),
        ),
        None => false,
    };
    let mflag = if root.sniffed_mime.as_str().is_empty() || root.mime_type.as_str().is_empty() {
        false
    } else {
        !eq_ignore_ascii_case_of(&chars_of(root.sniffed_mime.as_str()), &chars_of(root.mime_type.as_str()))
    };
    let sflag = match (root.size_bytes, root.actual_size_bytes) {
        (Some(a), Some(b)) => a != b && a > 0,
        _ => false,
    };
    let unresolved_no_row = if pend {
        "no row".to_owned()
    } else if looked_up {
        "null".to_owned()
    } else {
        "not looked up".to_owned()
    };
    let unresolved_pending = if pend {
        "pending".to_owned()
    } else if looked_up {
        "null".to_owned()
    } else {
        "not looked up".to_owned()
    };
    let generation: Option<String> = match &t.reference {
        Some(p) => match p.generation {
            Some(g) => {
                let mut v = chars_of(signed_text(g).as_str());
                match parse_opt(&p.built_at) {
                    Some(ms) => if fits_calendar(ms) {
                        push_all(&mut v, &chars_of(cat2(" · ", day_minute(ms).as_str()).as_str()));
                    } else {
                        proof {
                            assert(v@ =~= v@ + seq![]);
                        }
                    },
                    None => {
                        proof {
                            assert(v@ =~= v@ + seq![]);
                        }
                    },
                }
                Some(string_of(v.as_slice()))
            },
            None => None,
        },
        None => None,
    };
    proof {
        assert(text_opt(generation) == generation_text(*t));
    }
    let size = match root.actual_size_bytes {
        Some(s) => Some(s),
        None => root.size_bytes,
    };
    let mut rows: Vec<MetaRow> = Vec::new();
    rows.push(
        row(
            "Document number",
            or_dash_of(declared.as_str()),
            match &number {
                Some(n) => n.clone(),
                None => unresolved_no_row,
            },
            nflag,
            pend && number.is_none(),
        ),
    );
    rows.push(
        row(
            "SBM project number",
            DASH.to_owned(),
            match &project {
                Some(p) => p.clone(),
                None => unresolved_pending,
            },
            false,
            pend && project.is_none(),
        ),
    );
    rows.push(
        row(
            "Document type",
            or_dash_of(root.document_type.as_str()),
            or_dash_of(root.document_type.as_str()),
            false,
            false,
        ),
    );
    rows.push(
        row("Declared MIME", or_dash_of(root.mime_type.as_str()), or_dash_of(root.sniffed_mime.as_str()), mflag, false),
    );
    rows.push(
        row(
            "Source system",
            or_dash_of(root.source_system.as_str()),
            or_dash_of(root.source_system.as_str()),
            false,
            false,
        ),
    );
    rows.push(row("Size", bytes_or_dash(root.size_bytes), bytes_or_dash(size), sflag, false));
    rows.push(
        row(
            "Reference gen",
            DASH.to_owned(),
            match generation {
                Some(g) => g,
                None => if looked_up {
                    "no pointer".to_owned()
                } else {
                    DASH.to_owned()
                },
            },
            false,
            false,
        ),
    );
    let ghost attrs = root.attributes@;
    let mut i: usize = 0;
    while i < root.attributes.len()
        invariant
            i <= attrs.len(),
            attrs == root.attributes@,
            rows@.len() == 7 + extra_rows(attrs, attrs.take(i as int)).len(),
            meta_row_is(
                rows@[0],
                "Document number"@,
                or_dash_text(declared_number(*root)),
                match attribute_spec(attrs, "reference.uniqueDocNumber"@) {
                    Some(n) => n,
                    None => unresolved(*t, *root, "no row"@),
                },
                number_flag(*root),
                pending(*root) && attribute_spec(attrs, "reference.uniqueDocNumber"@) is None,
            ),
            meta_row_is(
                rows@[1],
                "SBM project number"@,
                DASH@,
                match attribute_spec(attrs, "reference.sbmProjectNumber"@) {
                    Some(p) => p,
                    None => unresolved(*t, *root, "pending"@),
                },
                false,
                pending(*root) && attribute_spec(attrs, "reference.sbmProjectNumber"@) is None,
            ),
            meta_row_is(rows@[2], "Document type"@, or_dash_text(root.document_type@), or_dash_text(root.document_type@), false, false),
            meta_row_is(rows@[3], "Declared MIME"@, or_dash_text(root.mime_type@), or_dash_text(root.sniffed_mime@), mime_flag(*root), false),
            meta_row_is(rows@[4], "Source system"@, or_dash_text(root.source_system@), or_dash_text(root.source_system@), false, false),
            meta_row_is(
                rows@[5],
                "Size"@,
                match root.size_bytes {
                    Some(n) => bytes_text(n),
                    None => DASH@,
                },
                match doc_size(*root) {
                    Some(n) => bytes_text(n),
                    None => DASH@,
                },
                size_flag(*root),
                false,
            ),
            meta_row_is(
                rows@[6],
                "Reference gen"@,
                DASH@,
                match generation_text(*t) {
                    Some(g) => g,
                    None => if has_prerequisite(*t, *root) {
                        "no pointer"@
                    } else {
                        DASH@
                    },
                },
                false,
                false,
            ),
            forall|j: int|
                0 <= j < extra_rows(attrs, attrs.take(i as int)).len() ==> meta_row_is(
                    #[trigger] rows@[7 + j],
                    extra_rows(attrs, attrs.take(i as int))[j].0,
                    DASH@,
                    extra_rows(attrs, attrs.take(i as int))[j].1,
                    false,
                    false,
                ),
        decreases attrs.len() - i,
    {
        proof {
            assert(attrs.take(i + 1).drop_last() =~= attrs.take(i as int));
            assert(attrs.take(i + 1).last() == attrs[i as int]);
        }
        let key = root.attributes[i].key.as_str();
        let extra = starts_with_of(&chars_of(key), &lit("reference.")) && !str_eq(key, "reference.uniqueDocNumber")
            && !str_eq(key, "reference.sbmProjectNumber");
        if extra {
            let resolved = match root.attribute(key) {
                Some(v) => v,
                None => "null".to_owned(),
            };
            rows.push(row(strip_all_of(key, "reference.").as_str(), DASH.to_owned(), resolved, false, false));
        }
        i += 1;
    }
    proof {
        assert(attrs.take(i as int) =~= attrs);
    }
    let (note, tone) = if mflag {
        let mut v = lit("declaredMime ≠ sniffedMime (");
        push_all(&mut v, &chars_of(root.mime_type.as_str()));
        push_all(&mut v, &lit(" against "));
        push_all(&mut v, &chars_of(root.sniffed_mime.as_str()));
        push_all(
            &mut v,
            &lit("). Routing reads the sniffed type — the shape of the bug that once made every plain ZIP sniff as a Word document."),
        );
        (string_of(v.as_slice()), Tone::Bad)
    } else if nflag {
        ("The register's document number differs from the one the caller declared.".to_owned(), Tone::Bad)
    } else if sflag {
        ("The declared size and the bytes that arrived differ.".to_owned(), Tone::Bad)
    } else if pend {
        (
            "Declared and sniffed types agree, and the register holds no row for this document number yet — the pending attributes are what promotion is waiting on.".to_owned(),
            Tone::Info,
        )
    } else if !looked_up {
        ("This source has no metadata prerequisite, so nothing was resolved against the register.".to_owned(), Tone::Info)
    } else {
        (
            "Everything the caller declared is corroborated by the register, and the sniffed type matches the declared one. This is what agreement looks like.".to_owned(),
            Tone::Good,
        )
    };
    (rows, note, tone)
}

} // verus!
