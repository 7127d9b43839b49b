//! The transit map on the trace screen: the zones a document's bytes pass
//! through, the hops between them, and the branches it did or did not take.

use vstd::prelude::*;
use crate::format::{
    bytes, month_day, or_dash, parse_opt, parse_spec, span, span_spec, utc_text, whole_seconds, CALENDAR_FIRST_MS,
    CALENDAR_LAST_MS, DASH,
};
use crate::model::{BlobCheck, Doc, ExpectedEntry, Trace};
use crate::text::{chars_of, dec, dec_of, dec_signed, dec_signed_of, lit, push_all, str_eq, string_of};
use crate::trace_tree::{bytes_text, doc_size, family_containers, has_path};
use crate::trace_view::{
    depth_of, depth_spec, edge, edge_tone, find, step_of, BoxTone, Branch, MapBox, Prov, Status, Step, StepId,
    TransitMap,
};

verus! {

/// The first check of a zone.
pub open spec fn blob_of(blobs: Seq<BlobCheck>, zone: Seq<char>) -> Option<BlobCheck>
    decreases blobs.len(),
{
    if blobs.len() == 0 {
        None
    } else if blobs[0].zone@ == zone {
        Some(blobs[0])
    } else {
        blob_of(blobs.drop_first(), zone)
    }
}

pub fn blob_of_exec<'a>(blobs: &'a Vec<BlobCheck>, zone: &str) -> (r: Option<&'a BlobCheck>)
    ensures
        match r {
            Some(b) => blob_of(blobs@, zone@) == Some(*b),
            None => blob_of(blobs@, zone@) is None,
        },
{
    let mut i: usize = 0;
    proof {
        assert(blobs@.skip(0) =~= blobs@);
    }
    while i < blobs.len()
        invariant
            i <= blobs@.len(),
            blob_of(blobs@, zone@) == blob_of(blobs@.skip(i as int), zone@),
        decreases blobs@.len() - i,
    {
        proof {
            assert(blobs@.skip(i as int).drop_first() =~= blobs@.skip(i + 1));
        }
        if str_eq(blobs[i].zone.as_str(), zone) {
            return Some(&blobs[i]);
        }
        i += 1;
    }
    None
}

/// The platform reports an object in the zone.
pub open spec fn present(t: Trace, zone: Seq<char>) -> bool {
    match blob_of(t.blobs@, zone) {
        Some(b) => b.exists == Some(true),
        None => false,
    }
}

pub fn present_exec(t: &Trace, zone: &str) -> (b: bool)
    ensures
        b == present(*t, zone@),
{
    match blob_of_exec(&t.blobs, zone) {
        Some(b) => b.exists == Some(true),
        None => false,
    }
}

/// Where the bytes of truth are right now: the first zone holding an object,
/// terminal zones first.
pub open spec fn zone_at_spec(t: Trace) -> Option<Seq<char>> {
    if present(t, "quarantine"@) {
        Some("quarantine"@)
    } else if present(t, "rejected"@) {
        Some("rejected"@)
    } else if present(t, "raw"@) {
        Some("raw"@)
    } else if present(t, "landing"@) {
        Some("landing"@)
    } else if present(t, "curated"@) {
        Some("curated"@)
    } else {
        None
    }
}

pub fn zone_at(t: &Trace) -> (r: Option<&'static str>)
    ensures
        match r {
            Some(z) => zone_at_spec(*t) == Some(z@),
            None => zone_at_spec(*t) is None,
        },
{
    if present_exec(t, "quarantine") {
        Some("quarantine")
    } else if present_exec(t, "rejected") {
        Some("rejected")
    } else if present_exec(t, "raw") {
        Some("raw")
    } else if present_exec(t, "landing") {
        Some("landing")
    } else if present_exec(t, "curated") {
        Some("curated")
    } else {
        None
    }
}

/// The root recorded this audit event.
pub open spec fn had_event(t: Trace, root: Doc, name: Seq<char>) -> bool {
    exists|i: int| 0 <= i < t.audit@.len() && #[trigger] t.audit@[i].event_type@ == name
        && t.audit@[i].document_id@ == root.document_id@
}

pub fn had_event_exec(t: &Trace, root: &Doc, name: &str) -> (b: bool)
    ensures
        b == had_event(*t, *root, name@),
{
    let mut i: usize = 0;
    while i < t.audit.len()
        invariant
            i <= t.audit@.len(),
            forall|j: int| 0 <= j < i ==> !((#[trigger] t.audit@[j]).event_type@ == name@ && t.audit@[j].document_id@
                == root.document_id@),
        decreases t.audit@.len() - i,
    {
        if str_eq(t.audit[i].event_type.as_str(), name) && str_eq(t.audit[i].document_id.as_str(), root.document_id.as_str()) {
            return true;
        }
        i += 1;
    }
    false
}

/// An instant moved by whole days; none when it leaves the calendar.
pub open spec fn shifted(t: Option<i64>, days: int) -> Option<i64> {
    match t {
        Some(u) => if in_calendar_int(u + days * 86_400_000) {
            Some((u + days * 86_400_000) as i64)
        } else {
            None
        },
        None => None,
    }
}

pub open spec fn in_calendar_int(x: int) -> bool {
    CALENDAR_FIRST_MS <= x <= CALENDAR_LAST_MS
}

pub fn shifted_exec(t: Option<i64>, days: i64) -> (r: Option<i64>)
    ensures
        r == shifted(t, days as int),
{
    match t {
        Some(u) => {
            let x: i128 = u as i128 + days as i128 * 86_400_000;
            if CALENDAR_FIRST_MS as i128 <= x && x <= CALENDAR_LAST_MS as i128 {
                Some(x as i64)
            } else {
                None
            }
        },
        None => None,
    }
}

pub open spec fn opt_instant(o: Option<String>) -> Option<i64> {
    match o {
        Some(v) => parse_spec(v@),
        None => None,
    }
}

/// When the landing copy is deleted: the landing object's time (else the
/// catalog's upload time) plus the retention window.
pub open spec fn landing_deletes(t: Trace, root: Doc) -> Option<i64> {
    let from_blob = match blob_of(t.blobs@, "landing"@) {
        Some(b) => opt_instant(b.last_modified),
        None => None,
    };
    let arrived = match from_blob {
        Some(x) => Some(x),
        None => opt_instant(root.uploaded_at),
    };
    shifted(arrived, if t.env.landing_retention_days < 0 { 0 } else { t.env.landing_retention_days as int })
}

pub fn landing_deletes_exec(t: &Trace, root: &Doc) -> (r: Option<i64>)
    ensures
        r == landing_deletes(*t, *root),
{
    let from_blob = match blob_of_exec(&t.blobs, "landing") {
        Some(b) => parse_opt(&b.last_modified),
        None => None,
    };
    let arrived = match from_blob {
        Some(x) => Some(x),
        None => parse_opt(&root.uploaded_at),
    };
    let days = if t.env.landing_retention_days < 0 { 0 } else { t.env.landing_retention_days };
    shifted_exec(arrived, days)
}

/// The written members: how many, and their bytes (capped at the largest count).
pub open spec fn written_bytes(family: Seq<Doc>) -> u64
    decreases family.len(),
{
    if family.len() == 0 {
        0
    } else {
        let rest = written_bytes(family.drop_last());
        let m = family.last();
        if has_path(m.raw) && doc_size(m) is Some {
            if rest + doc_size(m)->0 > u64::MAX { u64::MAX } else { (rest + doc_size(m)->0) as u64 }
        } else {
            rest
        }
    }
}

pub open spec fn written_count(family: Seq<Doc>) -> nat {
    crate::trace_tree::written_count(family)
}

/// The deepest level a written member reached.
pub open spec fn deepest_reached(family: Seq<Doc>, containers: Seq<String>) -> Option<u32>
    decreases family.len(),
{
    if family.len() == 0 {
        None
    } else {
        let rest = deepest_reached(family.drop_last(), containers);
        let m = family.last();
        if has_path(m.raw) && m.path_from_root is Some {
            let d = depth_spec(m.path_from_root->0@, containers) as u32;
            match rest {
                Some(x) => if d > x { Some(d) } else { Some(x) },
                None => Some(d),
            }
        } else {
            rest
        }
    }
}

/// What the family's members add up to.
pub(crate) struct Members {
    pub(crate) written: usize,
    pub(crate) bytes: u64,
    pub(crate) deepest: Option<u32>,
}

pub(crate) fn members_of(family: &Vec<Doc>) -> (m: Members)
    ensures
        m.written == written_count(family@),
        m.bytes == written_bytes(family@),
        m.deepest == deepest_reached(family@, family_containers(family@)),
{
    let containers = crate::trace_tree::family_containers_of(family);
    let mut written: usize = 0;
    let mut total: u64 = 0;
    let mut deepest: Option<u32> = None;
    let mut i: usize = 0;
    while i < family.len()
        invariant
            i <= family@.len(),
            containers@ == family_containers(family@),
            written == written_count(family@.take(i as int)),
            written <= i,
            total == written_bytes(family@.take(i as int)),
            deepest == deepest_reached(family@.take(i as int), containers@),
        decreases family@.len() - i,
    {
        proof {
            assert(family@.take(i + 1).drop_last() =~= family@.take(i as int));
            assert(family@.take(i + 1).last() == family@[i as int]);
        }
        let m = &family[i];
        let has = match &m.raw {
            Some(x) => !x.path.as_str().is_empty(),
            None => false,
        };
        if has {
            written += 1;
            let size = match m.actual_size_bytes {
                Some(s) => Some(s),
                None => m.size_bytes,
            };
            match size {
                Some(s) => {
                    total = total.saturating_add(s);
                },
                None => {},
            }
            match &m.path_from_root {
                Some(p) => {
                    let d = depth_of(p.as_str(), containers.as_slice());
                    deepest = match deepest {
                        Some(x) => if d > x { Some(d) } else { Some(x) },
                        None => Some(d),
                    };
                },
                None => {},
            }
        }
        i += 1;
    }
    proof {
        assert(family@.take(i as int) =~= family@);
    }
    Members { written, bytes: total, deepest }
}


/// The files the archive listing names: neither containers nor refused.
pub open spec fn file_entries(entries: Seq<ExpectedEntry>) -> nat
    decreases entries.len(),
{
    if entries.len() == 0 {
        0
    } else {
        file_entries(entries.drop_last()) + if !entries.last().container && entries.last().rejected is None {
            1nat
        } else {
            0nat
        }
    }
}

/// How many files the listing says the archive holds; unknown when the
/// listing failed outright.
pub open spec fn expected_files(t: Trace) -> Option<nat> {
    match t.expected {
        Some(e) => if e.entries@.len() == 0 && e.error is Some {
            None
        } else {
            Some(file_entries(e.entries@))
        },
        None => None,
    }
}

/// The deepest level the listing names.
pub open spec fn max_depth(entries: Seq<ExpectedEntry>) -> Option<u32>
    decreases entries.len(),
{
    if entries.len() == 0 {
        None
    } else {
        let d = entries.last().depth;
        match max_depth(entries.drop_last()) {
            Some(x) => if d > x { Some(d) } else { Some(x) },
            None => Some(d),
        }
    }
}

pub open spec fn depth_total(t: Trace) -> Option<u32> {
    match t.expected {
        Some(e) => max_depth(e.entries@),
        None => None,
    }
}

pub(crate) struct Listing {
    pub(crate) files: Option<usize>,
    pub(crate) depth: Option<u32>,
}

pub(crate) fn listing_of(t: &Trace) -> (l: Listing)
    ensures
        match l.files {
            Some(n) => expected_files(*t) == Some(n as nat),
            None => expected_files(*t) is None,
        },
        l.depth == depth_total(*t),
{
    match &t.expected {
        Some(e) => {
            let mut files: usize = 0;
            let mut depth: Option<u32> = None;
            let mut i: usize = 0;
            while i < e.entries.len()
                invariant
                    i <= e.entries@.len(),
                    files == file_entries(e.entries@.take(i as int)),
                    files <= i,
                    depth == max_depth(e.entries@.take(i as int)),
                decreases e.entries@.len() - i,
            {
                proof {
                    assert(e.entries@.take(i + 1).drop_last() =~= e.entries@.take(i as int));
                    assert(e.entries@.take(i + 1).last() == e.entries@[i as int]);
                }
                if !e.entries[i].container && e.entries[i].rejected.is_none() {
                    files += 1;
                }
                let d = e.entries[i].depth;
                depth = match depth {
                    Some(x) => if d > x { Some(d) } else { Some(x) },
                    None => Some(d),
                };
                i += 1;
            }
            proof {
                assert(e.entries@.take(i as int) =~= e.entries@);
            }
            let files = if e.entries.len() == 0 && e.error.is_some() {
                None
            } else {
                Some(files)
            };
            Listing { files, depth }
        },
        None => Listing { files: None, depth: None },
    }
}

/// The newest time a member was written.
pub open spec fn newest_written(family: Seq<Doc>) -> Option<i64>
    decreases family.len(),
{
    if family.len() == 0 {
        None
    } else {
        let rest = newest_written(family.drop_last());
        match opt_instant(family.last().written_at) {
            Some(x) => match rest {
                Some(y) => if x > y { Some(x) } else { Some(y) },
                None => Some(x),
            },
            None => rest,
        }
    }
}

/// The last sign of extraction progress: the newest member write, else the root's.
pub open spec fn last_progress(t: Trace, root: Doc) -> Option<i64> {
    match newest_written(t.family@) {
        Some(x) => Some(x),
        None => opt_instant(root.written_at),
    }
}

pub fn last_progress_exec(t: &Trace, root: &Doc) -> (r: Option<i64>)
    ensures
        r == last_progress(*t, *root),
{
    let mut newest: Option<i64> = None;
    let mut i: usize = 0;
    while i < t.family.len()
        invariant
            i <= t.family@.len(),
            newest == newest_written(t.family@.take(i as int)),
        decreases t.family@.len() - i,
    {
        proof {
            assert(t.family@.take(i + 1).drop_last() =~= t.family@.take(i as int));
            assert(t.family@.take(i + 1).last() == t.family@[i as int]);
        }
        match parse_opt(&t.family[i].written_at) {
            Some(x) => {
                newest = match newest {
                    Some(y) => if x > y { Some(x) } else { Some(y) },
                    None => Some(x),
                };
            },
            None => {},
        }
        i += 1;
    }
    proof {
        assert(t.family@.take(i as int) =~= t.family@);
    }
    match newest {
        Some(x) => Some(x),
        None => parse_opt(&root.written_at),
    }
}

/// A size and an extra note, joined by ` · ` when both are there.
pub open spec fn meta_join(size: Option<Seq<char>>, extra: Seq<char>) -> Seq<char> {
    match size {
        Some(s) => if extra.len() > 0 { s + " · "@ + extra } else { s },
        None => extra,
    }
}

/// The box drawn for one zone on the map.
pub open spec fn zone_box_ok(
    b: MapBox,
    t: Trace,
    zone: &'static str,
    here: Option<Seq<char>>,
    sub_present: Seq<char>,
    sub_absent: Seq<char>,
    extra: Seq<char>,
) -> bool {
    let check = blob_of(t.blobs@, zone@);
    let exists = match check {
        Some(c) => c.exists,
        None => None,
    };
    let failed = match check {
        Some(c) => c.error is Some,
        None => false,
    };
    &&& b.title == zone
    &&& if exists == Some(true) {
        &&& b.tone == (if here == Some(zone@) { BoxTone::Here } else { BoxTone::Present })
        &&& b.tag@ == "object exists"@
        &&& b.sub@ == sub_present
        &&& b.meta@ == meta_join(match check->0.size {
            Some(n) => Some(bytes_text(n)),
            None => None,
        }, extra)
        &&& b.here == (here == Some(zone@))
    } else if exists == Some(false) {
        b.tone == BoxTone::Faint && b.tag@ == "no object"@ && b.sub@ == sub_absent && b.meta@ == DASH@ && !b.here
    } else if failed {
        b.tone == BoxTone::Faint && b.tag@ == "unknown"@ && b.sub@ == "presence could not be checked"@ && b.meta@
            == DASH@ && !b.here
    } else {
        b.tone == BoxTone::Faint && b.tag@ == "no address"@ && b.sub@ == sub_absent && b.meta@ == DASH@ && !b.here
    }
}

fn zone_box(
    t: &Trace,
    zone: &'static str,
    here: Option<&'static str>,
    sub_present: String,
    sub_absent: String,
    extra: String,
) -> (b: MapBox)
    ensures
        zone_box_ok(b, *t, zone, match here {
            Some(h) => Some(h@),
            None => None,
        }, sub_present@, sub_absent@, extra@),
{
    let check = blob_of_exec(&t.blobs, zone);
    let exists: Option<bool> = match check {
        Some(c) => c.exists,
        None => None,
    };
    let is_here = match here {
        Some(h) => str_eq(h, zone),
        None => false,
    };
    if exists == Some(true) {
        let c = check.unwrap();
        let meta = match c.size {
            Some(n) => {
                let mut m = chars_of(bytes(n).as_str());
                if !extra.as_str().is_empty() {
                    push_all(&mut m, &lit(" · "));
                    push_all(&mut m, &chars_of(extra.as_str()));
                }
                string_of(m.as_slice())
            },
            None => extra,
        };
        MapBox {
            tone: if is_here { BoxTone::Here } else { BoxTone::Present },
            title: zone,
            tag: "object exists".to_owned(),
            sub: sub_present,
            meta,
            here: is_here,
        }
    } else if exists == Some(false) {
        MapBox { tone: BoxTone::Faint, title: zone, tag: "no object".to_owned(), sub: sub_absent, meta: DASH.to_owned(), here: false }
    } else {
        let failed = match check {
            Some(c) => c.error.is_some(),
            None => false,
        };
        if failed {
            MapBox {
                tone: BoxTone::Faint,
                title: zone,
                tag: "unknown".to_owned(),
                sub: "presence could not be checked".to_owned(),
                meta: DASH.to_owned(),
                here: false,
            }
        } else {
            MapBox { tone: BoxTone::Faint, title: zone, tag: "no address".to_owned(), sub: sub_absent, meta: DASH.to_owned(), here: false }
        }
    }
}

pub open spec fn status_of(steps: Seq<Step>, id: StepId) -> Status {
    match step_of(steps, id) {
        Some(x) => x.status,
        None => Status::Unknown,
    }
}

pub open spec fn prov_of(steps: Seq<Step>, id: StepId) -> Option<Prov> {
    match step_of(steps, id) {
        Some(x) => x.prov,
        None => None,
    }
}

pub open spec fn at_text(steps: Seq<Step>, id: StepId) -> Seq<char> {
    match step_of(steps, id) {
        Some(x) => x.at@,
        None => DASH@,
    }
}

pub open spec fn detail_of(steps: Seq<Step>, id: StepId) -> Seq<char> {
    match step_of(steps, id) {
        Some(x) => x.detail@,
        None => seq![],
    }
}

pub open spec fn sat_sub(a: nat, b: nat) -> nat {
    if a >= b { (a - b) as nat } else { 0 }
}

/// The box at the end of the map: the members an archive was extracted to.
pub open spec fn end_box_ok(b: MapBox, t: Trace, extracted: Status) -> bool {
    let written = written_count(t.family@);
    let total = expected_files(t);
    let deepest: nat = match deepest_reached(t.family@, family_containers(t.family@)) {
        Some(d) => d as nat,
        None => 0,
    };
    &&& b.title@ == "members"@
    &&& !b.here
    &&& if !t.is_archive {
        b.tone == BoxTone::Na && b.tag@ == "not an archive"@ && b.sub@ == "no extraction attempted"@ && b.meta@ == DASH@
    } else if extracted == Status::Stalled || extracted == Status::Failed {
        &&& b.tone == BoxTone::Bad
        &&& b.tag@ == match total {
            Some(n) => dec(written) + " of "@ + dec(n) + " written"@,
            None => dec(written) + " written"@,
        }
        &&& b.sub@ == match (total, depth_total(t)) {
            (Some(n), Some(d)) => dec(sat_sub(n, written)) + " not reached · deepest level "@ + dec(deepest) + " of "@
                + dec(d as nat),
            _ => "the rest were not reached"@,
        }
        &&& b.meta@ == bytes_text(written_bytes(t.family@))
    } else if extracted == Status::Done {
        &&& b.tone == BoxTone::Present
        &&& b.tag@ == dec(written) + " written"@
        &&& b.sub@ == dec(written) + " files at "@ + dec(deepest + 1) + " depth"@ + (if deepest == 0 { ""@ } else { "s"@ })
            + ", one revision"@
        &&& b.meta@ == bytes_text(written_bytes(t.family@))
    } else {
        &&& b.tone == BoxTone::Faint
        &&& b.tag@ == if written > 0 { dec(written) + " written so far"@ } else { "not extracted yet"@ }
        &&& b.sub@ == match total {
            Some(n) => dec(n) + " expected"@,
            None => "member count unknown"@,
        }
        &&& b.meta@ == DASH@
    }
}

fn end_box(t: &Trace, extracted: Status) -> (b: MapBox)
    ensures
        end_box_ok(b, *t, extracted),
{
    if !t.is_archive {
        return MapBox {
            tone: BoxTone::Na,
            title: "members",
            tag: "not an archive".to_owned(),
            sub: "no extraction attempted".to_owned(),
            meta: DASH.to_owned(),
            here: false,
        };
    }
    let m = members_of(&t.family);
    let l = listing_of(t);
    let deepest: u64 = match m.deepest {
        Some(d) => d as u64,
        None => 0,
    };
    let written = m.written as u128;
    if extracted == Status::Stalled || extracted == Status::Failed {
        let mut tag = dec_of(written);
        match l.files {
            Some(n) => {
                push_all(&mut tag, &lit(" of "));
                push_all(&mut tag, &dec_of(n as u128));
                push_all(&mut tag, &lit(" written"));
            },
            None => push_all(&mut tag, &lit(" written")),
        }
        let sub = match (l.files, l.depth) {
            (Some(n), Some(d)) => {
                let left: u128 = if n as u128 >= written { n as u128 - written } else { 0 };
                let mut v = dec_of(left);
                push_all(&mut v, &lit(" not reached · deepest level "));
                push_all(&mut v, &dec_of(deepest as u128));
                push_all(&mut v, &lit(" of "));
                push_all(&mut v, &dec_of(d as u128));
                string_of(v.as_slice())
            },
            _ => "the rest were not reached".to_owned(),
        };
        MapBox { tone: BoxTone::Bad, title: "members", tag: string_of(tag.as_slice()), sub, meta: bytes(m.bytes), here: false }
    } else if extracted == Status::Done {
        let mut tag = dec_of(written);
        push_all(&mut tag, &lit(" written"));
        let mut sub = dec_of(written);
        push_all(&mut sub, &lit(" files at "));
        push_all(&mut sub, &dec_of(deepest as u128 + 1));
        push_all(&mut sub, &lit(" depth"));
        if deepest == 0 {
            push_all(&mut sub, &lit(""));
        } else {
            push_all(&mut sub, &lit("s"));
        }
        push_all(&mut sub, &lit(", one revision"));
        MapBox {
            tone: BoxTone::Present,
            title: "members",
            tag: string_of(tag.as_slice()),
            sub: string_of(sub.as_slice()),
            meta: bytes(m.bytes),
            here: false,
        }
    } else {
        let tag = if m.written > 0 {
            let mut v = dec_of(written);
            push_all(&mut v, &lit(" written so far"));
            string_of(v.as_slice())
        } else {
            "not extracted yet".to_owned()
        };
        let sub = match l.files {
            Some(n) => {
                let mut v = dec_of(n as u128);
                push_all(&mut v, &lit(" expected"));
                string_of(v.as_slice())
            },
            None => "member count unknown".to_owned(),
        };
        MapBox { tone: BoxTone::Faint, title: "members", tag, sub, meta: DASH.to_owned(), here: false }
    }
}

/// The note on the hop into raw.
pub open spec fn promoted_note(t: Trace, root: Doc, steps: Seq<Step>) -> Seq<char> {
    let st = status_of(steps, StepId::Promoted);
    if st == Status::Done {
        "catalog.promotedAt"@
    } else if st == Status::Waiting && root.state@ == "PendingMetadata"@ {
        "waiting on reference"@
    } else if st == Status::Skipped {
        "not taken"@
    } else {
        detail_of(steps, StepId::Promoted)
    }
}

/// The note on the hop into the members.
pub open spec fn extracted_note(t: Trace, root: Doc, steps: Seq<Step>, now: i64) -> Seq<char> {
    let st = status_of(steps, StepId::Extracted);
    let deepest: nat = match deepest_reached(t.family@, family_containers(t.family@)) {
        Some(d) => d as nat,
        None => 0,
    };
    if st == Status::Skipped {
        "skipped"@
    } else if st == Status::Done {
        "depth "@ + dec(deepest) + " reached"@
    } else if st == Status::Stalled {
        "no progress · "@ + match last_progress(t, root) {
            Some(p) => span_spec(whole_seconds(now - p)),
            None => "?"@,
        }
    } else if st == Status::Failed {
        "failed"@
    } else {
        "not started"@
    }
}

/// A branch off the main line was taken: the zone holds an object, or the
/// event that leads there was recorded.
pub open spec fn branch_taken(t: Trace, root: Doc, zone: Seq<char>, event: Seq<char>) -> bool {
    present(t, zone) || had_event(t, root, event)
}

pub open spec fn curated_built(t: Trace) -> bool {
    (match blob_of(t.blobs@, "curated"@) {
        Some(b) => b.container_exists,
        None => false,
    }) || crate::model::strings(t.env.containers@).contains("curated"@)
}

/// The whole map for a traced document, given its steps.
pub open spec fn transit_map_ok(m: TransitMap, t: Trace, root: Doc, steps: Seq<Step>, now: i64) -> bool {
    let here = zone_at_spec(t);
    let retention = dec_signed(t.env.landing_retention_days as int);
    &&& m.source@ == (if root.source_system@.len() > 0 { root.source_system@ } else { DASH@ })
    &&& m.e1.tone == edge_tone(status_of(steps, StepId::Received), prov_of(steps, StepId::Received))
    &&& m.e1.label@ == "received"@ && m.e1.prov == prov_of(steps, StepId::Received)
    &&& m.e1.note@ == at_text(steps, StepId::Received)
    &&& zone_box_ok(
        m.landing,
        t,
        "landing",
        here,
        if here == Some("landing"@) {
            "as the caller wrote it · transient, "@ + retention + " days"@
        } else {
            "still inside the "@ + retention + "-day window"@
        },
        if root.promoted_at is Some { "removed after promotion"@ } else { "as the caller wrote it"@ },
        match landing_deletes(t, root) {
            Some(d) => "deletes "@ + utc_text(d, "%m-%d"@),
            None => seq![],
        },
    )
    &&& m.e2.tone == edge_tone(status_of(steps, StepId::Promoted), prov_of(steps, StepId::Promoted))
    &&& m.e2.label@ == "promoted"@ && m.e2.prov == prov_of(steps, StepId::Promoted)
    &&& m.e2.note@ == promoted_note(t, root, steps)
    &&& zone_box_ok(
        m.raw,
        t,
        "raw",
        here,
        if t.is_archive && written_count(t.family@) > 0 {
            "root is here; members beside it"@
        } else {
            "source of truth for content"@
        },
        "source of truth for content"@,
        seq![],
    )
    &&& m.e3.tone == edge_tone(status_of(steps, StepId::Extracted), prov_of(steps, StepId::Extracted))
    &&& m.e3.label@ == "extracted"@ && m.e3.prov == prov_of(steps, StepId::Extracted)
    &&& m.e3.note@ == extracted_note(t, root, steps, now)
    &&& end_box_ok(m.end, t, status_of(steps, StepId::Extracted))
    &&& m.rejected.zone@ == "rejected"@ && m.rejected.built
    &&& m.rejected.taken == branch_taken(t, root, "rejected"@, "UploadRejected"@)
    &&& m.rejected.note@ == if m.rejected.taken { "failed validation · taken"@ } else { "failed validation · not taken"@ }
    &&& m.quarantine.zone@ == "quarantine"@ && m.quarantine.built
    &&& m.quarantine.taken == branch_taken(t, root, "quarantine"@, "UploadQuarantined"@)
    &&& m.quarantine.note@ == if m.quarantine.taken {
        "refused or expired · taken"@
    } else {
        "refused by a rule · not taken"@
    }
    &&& m.curated.zone@ == "curated"@
    &&& m.curated.taken == present(t, "curated"@)
    &&& m.curated.built == curated_built(t)
    &&& m.curated.note@ == if !curated_built(t) {
        "does not exist yet"@
    } else if present(t, "curated"@) {
        "published copy present"@
    } else {
        "no copy for this document"@
    }
}

pub fn transit_map(t: &Trace, root: &Doc, steps: &[Step], now: i64) -> (m: TransitMap)
    ensures
        transit_map_ok(m, *t, *root, steps@, now),
{
    let received = find(steps, StepId::Received);
    let promoted = find(steps, StepId::Promoted);
    let extracted = find(steps, StepId::Extracted);
    let here = zone_at(t);
    let retention = dec_signed_of(t.env.landing_retention_days);

    let at_landing = match here {
        Some(h) => str_eq(h, "landing"),
        None => false,
    };
    let sub_present = if at_landing {
        let mut v = lit("as the caller wrote it · transient, ");
        push_all(&mut v, &retention);
        push_all(&mut v, &lit(" days"));
        string_of(v.as_slice())
    } else {
        let mut v = lit("still inside the ");
        push_all(&mut v, &retention);
        push_all(&mut v, &lit("-day window"));
        string_of(v.as_slice())
    };
    let sub_absent = if root.promoted_at.is_some() {
        "removed after promotion".to_owned()
    } else {
        "as the caller wrote it".to_owned()
    };
    let deletes = match landing_deletes_exec(t, root) {
        Some(d) => {
            let mut v = lit("deletes ");
            push_all(&mut v, &chars_of(month_day(d).as_str()));
            string_of(v.as_slice())
        },
        None => String::new(),
    };
    let landing = zone_box(t, "landing", here, sub_present, sub_absent, deletes);

    let members = members_of(&t.family);
    let raw_sub = if t.is_archive && members.written > 0 {
        "root is here; members beside it".to_owned()
    } else {
        "source of truth for content".to_owned()
    };
    let raw = zone_box(t, "raw", here, raw_sub, "source of truth for content".to_owned(), String::new());
    let end = end_box(t, extracted.status);

    let e2_note = if promoted.status == Status::Done {
        "catalog.promotedAt".to_owned()
    } else if promoted.status == Status::Waiting && str_eq(root.state.as_str(), "PendingMetadata") {
        "waiting on reference".to_owned()
    } else if promoted.status == Status::Skipped {
        "not taken".to_owned()
    } else {
        promoted.detail.clone()
    };
    let deepest: u64 = match members.deepest {
        Some(d) => d as u64,
        None => 0,
    };
    let e3_note = if extracted.status == Status::Skipped {
        "skipped".to_owned()
    } else if extracted.status == Status::Done {
        let mut v = lit("depth ");
        push_all(&mut v, &dec_of(deepest as u128));
        push_all(&mut v, &lit(" reached"));
        string_of(v.as_slice())
    } else if extracted.status == Status::Stalled {
        let mut v = lit("no progress · ");
        match last_progress_exec(t, root) {
            Some(p) => {
                let d: i128 = now as i128 - p as i128;
                let secs: i128 = if d >= 0 { d / 1000 } else { -((-d) / 1000) };
                push_all(&mut v, &chars_of(span(secs as i64).as_str()));
            },
            None => push_all(&mut v, &lit("?")),
        }
        string_of(v.as_slice())
    } else if extracted.status == Status::Failed {
        "failed".to_owned()
    } else {
        "not started".to_owned()
    };

    let rejected_taken = present_exec(t, "rejected") || had_event_exec(t, root, "UploadRejected");
    let quarantine_taken = present_exec(t, "quarantine") || had_event_exec(t, root, "UploadQuarantined");
    let curated_present = present_exec(t, "curated");
    let built = (match blob_of_exec(&t.blobs, "curated") {
        Some(b) => b.container_exists,
        None => false,
    }) || t.env.has_container("curated");
    let e1_note = received.at.clone();
    let m = TransitMap {
        source: or_dash(Some(root.source_system.clone())),
        e1: edge(&received, "received", e1_note),
        landing,
        e2: edge(&promoted, "promoted", e2_note),
        raw,
        e3: edge(&extracted, "extracted", e3_note),
        end,
        rejected: Branch {
            zone: "rejected",
            taken: rejected_taken,
            built: true,
            note: if rejected_taken {
                "failed validation · taken".to_owned()
            } else {
                "failed validation · not taken".to_owned()
            },
        },
        quarantine: Branch {
            zone: "quarantine",
            taken: quarantine_taken,
            built: true,
            note: if quarantine_taken {
                "refused or expired · taken".to_owned()
            } else {
                "refused by a rule · not taken".to_owned()
            },
        },
        curated: Branch {
            zone: "curated",
            taken: curated_present,
            built,
            note: if !built {
                "does not exist yet".to_owned()
            } else if curated_present {
                "published copy present".to_owned()
            } else {
                "no copy for this document".to_owned()
            },
        },
    };
    proof {
        let steps_v = steps@;
        let here_v = zone_at_spec(*t);
        assert(m.source@ == (if root.source_system@.len() > 0 { root.source_system@ } else { DASH@ }));
        assert(m.e1.tone == edge_tone(status_of(steps_v, StepId::Received), prov_of(steps_v, StepId::Received)));
        assert(m.e1.note@ == at_text(steps_v, StepId::Received));
        assert(m.e2.note@ == promoted_note(*t, *root, steps_v));
        assert(m.e3.note@ == extracted_note(*t, *root, steps_v, now));
        assert(end_box_ok(m.end, *t, status_of(steps_v, StepId::Extracted)));
        assert(m.rejected.taken == branch_taken(*t, *root, "rejected"@, "UploadRejected"@));
        assert(m.curated.built == curated_built(*t));
    }
    m
}
} // verus!
