//! The trace screen: the pipeline steps one document went through, and the
//! pieces the screen is drawn from.

use vstd::prelude::*;
use crate::format::{clock, fits_calendar, in_calendar, parse_opt, parse_spec, utc_text, DASH};
use crate::model::{field_str, field_text, AuditRow, Attribute, AttrValue, LogRow};
use crate::text::{
    chars_of, contains, contains_of, lit, lower_ascii, lower_ascii_of, push_all, starts_with, starts_with_of,
    str_eq, string_of, to_uppercase, unicode_upper,
};
use crate::model::{Doc, Trace};
use crate::trace_card::{header, header_ok, hero, hero_ok, live, live_ok};
use crate::trace_logs::{gap_list, gaps, gaps_view, group_ok, log_groups, log_note, plan, shown_groups};
use crate::trace_panels::{meta, meta_ok, zone_order, zone_row_ok, zones};
use crate::trace_steps::{steps, steps_ok};
use crate::trace_tree::{tree, tree_ok};
use crate::transit::{transit_map, transit_map_ok, zone_at, zone_at_spec};

verus! {

pub const METADATA_UNRESOLVED: &'static str = "METADATA_UNRESOLVED";

pub const STALL_AFTER_MINUTES: i64 = 10;

/// How far a step got.
#[derive(Clone, Copy, PartialEq, Eq, Debug, Structural)]
pub enum Status {
    Done,
    Waiting,
    Stalled,
    Failed,
    Skipped,
    NotBuilt,
    Unknown,
}

impl Status {
    pub fn label(self) -> (s: &'static str)
        ensures
            s@ == match self {
                Status::Done => "cleared"@,
                Status::Waiting => "waiting"@,
                Status::Stalled => "stalled"@,
                Status::Failed => "failed"@,
                Status::Skipped => "skipped"@,
                Status::NotBuilt => "not built"@,
                Status::Unknown => "unknown"@,
            },
    {
        match self {
            Status::Done => "cleared",
            Status::Waiting => "waiting",
            Status::Stalled => "stalled",
            Status::Failed => "failed",
            Status::Skipped => "skipped",
            Status::NotBuilt => "not built",
            Status::Unknown => "unknown",
        }
    }
}

/// How a step's state is known.
#[derive(Clone, Copy, PartialEq, Eq, Debug, Structural)]
pub enum Prov {
    Observed,
    Inferred,
    Checked,
}

impl Prov {
    pub fn label(self) -> (s: &'static str)
        ensures
            s@ == match self {
                Prov::Observed => "observed"@,
                Prov::Inferred => "inferred"@,
                Prov::Checked => "checked"@,
            },
    {
        match self {
            Prov::Observed => "observed",
            Prov::Inferred => "inferred",
            Prov::Checked => "checked",
        }
    }

    pub fn tip(self) -> (s: &'static str)
        ensures
            s@ == match self {
                Prov::Observed => "Observed — an audit entry was actually written"@,
                Prov::Inferred => "Inferred — deduced from a catalog field; no audit event exists"@,
                Prov::Checked => "Checked — the platform was queried just now"@,
            },
    {
        match self {
            Prov::Observed => "Observed — an audit entry was actually written",
            Prov::Inferred => "Inferred — deduced from a catalog field; no audit event exists",
            Prov::Checked => "Checked — the platform was queried just now",
        }
    }
}

#[derive(Clone, Copy, PartialEq, Eq, Debug, Structural)]
pub enum Tone {
    Info,
    Good,
    Warn,
    Bad,
}

#[derive(Clone, Copy, PartialEq, Eq, Debug, Structural)]
pub enum BoxTone {
    Here,
    Present,
    Faint,
    Na,
    Bad,
}

#[derive(Clone, Copy, PartialEq, Eq, Debug, Structural)]
pub enum EdgeTone {
    Done,
    Inferred,
    Waiting,
    Stalled,
    Na,
}

#[derive(Clone, Copy, PartialEq, Eq, Debug, Structural)]
pub enum LogKind {
    Audit,
    Info,
    Warn,
    Error,
    /// A placeholder line: nothing was recorded.
    Blank,
}

/// The pipeline steps, in order.
#[derive(Clone, Copy, PartialEq, Eq, Debug, Hash, PartialOrd, Ord, Structural)]
pub enum StepId {
    Received,
    Validated,
    Admitted,
    Reference,
    Promoted,
    Dispatched,
    Extracted,
    Curated,
}

/// Log groups. Steps map onto them so selecting a step opens its logs.
#[derive(Clone, Copy, PartialEq, Eq, Debug, Hash, PartialOrd, Ord, Structural)]
pub enum GroupId {
    Admitted,
    Reference,
    Promotion,
    Extraction,
    Lifecycle,
    Other,
}

impl StepId {
    /// The log group a step's entries are filed in.
    pub fn group(self) -> (g: GroupId)
        ensures
            g == match self {
                StepId::Received | StepId::Validated | StepId::Admitted => GroupId::Admitted,
                StepId::Reference => GroupId::Reference,
                StepId::Promoted | StepId::Dispatched | StepId::Curated => GroupId::Promotion,
                StepId::Extracted => GroupId::Extraction,
            },
    {
        match self {
            StepId::Received | StepId::Validated | StepId::Admitted => GroupId::Admitted,
            StepId::Reference => GroupId::Reference,
            StepId::Promoted | StepId::Dispatched | StepId::Curated => GroupId::Promotion,
            StepId::Extracted => GroupId::Extraction,
        }
    }
}

impl GroupId {
    /// The step a log group stands for, so opening one selects the other.
    pub fn step(self) -> (s: Option<StepId>)
        ensures
            s == match self {
                GroupId::Admitted => Some(StepId::Admitted),
                GroupId::Reference => Some(StepId::Reference),
                GroupId::Promotion => Some(StepId::Promoted),
                GroupId::Extraction => Some(StepId::Extracted),
                GroupId::Lifecycle | GroupId::Other => None,
            },
    {
        match self {
            GroupId::Admitted => Some(StepId::Admitted),
            GroupId::Reference => Some(StepId::Reference),
            GroupId::Promotion => Some(StepId::Promoted),
            GroupId::Extraction => Some(StepId::Extracted),
            GroupId::Lifecycle | GroupId::Other => None,
        }
    }
}

/// A labelled value on a card.
#[derive(PartialEq, Eq, Debug)]
pub struct Fact {
    pub label: String,
    pub value: String,
}

impl Clone for Fact {
    fn clone(&self) -> (r: Self)
        ensures
            r == *self,
    {
        Fact { label: self.label.clone(), value: self.value.clone() }
    }
}

pub fn fact(label: &str, value: String) -> (f: Fact)
    ensures
        f.label@ == label@,
        f.value == value,
{
    Fact { label: label.to_owned(), value }
}

/// One step of the pipeline, as the trace draws it.
#[derive(PartialEq, Eq, Debug)]
pub struct Step {
    pub id: StepId,
    pub label: &'static str,
    pub status: Status,
    pub prov: Option<Prov>,
    pub at: String,
    pub detail: String,
    pub why: String,
    pub meta: Vec<Fact>,
}

impl Clone for Step {
    fn clone(&self) -> (r: Self)
        ensures
            r.id == self.id,
            r.label == self.label,
            r.status == self.status,
            r.prov == self.prov,
            r.at == self.at,
            r.detail == self.detail,
            r.why == self.why,
            r.meta@ == self.meta@,
    {
        let meta = self.meta.clone();
        proof {
            assert forall|i: int| 0 <= i < meta.len() implies meta@[i] == self.meta@[i] by {
                assert(cloned::<Fact>(self.meta[i], meta[i]));
            }
            assert(meta@ =~= self.meta@);
        }
        Step {
            id: self.id,
            label: self.label,
            status: self.status,
            prov: self.prov,
            at: self.at.clone(),
            detail: self.detail.clone(),
            why: self.why.clone(),
            meta,
        }
    }
}

/// A blank step with an identity, a label and a status.
pub fn step(id: StepId, label: &'static str, status: Status, prov: Option<Prov>) -> (s: Step)
    ensures
        s.id == id,
        s.label == label,
        s.status == status,
        s.prov == prov,
        s.at@ == DASH@,
        s.detail@.len() == 0,
        s.why@.len() == 0,
        s.meta@.len() == 0,
{
    Step { id, label, status, prov, at: DASH.to_owned(), detail: String::new(), why: String::new(), meta: Vec::new() }
}

#[derive(Clone, PartialEq, Eq, Debug)]
pub struct MapBox {
    pub tone: BoxTone,
    pub title: &'static str,
    pub tag: String,
    pub sub: String,
    pub meta: String,
    pub here: bool,
}

#[derive(Clone, PartialEq, Eq, Debug)]
pub struct Edge {
    pub tone: EdgeTone,
    pub label: &'static str,
    pub prov: Option<Prov>,
    pub note: String,
}

#[derive(Clone, PartialEq, Eq, Debug)]
pub struct Branch {
    pub zone: &'static str,
    /// The document actually went this way.
    pub taken: bool,
    pub built: bool,
    pub note: String,
}

#[derive(Clone, PartialEq, Eq, Debug)]
pub struct TransitMap {
    pub source: String,
    pub e1: Edge,
    pub landing: MapBox,
    pub e2: Edge,
    pub raw: MapBox,
    pub e3: Edge,
    pub end: MapBox,
    pub rejected: Branch,
    pub quarantine: Branch,
    pub curated: Branch,
}

#[derive(Clone, PartialEq, Eq, Debug)]
pub struct ZoneRow {
    pub zone: String,
    pub present: bool,
    pub built: bool,
    pub tag: String,
    pub path: String,
    pub note: String,
    pub size: String,
}

#[derive(Clone, PartialEq, Eq, Debug)]
pub struct MetaRow {
    pub label: String,
    pub declared: String,
    pub resolved: String,
    pub flag: bool,
    pub pending: bool,
}

#[derive(Clone, PartialEq, Eq, Debug)]
pub struct TreeRow {
    pub rail: String,
    pub depth: u32,
    pub container: bool,
    pub reached: bool,
    pub parent: String,
    pub name: String,
    pub note: String,
    pub tag: String,
    pub size: String,
    pub document_id: String,
    /// Refused by the archive policy: never written, and the walk ends here.
    pub rejected: bool,
}

#[derive(Clone, PartialEq, Eq, Debug)]
pub struct Tree {
    pub banner: String,
    pub note: String,
    pub tone: Tone,
    pub rows: Vec<TreeRow>,
    pub footer: String,
}

#[derive(Clone, PartialEq, Eq, Debug)]
pub struct LogEntry {
    pub at: String,
    pub kind: LogKind,
    pub text: String,
}

#[derive(Clone, PartialEq, Eq, Debug)]
pub struct LogGroup {
    pub id: GroupId,
    pub label: &'static str,
    pub as_of: String,
    pub lag: String,
    /// No lag to report: nothing ran, or nothing was recorded.
    pub quiet: bool,
    pub entries: Vec<LogEntry>,
}

#[derive(Clone, PartialEq, Eq, Debug)]
pub struct Gap {
    pub short: String,
    pub why: String,
}

#[derive(Clone, PartialEq, Eq, Debug)]
pub struct Header {
    pub key: String,
    /// `file · source · rev · size`, under the document key.
    pub sub: String,
    pub state: String,
    pub tone: Status,
    pub matched_on: String,
    pub facts: Vec<Fact>,
    pub as_of: String,
    pub lifecycle: String,
    pub life: Tone,
}

#[derive(Clone, PartialEq, Eq, Debug)]
pub struct Candidate {
    pub key: String,
    pub document_id: String,
    /// Unique per arrival: a document that arrived twice shares its documentId across rows.
    pub file_guid: String,
    pub revision: String,
    pub state: String,
    pub registered: String,
}

/// The status card beside the document card: its state, in a sentence.
#[derive(Clone, PartialEq, Eq, Debug)]
pub struct Hero {
    pub icon: &'static str,
    pub kicker: String,
    pub title: String,
    pub body: String,
    pub tone: Status,
}

/// "Right now": the one figure that matters for the state the document is in.
#[derive(Clone, PartialEq, Eq, Debug)]
pub struct Live {
    pub state: String,
    pub big: String,
    pub big_note: String,
    pub note: String,
    pub tone: Status,
}

#[derive(Clone, PartialEq, Eq, Debug)]
pub struct TraceView {
    pub header: Header,
    pub steps: Vec<Step>,
    pub map: TransitMap,
    pub zone_at: Option<&'static str>,
    pub zones: Vec<ZoneRow>,
    pub meta: Vec<MetaRow>,
    pub meta_note: String,
    pub meta_tone: Tone,
    pub tree: Option<Tree>,
    pub log_note: String,
    pub logs_available: bool,
    pub groups: Vec<LogGroup>,
    pub gaps: Vec<Gap>,
    pub candidates: Vec<Candidate>,
    /// The step opened when the trace first loads.
    pub focus: Option<StepId>,
    pub hero: Hero,
    pub live: Live,
}


/// An optional instant as a clock time, or a dash.
pub open spec fn at_of_spec(value: Option<String>) -> Seq<char> {
    match value {
        Some(v) => match parse_spec(v@) {
            Some(ms) => if in_calendar(ms) { utc_text(ms, "%H:%M:%SZ"@) } else { DASH@ },
            None => DASH@,
        },
        None => DASH@,
    }
}

pub fn at_of(value: &Option<String>) -> (r: String)
    ensures
        r@ == at_of_spec(*value),
{
    match parse_opt(value) {
        Some(ms) => if fits_calendar(ms) {
            clock(ms)
        } else {
            DASH.to_owned()
        },
        None => DASH.to_owned(),
    }
}

pub open spec fn is_trouble(s: Status) -> bool {
    s == Status::Stalled || s == Status::Failed
}

/// The index of the first step with a status the predicate picks.
pub open spec fn first_with(steps: Seq<Step>, trouble: bool) -> Option<int>
    decreases steps.len(),
{
    if steps.len() == 0 {
        None
    } else if (trouble && is_trouble(steps.last().status)) || (!trouble && steps.last().status == Status::Waiting) {
        match first_with(steps.drop_last(), trouble) {
            Some(i) => Some(i),
            None => Some(steps.len() - 1),
        }
    } else {
        first_with(steps.drop_last(), trouble)
    }
}

fn find_status(steps: &[Step], trouble: bool) -> (r: Option<usize>)
    ensures
        match r {
            Some(i) => first_with(steps@, trouble) == Some(i as int),
            None => first_with(steps@, trouble) is None,
        },
{
    let mut k: usize = steps.len();
    let mut found: Option<usize> = None;
    proof {
        assert(steps@.take(steps@.len() as int) =~= steps@);
    }
    while k > 0
        invariant
            k <= steps@.len(),
            match found {
                Some(i) => k <= i < steps@.len() && first_with(steps@, trouble) == match first_with(steps@.take(k as int), trouble) {
                    Some(j) => Some(j),
                    None => Some(i as int),
                },
                None => first_with(steps@, trouble) == first_with(steps@.take(k as int), trouble),
            },
        decreases k,
    {
        proof {
            assert(steps@.take(k as int).drop_last() =~= steps@.take(k - 1));
            assert(steps@.take(k as int).last() == steps@[k - 1]);
        }
        let st = steps[k - 1].status;
        let hit = if trouble {
            st == Status::Stalled || st == Status::Failed
        } else {
            st == Status::Waiting
        };
        if hit {
            found = Some(k - 1);
        }
        k -= 1;
    }
    proof {
        assert(steps@.take(0) =~= Seq::<Step>::empty());
        assert(steps@.take(steps@.len() as int) =~= steps@);
    }
    found
}

/// The step the trace opens on: the first in trouble, else the first
/// waiting, else extraction for an archive and the reference lookup otherwise.
pub open spec fn focus_spec(steps: Seq<Step>, is_archive: bool) -> StepId {
    match first_with(steps, true) {
        Some(i) => steps[i].id,
        None => match first_with(steps, false) {
            Some(i) => steps[i].id,
            None => if is_archive { StepId::Extracted } else { StepId::Reference },
        },
    }
}

proof fn lemma_first_with_in_range(steps: Seq<Step>, trouble: bool)
    ensures
        first_with(steps, trouble) matches Some(i) ==> 0 <= i < steps.len(),
    decreases steps.len(),
{
    if steps.len() > 0 {
        lemma_first_with_in_range(steps.drop_last(), trouble);
    }
}

pub fn focus(steps: &[Step], is_archive: bool) -> (r: Option<StepId>)
    ensures
        r == Some(focus_spec(steps@, is_archive)),
{
    proof {
        lemma_first_with_in_range(steps@, true);
        lemma_first_with_in_range(steps@, false);
    }
    match find_status(steps, true) {
        Some(i) => Some(steps[i].id),
        None => match find_status(steps, false) {
            Some(i) => Some(steps[i].id),
            None => Some(if is_archive { StepId::Extracted } else { StepId::Reference }),
        },
    }
}

/// The text with its first character in upper case.
pub open spec fn capitalise_spec(s: Seq<char>) -> Seq<char> {
    if s.len() == 0 {
        seq![]
    } else {
        unicode_upper(seq![s[0]]) + s.drop_first()
    }
}

pub fn capitalise(s: &str) -> (r: String)
    ensures
        r@ == capitalise_spec(s@),
{
    let v = chars_of(s);
    if v.len() == 0 {
        return String::new();
    }
    let mut first: Vec<char> = Vec::new();
    first.push(v[0]);
    let mut out = chars_of(to_uppercase(string_of(first.as_slice()).as_str()).as_str());
    let mut i: usize = 1;
    let ghost head = out@;
    while i < v.len()
        invariant
            1 <= i <= v.len(),
            out@ == head + v@.subrange(1, i as int),
        decreases v.len() - i,
    {
        out.push(v[i]);
        proof {
            assert(v@.subrange(1, i + 1) =~= v@.subrange(1, i as int).push(v@[i as int]));
        }
        i += 1;
    }
    proof {
        assert(v@.subrange(1, v@.len() as int) =~= v@.drop_first());
        assert(first@ =~= seq![s@[0]]);
    }
    string_of(out.as_slice())
}

/// How many of the containers a path lies under.
pub open spec fn depth_spec(path: Seq<char>, containers: Seq<String>) -> nat
    decreases containers.len(),
{
    if containers.len() == 0 {
        0
    } else {
        depth_spec(path, containers.drop_last()) + if starts_with(path, containers.last()@ + "/"@) {
            1nat
        } else {
            0nat
        }
    }
}

pub fn depth_of(path: &str, containers: &[String]) -> (d: u32)
    ensures
        d == depth_spec(path@, containers@) as u32,
{
    let p = chars_of(path);
    let mut d: usize = 0;
    let mut i: usize = 0;
    while i < containers.len()
        invariant
            i <= containers@.len(),
            p@ == path@,
            d == depth_spec(path@, containers@.take(i as int)),
            d <= i,
        decreases containers@.len() - i,
    {
        let mut prefix = chars_of(containers[i].as_str());
        push_all(&mut prefix, &lit("/"));
        proof {
            assert(containers@.take(i + 1).drop_last() =~= containers@.take(i as int));
            assert(containers@.take(i + 1).last() == containers@[i as int]);
        }
        if starts_with_of(&p, &prefix) {
            d += 1;
        }
        i += 1;
    }
    proof {
        assert(containers@.take(i as int) =~= containers@);
    }
    d as u32
}

/// The connector into the box after a step: its tone follows the step.
pub open spec fn edge_tone(status: Status, prov: Option<Prov>) -> EdgeTone {
    match (status, prov) {
        (Status::Done, Some(Prov::Inferred)) => EdgeTone::Inferred,
        (Status::Done, _) => EdgeTone::Done,
        (Status::Waiting, _) => EdgeTone::Waiting,
        (Status::Stalled, _) | (Status::Failed, _) => EdgeTone::Stalled,
        _ => EdgeTone::Na,
    }
}

pub fn edge(step: &Step, label: &'static str, note: String) -> (e: Edge)
    ensures
        e.tone == edge_tone(step.status, step.prov),
        e.label == label,
        e.prov == step.prov,
        e.note == note,
{
    let tone = match (step.status, step.prov) {
        (Status::Done, Some(Prov::Inferred)) => EdgeTone::Inferred,
        (Status::Done, _) => EdgeTone::Done,
        (Status::Waiting, _) => EdgeTone::Waiting,
        (Status::Stalled, _) | (Status::Failed, _) => EdgeTone::Stalled,
        _ => EdgeTone::Na,
    };
    Edge { tone, label, prov: step.prov, note }
}

/// The first step with an identity.
pub open spec fn step_of(steps: Seq<Step>, id: StepId) -> Option<Step>
    decreases steps.len(),
{
    if steps.len() == 0 {
        None
    } else if steps[0].id == id {
        Some(steps[0])
    } else {
        step_of(steps.drop_first(), id)
    }
}

/// The step with an identity, or a blank one of unknown status.
pub fn find(steps: &[Step], id: StepId) -> (s: Step)
    ensures
        match step_of(steps@, id) {
            Some(x) => {
                &&& s.id == id && s.status == x.status && s.prov == x.prov && s.label == x.label
                &&& s.at == x.at && s.detail == x.detail && s.why == x.why && s.meta@ == x.meta@
            },
            None => {
                &&& s.id == id && s.label@ == ""@ && s.status == Status::Unknown && s.prov is None
                &&& s.at@ == DASH@ && s.detail@.len() == 0 && s.why@.len() == 0 && s.meta@.len() == 0
            },
        },
{
    let mut i: usize = 0;
    proof {
        assert(steps@.skip(0) =~= steps@);
    }
    while i < steps.len()
        invariant
            i <= steps@.len(),
            step_of(steps@, id) == step_of(steps@.skip(i as int), id),
        decreases steps@.len() - i,
    {
        proof {
            assert(steps@.skip(i as int).drop_first() =~= steps@.skip(i + 1));
        }
        if steps[i].id == id {
            return steps[i].clone();
        }
        i += 1;
    }
    step(id, "", Status::Unknown, None)
}

/// The tree-drawing prefix for a row at a depth.
pub open spec fn rail_spec(depth: nat, last: bool) -> Seq<char>
    decreases depth,
{
    if depth == 0 {
        if last { "└─ "@ } else { "├─ "@ }
    } else {
        "│  "@ + rail_spec((depth - 1) as nat, last)
    }
}

pub fn rail(depth: u32, last: bool) -> (r: String)
    ensures
        r@ == rail_spec(depth as nat, last),
{
    let mut out: Vec<char> = Vec::new();
    let mut i: u32 = 0;
    while i < depth
        invariant
            i <= depth,
            out@ + rail_spec((depth - i) as nat, last) == rail_spec(depth as nat, last),
        decreases depth - i,
    {
        push_all(&mut out, &lit("│  "));
        proof {
            assert(rail_spec((depth - i) as nat, last) == "│  "@ + rail_spec((depth - i - 1) as nat, last));
            assert(out@ + rail_spec((depth - i - 1) as nat, last) =~= rail_spec(depth as nat, last));
        }
        i += 1;
    }
    if last {
        push_all(&mut out, &lit("└─ "));
    } else {
        push_all(&mut out, &lit("├─ "));
    }
    string_of(out.as_slice())
}

/// A log level as an entry kind, case-insensitively.
pub open spec fn log_kind_spec(level: Seq<char>) -> LogKind {
    let l = lower_ascii(level);
    if l == "error"@ || l == "critical"@ {
        LogKind::Error
    } else if l == "warning"@ || l == "warn"@ {
        LogKind::Warn
    } else {
        LogKind::Info
    }
}

fn is_word(v: &Vec<char>, w: &str) -> (b: bool)
    ensures
        b == (v@ == w@),
{
    crate::text::eq_of(v, &lit(w))
}

pub fn log_kind(level: &str) -> (k: LogKind)
    ensures
        k == log_kind_spec(level@),
{
    let l = lower_ascii_of(&chars_of(level));
    if is_word(&l, "error") || is_word(&l, "critical") {
        LogKind::Error
    } else if is_word(&l, "warning") || is_word(&l, "warn") {
        LogKind::Warn
    } else {
        LogKind::Info
    }
}

/// The log group a log line belongs in, by its source and category.
pub open spec fn group_of_log_spec(source: Seq<char>, category: Seq<char>) -> GroupId {
    let c = lower_ascii(category);
    if source == "job"@ {
        GroupId::Extraction
    } else if contains(c, "reconcile"@) || contains(c, "upload"@) || contains(c, "preregister"@) || contains(c, "commit"@) {
        GroupId::Admitted
    } else if contains(c, "reevaluate"@) || contains(c, "reference"@) {
        GroupId::Reference
    } else if contains(c, "processing_rules"@) || contains(c, "evaluate"@) || contains(c, "promote"@) || contains(c, "dispatch"@) {
        GroupId::Promotion
    } else if contains(c, "extract"@) {
        GroupId::Extraction
    } else if contains(c, "sweep"@) {
        GroupId::Lifecycle
    } else {
        GroupId::Other
    }
}

fn has(v: &Vec<char>, w: &str) -> (b: bool)
    ensures
        b == contains(v@, w@),
{
    contains_of(v, &lit(w))
}

pub fn group_of_log(row: &LogRow) -> (g: GroupId)
    ensures
        g == group_of_log_spec(row.source@, row.category@),
{
    if str_eq(row.source.as_str(), "job") {
        return GroupId::Extraction;
    }
    let c = lower_ascii_of(&chars_of(row.category.as_str()));
    if has(&c, "reconcile") || has(&c, "upload") || has(&c, "preregister") || has(&c, "commit") {
        GroupId::Admitted
    } else if has(&c, "reevaluate") || has(&c, "reference") {
        GroupId::Reference
    } else if has(&c, "processing_rules") || has(&c, "evaluate") || has(&c, "promote") || has(&c, "dispatch") {
        GroupId::Promotion
    } else if has(&c, "extract") {
        GroupId::Extraction
    } else if has(&c, "sweep") {
        GroupId::Lifecycle
    } else {
        GroupId::Other
    }
}

/// The log group an audit event belongs in.
pub open spec fn group_of_event_spec(event: Seq<char>, detail: Seq<Attribute>) -> GroupId {
    if event == "DocumentRegistered"@ || event == "DocumentUploadedSmall"@ || event == "DuplicateArrival"@
        || event == "UploadRejected"@ {
        GroupId::Admitted
    } else if event == "UploadQuarantined"@ {
        if field_text(detail, "reason"@) == Some(METADATA_UNRESOLVED@) {
            GroupId::Reference
        } else {
            GroupId::Admitted
        }
    } else if event == "DocumentPendingMetadata"@ || event == "PendingMetadataResolved"@ {
        GroupId::Reference
    } else if event == "DocumentDispatched"@ || event == "DocumentDispatchFailed"@ || event == "DocumentPromotionStalled"@ {
        GroupId::Promotion
    } else if event == "ArchiveExtracted"@ || event == "ArchiveExtractionFailed"@ || event == "PdfSplitByTag"@ {
        GroupId::Extraction
    } else if event == "DocumentExpired"@ || event == "LandingResidueDetected"@ {
        GroupId::Lifecycle
    } else {
        GroupId::Other
    }
}

pub fn group_of_event(a: &AuditRow) -> (g: GroupId)
    ensures
        g == group_of_event_spec(a.event_type@, a.detail@),
{
    let e = a.event_type.as_str();
    if str_eq(e, "DocumentRegistered") || str_eq(e, "DocumentUploadedSmall") || str_eq(e, "DuplicateArrival")
        || str_eq(e, "UploadRejected") {
        GroupId::Admitted
    } else if str_eq(e, "UploadQuarantined") {
        let unresolved = match field_str(&a.detail, "reason") {
            Some(r) => str_eq(r.as_str(), METADATA_UNRESOLVED),
            None => false,
        };
        if unresolved {
            GroupId::Reference
        } else {
            GroupId::Admitted
        }
    } else if str_eq(e, "DocumentPendingMetadata") || str_eq(e, "PendingMetadataResolved") {
        GroupId::Reference
    } else if str_eq(e, "DocumentDispatched") || str_eq(e, "DocumentDispatchFailed") || str_eq(e, "DocumentPromotionStalled") {
        GroupId::Promotion
    } else if str_eq(e, "ArchiveExtracted") || str_eq(e, "ArchiveExtractionFailed") || str_eq(e, "PdfSplitByTag") {
        GroupId::Extraction
    } else if str_eq(e, "DocumentExpired") || str_eq(e, "LandingResidueDetected") {
        GroupId::Lifecycle
    } else {
        GroupId::Other
    }
}

/// The detail fields as ` key=value`, null fields left out.
pub open spec fn detail_text(fields: Seq<Attribute>) -> Seq<char>
    decreases fields.len(),
{
    if fields.len() == 0 {
        seq![]
    } else {
        detail_text(fields.drop_last()) + match fields.last().value {
            AttrValue::Null => seq![],
            AttrValue::Text(s) => " "@ + fields.last().key@ + "="@ + s@,
            AttrValue::Other(j) => " "@ + fields.last().key@ + "="@ + j@,
        }
    }
}

/// An audit entry as one log line: its event, its document, its detail.
pub open spec fn audit_text_spec(a: AuditRow) -> Seq<char> {
    a.event_type@ + (if a.document_id@.len() > 0 { " documentId="@ + a.document_id@ } else { seq![] })
        + detail_text(a.detail@)
}

pub fn audit_text(a: &AuditRow) -> (r: String)
    ensures
        r@ == audit_text_spec(*a),
{
    let mut text = chars_of(a.event_type.as_str());
    if !a.document_id.as_str().is_empty() {
        push_all(&mut text, &lit(" documentId="));
        push_all(&mut text, &chars_of(a.document_id.as_str()));
    }
    let ghost head = text@;
    let mut i: usize = 0;
    while i < a.detail.len()
        invariant
            i <= a.detail@.len(),
            text@ == head + detail_text(a.detail@.take(i as int)),
        decreases a.detail@.len() - i,
    {
        proof {
            assert(a.detail@.take(i + 1).drop_last() =~= a.detail@.take(i as int));
            assert(a.detail@.take(i + 1).last() == a.detail@[i as int]);
        }
        match &a.detail[i].value {
            AttrValue::Null => {},
            AttrValue::Text(s) => {
                push_all(&mut text, &lit(" "));
                push_all(&mut text, &chars_of(a.detail[i].key.as_str()));
                push_all(&mut text, &lit("="));
                push_all(&mut text, &chars_of(s.as_str()));
            },
            AttrValue::Other(j) => {
                push_all(&mut text, &lit(" "));
                push_all(&mut text, &chars_of(a.detail[i].key.as_str()));
                push_all(&mut text, &lit("="));
                push_all(&mut text, &chars_of(j.as_str()));
            },
        }
        proof {
            assert(text@ =~= head + detail_text(a.detail@.take(i + 1)));
        }
        i += 1;
    }
    proof {
        assert(a.detail@.take(i as int) =~= a.detail@);
    }
    string_of(text.as_slice())
}

/// One row of the candidates list: another revision or document the query matched.
pub open spec fn candidate_ok(c: Candidate, d: Doc) -> bool {
    &&& c.key@ == (if d.business_key@.len() == 0 {
        d.document_id@
    } else {
        d.business_key@
    })
    &&& c.document_id@ == d.document_id@
    &&& c.file_guid@ == d.file_guid@
    &&& c.revision@ == d.revision_id@
    &&& c.state@ == d.state@
    &&& c.registered@ == match d.registered_at {
        Some(v) => match parse_spec(v@) {
            Some(ms) => if in_calendar(ms) {
                utc_text(ms, "%m-%d %H:%MZ"@)
            } else {
                DASH@
            },
            None => DASH@,
        },
        None => DASH@,
    }
}

fn candidate(d: &Doc) -> (c: Candidate)
    ensures
        candidate_ok(c, *d),
{
    Candidate {
        key: d.display_key().to_owned(),
        document_id: d.document_id.clone(),
        file_guid: d.file_guid.clone(),
        revision: d.revision_id.clone(),
        state: d.state.clone(),
        registered: match parse_opt(&d.registered_at) {
            Some(ms) => if fits_calendar(ms) {
                crate::format::day_minute(ms)
            } else {
                DASH.to_owned()
            },
            None => DASH.to_owned(),
        },
    }
}

pub open spec fn opt_view(z: Option<&'static str>) -> Option<Seq<char>> {
    match z {
        Some(x) => Some(x@),
        None => None,
    }
}

/// The whole trace screen of one document.
pub open spec fn view_ok(v: TraceView, t: Trace, root: Doc, now: i64) -> bool {
    let here = opt_view(v.zone_at);
    &&& steps_ok(v.steps@, t, root, now)
    &&& transit_map_ok(v.map, t, root, v.steps@, now)
    &&& here == zone_at_spec(t)
    &&& v.zones@.len() == zone_order(here).len()
    &&& forall|i: int| 0 <= i < v.zones@.len() ==> zone_row_ok(#[trigger] v.zones@[i], t, root, zone_order(here)[i])
    &&& meta_ok(v.meta@, v.meta_note@, v.meta_tone, t, root)
    &&& tree_ok(v.tree, t, root)
    &&& v.log_note@ == log_note(t)
    &&& v.logs_available == t.logs.available
    &&& v.groups@.len() == shown_groups(t, plan()).len()
    &&& forall|i: int| 0 <= i < v.groups@.len() ==> group_ok(#[trigger] v.groups@[i], shown_groups(t, plan())[i], t, root, now)
    &&& gaps_view(v.gaps@) == gap_list(t, root, v.steps@, v.tree)
    &&& v.candidates@.len() == t.candidates@.len()
    &&& forall|i: int| 0 <= i < v.candidates@.len() ==> candidate_ok(#[trigger] v.candidates@[i], t.candidates@[i])
    &&& v.focus == Some(focus_spec(v.steps@, t.is_archive))
    &&& header_ok(v.header, t, root, here, now)
    &&& hero_ok(v.hero, root, v.steps@, v.focus, v.header)
    &&& live_ok(v.live, t, root, now, v.header)
}

/// The trace screen of the traced document; none when the query matched no document.
pub fn build(t: &Trace, now: i64) -> (r: Option<TraceView>)
    ensures
        t.root is None ==> r is None,
        t.root matches Some(root) ==> r matches Some(v) && view_ok(v, *t, root, now),
{
    let root = match &t.root {
        Some(r) => r,
        None => {
            return None;
        },
    };
    let steps = steps(t, root, now);
    let map = transit_map(t, root, steps.as_slice(), now);
    let here = zone_at(t);
    let (meta, meta_note, meta_tone) = meta(t, root);
    let tree = tree(t, root);
    let (log_note, groups) = log_groups(t, root, now);
    let gaps = gaps(t, root, &steps, &tree);
    let focus = focus(steps.as_slice(), t.is_archive);
    let header = header(t, root, here, now);
    let hero = hero(root, &steps, focus, &header);
    let live = live(t, root, now, &header);
    let zones = zones(t, root, here);
    let mut candidates: Vec<Candidate> = Vec::new();
    let mut i: usize = 0;
    while i < t.candidates.len()
        invariant
            i <= t.candidates@.len(),
            candidates@.len() == i,
            forall|j: int| 0 <= j < i ==> candidate_ok(#[trigger] candidates@[j], t.candidates@[j]),
        decreases t.candidates@.len() - i,
    {
        candidates.push(candidate(&t.candidates[i]));
        i += 1;
    }
    Some(
        TraceView {
            header,
            steps,
            map,
            zone_at: here,
            zones,
            meta,
            meta_note,
            meta_tone,
            tree,
            log_note,
            logs_available: t.logs.available,
            groups,
            gaps,
            candidates,
            focus,
            hero,
            live,
        },
    )
}

/// How many traced documents the side list remembers.
pub const RECENT_LIMIT: usize = 8;

/// A document traced recently, as the side list shows it.
#[derive(PartialEq, Eq, Debug)]
pub struct RecentDoc {
    pub document_id: String,
    pub key: String,
    pub tone: Status,
}

impl Clone for RecentDoc {
    fn clone(&self) -> (r: Self)
        ensures
            r == *self,
    {
        RecentDoc { document_id: self.document_id.clone(), key: self.key.clone(), tone: self.tone }
    }
}

/// The entries of `s` for other documents than `id`, in order.
pub open spec fn others(s: Seq<RecentDoc>, id: Seq<char>) -> Seq<RecentDoc>
    decreases s.len(),
{
    if s.len() == 0 {
        seq![]
    } else if s.last().document_id@ == id {
        others(s.drop_last(), id)
    } else {
        others(s.drop_last(), id).push(s.last())
    }
}

/// At most the first `RECENT_LIMIT` entries.
pub open spec fn capped(s: Seq<RecentDoc>) -> Seq<RecentDoc> {
    if s.len() <= RECENT_LIMIT {
        s
    } else {
        s.take(RECENT_LIMIT as int)
    }
}

/// A document just traced goes to the top of the side list; an earlier entry
/// for it is dropped, and the list keeps the newest `RECENT_LIMIT`.
pub fn remember_recent(list: &mut Vec<RecentDoc>, doc: RecentDoc)
    ensures
        final(list)@ == capped(seq![doc] + others(old(list)@, doc.document_id@)),
{
    let ghost old_list = list@;
    let ghost id = doc.document_id@;
    let mut r: Vec<RecentDoc> = Vec::new();
    r.push(doc.clone());
    proof {
        assert(old_list.take(0) =~= Seq::<RecentDoc>::empty());
        assert(r@ =~= capped(seq![doc] + others(old_list.take(0), id)));
    }
    let mut i: usize = 0;
    while i < list.len()
        invariant
            0 <= i <= list@.len(),
            list@ == old_list,
            id == doc.document_id@,
            r@ == capped(seq![doc] + others(old_list.take(i as int), id)),
        decreases list.len() - i,
    {
        let ghost before = seq![doc] + others(old_list.take(i as int), id);
        proof {
            assert(old_list.take(i + 1).drop_last() =~= old_list.take(i as int));
            assert(old_list.take(i + 1).last() == old_list[i as int]);
        }
        if !str_eq(list[i].document_id.as_str(), doc.document_id.as_str()) {
            proof {
                assert(seq![doc] + others(old_list.take(i + 1), id) =~= before.push(old_list[i as int]));
            }
            if r.len() < RECENT_LIMIT {
                r.push(list[i].clone());
                proof {
                    assert(before.len() < RECENT_LIMIT);
                    assert(r@ =~= capped(before.push(old_list[i as int])));
                }
            } else {
                proof {
                    assert(capped(before.push(old_list[i as int])) =~= capped(before));
                }
            }
        } else {
            proof {
                assert(seq![doc] + others(old_list.take(i + 1), id) =~= before);
            }
        }
        i += 1;
    }
    proof {
        assert(old_list.take(i as int) =~= old_list);
    }
    *list = r;
}

/// How many of the steps are done.
pub open spec fn done_count(steps: Seq<Step>) -> nat
    decreases steps.len(),
{
    if steps.len() == 0 {
        0
    } else {
        done_count(steps.drop_last()) + if steps.last().status == Status::Done {
            1nat
        } else {
            0nat
        }
    }
}

/// The share of steps done, as a whole percentage rounded half up.
pub open spec fn percent_done_spec(steps: Seq<Step>) -> int {
    let n = steps.len() as int;
    (done_count(steps) * 100 + n / 2) / if n > 1 { n } else { 1 }
}

/// The progress figure of the trace screen: the share of steps done, in
/// whole percent, rounded half up. The sum is made in `usize`.
pub fn percent_done(steps: &[Step]) -> (r: usize)
    requires
        done_count(steps@) * 100 + steps@.len() / 2 <= usize::MAX,
    ensures
        r == percent_done_spec(steps@),
{
    let mut done: usize = 0;
    let mut i: usize = 0;
    proof {
        assert(steps@.take(0) =~= Seq::<Step>::empty());
    }
    while i < steps.len()
        invariant
            0 <= i <= steps@.len(),
            done == done_count(steps@.take(i as int)),
            done <= i,
        decreases steps.len() - i,
    {
        proof {
            assert(steps@.take(i + 1).drop_last() =~= steps@.take(i as int));
            assert(steps@.take(i + 1).last() == steps@[i as int]);
        }
        if steps[i].status == Status::Done {
            done = done + 1;
        }
        i += 1;
    }
    proof {
        assert(steps@.take(i as int) =~= steps@);
    }
    let n = steps.len();
    let den: usize = if n > 1 { n } else { 1 };
    (done * 100 + n / 2) / den
}

} // verus!
