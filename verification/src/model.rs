//! What the monitoring probe reports, as plain values.
//!
//! Instants stay as the text the probe wrote; the views read them with
//! `format::parse`.

use vstd::prelude::*;
use crate::text::{str_eq};

verus! {

/// The deployment the probe looked at.
#[derive(Clone, Debug, PartialEq, Eq, Default)]
pub struct Env {
    pub name: String,
    pub subscription: String,
    pub resource_group: String,
    pub cosmos_account: String,
    pub cosmos_db: String,
    pub store_account: String,
    pub app_insights: String,
    pub extract_job: String,
    pub sb_namespace: String,
    pub landing_retention_days: i64,
    pub pending_max_days: i64,
    /// Blob containers that actually exist in the account.
    pub containers: Vec<String>,
}

pub open spec fn strings(v: Seq<String>) -> Seq<Seq<char>> {
    v.map_values(|s: String| s@)
}

impl Env {
    pub fn has_container(&self, name: &str) -> (b: bool)
        ensures
            b == strings(self.containers@).contains(name@),
    {
        let mut i: usize = 0;
        while i < self.containers.len()
            invariant
                i <= self.containers.len(),
                forall|j: int| 0 <= j < i ==> strings(self.containers@)[j] != name@,
            decreases self.containers.len() - i,
        {
            if str_eq(self.containers[i].as_str(), name) {
                proof {
                    assert(strings(self.containers@)[i as int] == name@);
                }
                return true;
            }
            i += 1;
        }
        false
    }
}

/// A blob address.
#[derive(Clone, Debug, PartialEq, Eq, Default)]
pub struct Location {
    pub container: String,
    pub path: String,
}

/// A JSON value as the views read it: absent, a string, or anything else in
/// its JSON spelling.
#[derive(Clone, Debug, PartialEq, Eq)]
pub enum AttrValue {
    Null,
    Text(String),
    Other(String),
}

/// One named field of a JSON object.
#[derive(Clone, Debug, PartialEq, Eq)]
pub struct Attribute {
    pub key: String,
    pub value: AttrValue,
}

/// The value of the first field with a key.
pub open spec fn field_of(fields: Seq<Attribute>, key: Seq<char>) -> Option<AttrValue>
    decreases fields.len(),
{
    if fields.len() == 0 {
        None
    } else if fields[0].key@ == key {
        Some(fields[0].value)
    } else {
        field_of(fields.drop_first(), key)
    }
}

/// A field read as text: its string, or its JSON spelling; nothing for null.
pub open spec fn field_text(fields: Seq<Attribute>, key: Seq<char>) -> Option<Seq<char>> {
    match field_of(fields, key) {
        Some(AttrValue::Text(s)) => Some(s@),
        Some(AttrValue::Other(j)) => Some(j@),
        _ => None,
    }
}

pub fn find_field<'a>(fields: &'a Vec<Attribute>, key: &str) -> (r: Option<&'a AttrValue>)
    ensures
        match r {
            Some(v) => field_of(fields@, key@) == Some(*v),
            None => field_of(fields@, key@) is None,
        },
{
    let mut i: usize = 0;
    proof {
        assert(fields@.skip(0) =~= fields@);
    }
    while i < fields.len()
        invariant
            i <= fields.len(),
            field_of(fields@, key@) == field_of(fields@.skip(i as int), key@),
        decreases fields.len() - i,
    {
        proof {
            assert(fields@.skip(i as int).drop_first() =~= fields@.skip(i + 1));
        }
        if str_eq(fields[i].key.as_str(), key) {
            return Some(&fields[i].value);
        }
        i += 1;
    }
    None
}

/// A field read as text, as `detail_str` reads an audit detail.
pub fn field_str(fields: &Vec<Attribute>, key: &str) -> (r: Option<String>)
    ensures
        match r {
            Some(s) => field_text(fields@, key@) == Some(s@),
            None => field_text(fields@, key@) is None,
        },
{
    match find_field(fields, key) {
        Some(AttrValue::Text(s)) => Some(s.clone()),
        Some(AttrValue::Other(j)) => Some(j.clone()),
        _ => None,
    }
}

/// An attribute as the views show it: none for null or an empty string.
pub open spec fn attribute_spec(fields: Seq<Attribute>, key: Seq<char>) -> Option<Seq<char>> {
    match field_of(fields, key) {
        Some(AttrValue::Text(s)) => if s@.len() == 0 { None } else { Some(s@) },
        Some(AttrValue::Other(j)) => Some(j@),
        _ => None,
    }
}

/// One catalog row.
#[derive(Clone, Debug, PartialEq, Eq, Default)]
pub struct Doc {
    pub id: String,
    pub document_id: String,
    pub revision_id: String,
    pub business_key: String,
    pub source_system: String,
    pub source_document_id: String,
    pub document_type: String,
    pub state: String,
    pub file_name: String,
    pub file_guid: String,
    pub mime_type: String,
    pub sniffed_mime: String,
    /// How the document's file is to be read: RO, RW, RP or RA.
    pub file_indicator: String,
    pub size_bytes: Option<u64>,
    pub actual_size_bytes: Option<u64>,
    pub registered_at: Option<String>,
    pub uploaded_at: Option<String>,
    pub promoted_at: Option<String>,
    pub dispatched_at: Option<String>,
    pub produced_at: Option<String>,
    pub pending_since: Option<String>,
    pub pending_attempts: Option<u32>,
    pub pending_key: Option<String>,
    pub pending_reason: Option<String>,
    pub quarantine_reason: Option<String>,
    pub correlation_id: String,
    pub root_file_guid: String,
    pub root_document_id: String,
    pub parent_document_id: Option<String>,
    pub path_from_root: Option<String>,
    pub derivation_step: Option<String>,
    pub archive_extraction_state: Option<String>,
    pub archive_extracted_at: Option<String>,
    pub archive_member_count: Option<u64>,
    pub archive_extraction_lease_expires_at: Option<String>,
    pub reference_data_as_of: Option<String>,
    pub landing: Option<Location>,
    pub raw: Option<Location>,
    pub curated: Option<Location>,
    /// The attribute map, sorted by key.
    pub attributes: Vec<Attribute>,
    pub written_at: Option<String>,
}

impl Doc {
    /// The identifier an operator types: the business key when there is one.
    pub fn display_key(&self) -> (r: &str)
        ensures
            r@ == if self.business_key@.len() == 0 {
                self.document_id@
            } else {
                self.business_key@
            },
    {
        if self.business_key.as_str().is_empty() {
            self.document_id.as_str()
        } else {
            self.business_key.as_str()
        }
    }

    /// A file extracted from an archive, rather than the archive itself.
    pub fn is_member(&self) -> (b: bool)
        ensures
            b == (self.root_file_guid@.len() > 0 && self.root_file_guid@ != self.file_guid@),
    {
        !self.root_file_guid.as_str().is_empty() && !str_eq(self.root_file_guid.as_str(), self.file_guid.as_str())
    }

    /// An attribute as text; absent for null or an empty string.
    pub fn attribute(&self, key: &str) -> (r: Option<String>)
        ensures
            match r {
                Some(s) => attribute_spec(self.attributes@, key@) == Some(s@),
                None => attribute_spec(self.attributes@, key@) is None,
            },
    {
        match find_field(&self.attributes, key) {
            Some(AttrValue::Text(s)) => if s.as_str().is_empty() {
                None
            } else {
                Some(s.clone())
            },
            Some(AttrValue::Other(j)) => Some(j.clone()),
            _ => None,
        }
    }
}

/// One audit entry.
#[derive(Clone, Debug, PartialEq, Eq, Default)]
pub struct AuditRow {
    pub id: String,
    pub document_id: String,
    pub event_type: String,
    pub occurred_at: String,
    pub correlation_id: String,
    /// The detail object's fields, sorted by key; empty when it is no object.
    pub detail: Vec<Attribute>,
}

/// What the probe found at one blob address.
#[derive(Clone, Debug, PartialEq, Eq, Default)]
pub struct BlobCheck {
    pub zone: String,
    pub container: String,
    pub container_exists: bool,
    /// None when the catalog names no address to look at.
    pub path: Option<String>,
    /// None when the check could not run (see `error`).
    pub exists: Option<bool>,
    pub size: Option<u64>,
    pub last_modified: Option<String>,
    pub error: Option<String>,
}

/// One entry the archive holds, whether or not the walk reached it.
#[derive(Debug, PartialEq, Eq, Default)]
pub struct ExpectedEntry {
    pub path: String,
    pub depth: u32,
    pub container: bool,
    pub size: Option<u64>,
    pub document_id: String,
    /// The archive policy's reason when it refuses this entry: the walk stops here.
    pub rejected: Option<String>,
}

impl Clone for ExpectedEntry {
    fn clone(&self) -> (r: Self)
        ensures
            r == *self,
    {
        ExpectedEntry {
            path: self.path.clone(),
            depth: self.depth,
            container: self.container,
            size: self.size,
            document_id: self.document_id.clone(),
            rejected: self.rejected.clone(),
        }
    }
}

#[derive(Clone, Debug, PartialEq, Eq, Default)]
pub struct Expected {
    pub entries: Vec<ExpectedEntry>,
    /// Why the archive could not be enumerated, when it could not.
    pub error: Option<String>,
}

#[derive(Clone, Debug, PartialEq, Eq, Default)]
pub struct LogRow {
    pub at: String,
    /// `functions` (App Insights) or `job` (Container Apps console).
    pub source: String,
    pub level: String,
    pub category: String,
    pub message: String,
    pub replica: Option<String>,
}

#[derive(Clone, Debug, PartialEq, Eq, Default)]
pub struct Logs {
    pub available: bool,
    pub reason: Option<String>,
    /// Ingestion lag of the newest rows, in milliseconds.
    pub lag_millis: Option<i64>,
    pub checked_at: Option<String>,
    pub entries: Vec<LogRow>,
}

#[derive(Clone, Debug, PartialEq, Eq, Default)]
pub struct SourceCfg {
    pub source_system: String,
    pub reference_set: Option<String>,
    pub pending_max_days: Option<i64>,
}

#[derive(Clone, Debug, PartialEq, Eq, Default)]
pub struct RefPointer {
    pub reference_set_id: String,
    pub generation: Option<i64>,
    pub row_count: Option<u64>,
    pub built_at: Option<String>,
    pub path: Option<String>,
    pub error: Option<String>,
}

#[derive(Clone, Debug, PartialEq, Eq, Default)]
pub struct StuckRoot {
    pub root: Doc,
    pub members_written: u64,
    pub last_progress: Option<String>,
    pub deepest: Option<u32>,
    pub expected: Option<Expected>,
    pub replica: Option<String>,
}

#[derive(Clone, Debug, PartialEq, Eq, Default)]
pub struct Overview {
    pub env: Env,
    pub checked_at: String,
    pub catalog_rows: u64,
    pub audit_rows: u64,
    pub parked: Vec<Doc>,
    pub stuck: Vec<StuckRoot>,
    pub sources: Vec<SourceCfg>,
    pub references: Vec<RefPointer>,
    pub warnings: Vec<String>,
    /// Catalog rows with a curated copy.
    pub curated_rows: u64,
    /// Documents dispatched for extraction with no curated copy yet.
    pub dispatched_not_curated: u64,
    /// The documents delivered to PACE, by document id.
    pub pace_delivered: Vec<String>,
}

#[derive(Clone, Debug, PartialEq, Eq, Default)]
pub struct Searched {
    pub label: String,
    pub result: String,
}

#[derive(Clone, Debug, PartialEq, Eq, Default)]
pub struct Trace {
    pub env: Env,
    pub checked_at: String,
    pub query: String,
    pub matched_on: Option<String>,
    /// The revision being traced: the root of an archive family, or the document.
    pub root: Option<Doc>,
    /// Every catalog row sharing the root, members included.
    pub family: Vec<Doc>,
    pub is_archive: bool,
    /// Other revisions or documents the query also matched.
    pub candidates: Vec<Doc>,
    pub audit: Vec<AuditRow>,
    pub blobs: Vec<BlobCheck>,
    pub expected: Option<Expected>,
    pub logs: Logs,
    pub source: Option<SourceCfg>,
    pub reference: Option<RefPointer>,
    pub searched: Vec<Searched>,
    pub catalog_rows: u64,
    pub audit_rows: u64,
}

#[derive(Clone, Debug, PartialEq, Eq, Default)]
pub struct DeadMessage {
    pub queue: String,
    pub sequence: Option<i64>,
    pub enqueued_at: Option<String>,
    pub delivery_count: Option<u32>,
    pub reason: Option<String>,
    pub description: Option<String>,
    pub document_id: Option<String>,
    pub subject: Option<String>,
}

#[derive(Clone, Debug, PartialEq, Eq, Default)]
pub struct QueueState {
    pub name: String,
    pub dead_letter_count: Option<u64>,
    pub active_count: Option<u64>,
    pub error: Option<String>,
}

#[derive(Clone, Debug, PartialEq, Eq, Default)]
pub struct DeadLetters {
    pub env: Env,
    pub checked_at: String,
    pub queues: Vec<QueueState>,
    pub messages: Vec<DeadMessage>,
    /// Event Grid deliveries that never reached a queue, by blob name.
    pub event_grid: Vec<BlobCheck>,
    /// Catalog rows for the document ids the messages name.
    pub docs: Vec<Doc>,
}

#[derive(Clone, Debug, PartialEq, Eq, Default)]
pub struct Timing {
    pub env: Env,
    pub checked_at: String,
    pub docs: Vec<Doc>,
    pub truncated: bool,
}

} // verus!
