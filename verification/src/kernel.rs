//! The stable kernel data model: memory ids, kinds, scopes, items and queries.
//!
//! Floating-point quantities of the data model (importance, confidence,
//! scores, embedding components) are held as the bit patterns of their
//! IEEE-754 single-precision values; JSON documents are held as their compact
//! serialized text.

use vstd::prelude::*;
use crate::text::text_less;

verus! {

/// Identifier of a memory item.
#[derive(Debug, Clone, PartialEq, Eq, Hash)]
pub struct MemoryId(pub String);

/// The kind of a memory item.
#[derive(Debug, Clone, Copy, PartialEq, Eq, Hash, Structural)]
pub enum MemoryKind {
    Event,
    Summary,
    Fact,
    Preference,
}

/// Tenant and optional narrower scopes that a memory belongs to.
#[derive(Debug, Clone, PartialEq, Eq)]
pub struct ScopeKey {
    pub tenant_id: String,
    pub workspace_id: Option<String>,
    pub project_id: Option<String>,
    pub agent_id: Option<String>,
    pub run_id: Option<String>,
}

/// Content of a memory: text, a JSON document (held as its serialized text),
/// or both.
#[derive(Debug, Clone)]
pub enum Content {
    Text(String),
    Json(String),
    TextJson { text: String, json: String },
}

/// A memory item of the kernel.
#[derive(Debug, Clone)]
pub struct MemoryItem {
    pub id: MemoryId,
    pub scope: ScopeKey,
    pub kind: MemoryKind,
    pub created_at_ms: i64,
    pub content: Content,
    pub tags: Vec<String>,
    /// Bits of the single-precision importance, nominally in `0..=1`.
    pub importance: u32,
    /// Bits of the single-precision confidence, nominally in `0..=1`.
    pub confidence: u32,
    pub source: String,
    pub ttl_ms: Option<i64>,
    /// Metadata entries: key and serialized JSON value, ordered by key, each
    /// key once (`wf`).
    pub meta: Vec<(String, String)>,
    /// Bits of the single-precision components of the embedding vector.
    pub embedding: Option<Vec<u32>>,
    pub embedding_model: Option<String>,
}

/// Metadata entries are ordered by key, each key once, as a map keyed by
/// text orders them.
pub open spec fn meta_ordered(meta: Seq<(String, String)>) -> bool {
    forall|i: int, j: int| 0 <= i < j < meta.len() ==> text_less(#[trigger] meta[i].0@, #[trigger] meta[j].0@)
}

impl MemoryItem {
    /// The item's metadata is ordered by key, each key once.
    pub open spec fn wf(&self) -> bool {
        meta_ordered(self.meta@)
    }
}

/// A recall query over the kernel's items.
#[derive(Debug, Clone)]
pub struct Query {
    pub scope: ScopeKey,
    pub text: String,
    pub kinds: Option<Vec<MemoryKind>>,
    pub tags_any: Option<Vec<String>>,
    pub limit: usize,
    pub since_ms: Option<i64>,
    pub until_ms: Option<i64>,
}

/// An item with the bits of its single-precision score.
#[derive(Debug, Clone)]
pub struct Scored<T> {
    pub score: u32,
    pub item: T,
}

/// Bits of the single-precision value 0.5.
pub open spec fn half_bits() -> u32 {
    0x3F00_0000
}

/// Bits of the single-precision value 1.0.
pub open spec fn one_bits() -> u32 {
    0x3F80_0000
}

/// Whether `c` is a lower-case hexadecimal digit.
pub open spec fn is_lower_hex(c: char) -> bool {
    ('0' <= c <= '9') || ('a' <= c <= 'f')
}

/// Whether `s` is a UUID in hyphenated lower-case form: 36 characters,
/// hyphens at 8, 13, 18 and 23 and lower-case hexadecimal digits elsewhere.
pub open spec fn is_uuid_text(s: Seq<char>) -> bool {
    &&& s.len() == 36
    &&& forall|i: int|
        0 <= i < 36 ==> if i == 8 || i == 13 || i == 18 || i == 23 {
            s[i] == '-'
        } else {
            is_lower_hex(#[trigger] s[i])
        }
}

/// A fresh random UUID (`uuid::Uuid::new_v4`), written hyphenated in lower
/// case (its `Display` form, `to_string`, which is also its `LowerHex` form):
/// 36 characters, hyphens at 8, 13, 18 and 23, lower-case hexadecimal digits
/// elsewhere. Which digits come out is chance and is not stated.
#[verifier::external_body]
pub(crate) fn new_uuid_text() -> (s: String)
    ensures
        is_uuid_text(s@),
{
    uuid::Uuid::new_v4().to_string()
}

/// A point in time: whole seconds since the Unix epoch and the nanoseconds
/// past them (1_000_000_000 or more only within a leap second).
#[derive(Debug, Clone, Copy, PartialEq, Eq, Structural)]
pub struct Timestamp {
    pub secs: i64,
    pub nanos: u32,
}

/// The current time (`chrono::Utc::now()`, read by its `timestamp` and
/// `timestamp_subsec_nanos`). `Utc::now` measures the system time since the
/// epoch (it stops on a clock set before the epoch) and builds the time with
/// `DateTime::from_timestamp` from whole seconds and the nanoseconds of the
/// second (it stops on seconds past chrono's range, year 262143): so the
/// seconds are not negative and below 10^13, and the nanoseconds below 10^9.
/// Which reading comes is the clock's and is not stated.
#[verifier::external_body]
pub(crate) fn utc_now() -> (r: Timestamp)
    ensures
        0 <= r.secs < 10_000_000_000_000,
        r.nanos < 1_000_000_000,
{
    let now = chrono::Utc::now();
    Timestamp { secs: now.timestamp(), nanos: now.timestamp_subsec_nanos() }
}

/// Milliseconds since the Unix epoch of a point in time, as chrono's
/// `timestamp_millis` counts them: the whole seconds in milliseconds plus the
/// whole milliseconds of the nanoseconds.
pub open spec fn millis_of(t: Timestamp) -> int {
    t.secs * 1000 + t.nanos / 1_000_000
}

/// Milliseconds since the Unix epoch of a point in time, as chrono's
/// `timestamp_millis` counts them.
pub fn millis_of_timestamp(t: Timestamp) -> (r: i64)
    requires
        i64::MIN <= t.secs * 1000,
        t.secs * 1000 + t.nanos / 1_000_000 <= i64::MAX,
    ensures
        r == millis_of(t),
{
    t.secs * 1000 + (t.nanos / 1_000_000) as i64
}

/// The current time in milliseconds since the Unix epoch: the milliseconds
/// of some reading of the clock.
pub(crate) fn now_millis() -> (r: i64)
    ensures
        r >= 0,
        exists|t: Timestamp| 0 <= t.secs < 10_000_000_000_000 && t.nanos < 1_000_000_000 && r == millis_of(t),
{
    let t = utc_now();
    millis_of_timestamp(t)
}

impl MemoryItem {
    /// A new item stamped with the current time: no tags, importance 0.5,
    /// confidence 1.0, no time-to-live, no metadata and no embedding.
    pub fn new(id: MemoryId, scope: ScopeKey, kind: MemoryKind, content: Content, source: String) -> (r: Self)
        ensures
            r.id == id,
            r.scope == scope,
            r.kind == kind,
            r.content == content,
            r.source == source,
            r.created_at_ms >= 0,
            r.tags@.len() == 0,
            r.importance == half_bits(),
            r.confidence == one_bits(),
            r.ttl_ms is None,
            r.meta@.len() == 0,
            r.wf(),
            r.embedding is None,
            r.embedding_model is None,
    {
        let created_at_ms = now_millis();
        MemoryItem {
            id,
            scope,
            kind,
            created_at_ms,
            content,
            tags: Vec::new(),
            importance: 0x3F00_0000,
            confidence: 0x3F80_0000,
            source,
            ttl_ms: None,
            meta: Vec::new(),
            embedding: None,
            embedding_model: None,
        }
    }
}

} // verus!
