//! The memory model of the single-process server.
//!
//! As in the kernel, single-precision quantities are held as their IEEE-754
//! bits and JSON documents as their compact serialized text; the creation
//! time is held as seconds and nanoseconds since the Unix epoch.

use vstd::prelude::*;
use crate::kernel::{half_bits, is_uuid_text, new_uuid_text, one_bits, utc_now, Timestamp};
use crate::text::{opt_view, views};

verus! {

/// `chrono::TimeDelta` (`chrono::Duration`), carried as an opaque value.
#[verifier::external_type_specification]
#[verifier::external_body]
pub struct ExTimeDelta(chrono::TimeDelta);

/// Tenant and optional narrower scopes that a memory belongs to.
#[derive(Debug, Clone)]
pub struct ScopeKey {
    pub tenant_id: String,
    pub workspace_id: Option<String>,
    pub project_id: Option<String>,
    pub agent_id: Option<String>,
    pub run_id: Option<String>,
}

/// The kind of a memory item.
#[derive(Debug, Clone, Copy, PartialEq, Eq, Structural)]
pub enum MemoryKind {
    Event,
    Episode,
    Summary,
    Fact,
    Preference,
}

/// Content of a memory: text, a JSON document (held as its serialized text),
/// or both.
#[derive(Debug, Clone)]
pub enum Content {
    Text(String),
    Json(String),
    TextJson { text: String, json: String },
}

/// Who produced a memory.
#[derive(Debug, Clone, Copy, PartialEq, Eq, Structural)]
pub enum Source {
    User,
    Tool,
    Model,
    System,
}

/// A typed link between two memories, with the bits of an optional
/// single-precision weight.
#[derive(Debug, Clone)]
pub struct MemoryLink {
    pub src_id: String,
    pub dst_id: String,
    pub relation: String,
    pub weight: Option<u32>,
}

/// A memory item.
#[derive(Debug, Clone)]
pub struct MemoryItem {
    pub id: String,
    pub scope: ScopeKey,
    pub kind: MemoryKind,
    /// Creation time.
    pub time: Timestamp,
    pub content: Content,
    pub tags: Vec<String>,
    pub links: Vec<MemoryLink>,
    /// Bits of the single-precision importance.
    pub importance: u32,
    /// Bits of the single-precision confidence.
    pub confidence: u32,
    pub ttl: Option<chrono::Duration>,
    pub source: Source,
    pub integrity_hash: String,
}

/// What a scope names.
pub struct ScopeView {
    pub tenant_id: Seq<char>,
    pub workspace_id: Option<Seq<char>>,
    pub project_id: Option<Seq<char>>,
    pub agent_id: Option<Seq<char>>,
    pub run_id: Option<Seq<char>>,
}

impl View for ScopeKey {
    type V = ScopeView;

    open spec fn view(&self) -> ScopeView {
        ScopeView {
            tenant_id: self.tenant_id@,
            workspace_id: opt_view(self.workspace_id),
            project_id: opt_view(self.project_id),
            agent_id: opt_view(self.agent_id),
            run_id: opt_view(self.run_id),
        }
    }
}

/// What a content holds.
pub enum ContentView {
    Text(Seq<char>),
    Json(Seq<char>),
    TextJson { text: Seq<char>, json: Seq<char> },
}

impl View for Content {
    type V = ContentView;

    open spec fn view(&self) -> ContentView {
        match self {
            Content::Text(t) => ContentView::Text(t@),
            Content::Json(j) => ContentView::Json(j@),
            Content::TextJson { text, json } => ContentView::TextJson { text: text@, json: json@ },
        }
    }
}

/// What a link holds.
pub struct LinkView {
    pub src_id: Seq<char>,
    pub dst_id: Seq<char>,
    pub relation: Seq<char>,
    pub weight: Option<u32>,
}

impl View for MemoryLink {
    type V = LinkView;

    open spec fn view(&self) -> LinkView {
        LinkView { src_id: self.src_id@, dst_id: self.dst_id@, relation: self.relation@, weight: self.weight }
    }
}

/// What a memory item holds.
pub struct ItemView {
    pub id: Seq<char>,
    pub scope: ScopeView,
    pub kind: MemoryKind,
    pub time: Timestamp,
    pub content: ContentView,
    pub tags: Seq<Seq<char>>,
    pub links: Seq<LinkView>,
    pub importance: u32,
    pub confidence: u32,
    pub ttl: Option<chrono::Duration>,
    pub source: Source,
    pub integrity_hash: Seq<char>,
}

impl View for MemoryItem {
    type V = ItemView;

    open spec fn view(&self) -> ItemView {
        ItemView {
            id: self.id@,
            scope: self.scope@,
            kind: self.kind,
            time: self.time,
            content: self.content@,
            tags: views(self.tags@),
            links: self.links@.map_values(|l: MemoryLink| l@),
            importance: self.importance,
            confidence: self.confidence,
            ttl: self.ttl,
            source: self.source,
            integrity_hash: self.integrity_hash@,
        }
    }
}

/// A copy of an optional string.
pub fn copy_opt_string(o: &Option<String>) -> (r: Option<String>)
    ensures
        r == *o,
{
    match o {
        Some(s) => Some(s.clone()),
        None => None,
    }
}

/// A copy of a vector of strings.
pub fn copy_strings(v: &Vec<String>) -> (r: Vec<String>)
    ensures
        r@ == v@,
{
    let mut r: Vec<String> = Vec::new();
    let mut i: usize = 0;
    while i < v.len()
        invariant
            i <= v.len(),
            r@ == v@.take(i as int),
        decreases v.len() - i,
    {
        r.push(v[i].clone());
        assert(v@.take(i + 1) =~= v@.take(i as int).push(v@[i as int]));
        i = i + 1;
    }
    assert(v@.take(v.len() as int) =~= v@);
    r
}

impl ScopeKey {
    /// A copy of this scope.
    pub fn duplicate(&self) -> (r: Self)
        ensures
            r == *self,
    {
        ScopeKey {
            tenant_id: self.tenant_id.clone(),
            workspace_id: copy_opt_string(&self.workspace_id),
            project_id: copy_opt_string(&self.project_id),
            agent_id: copy_opt_string(&self.agent_id),
            run_id: copy_opt_string(&self.run_id),
        }
    }
}

impl Content {
    /// A copy of this content.
    pub fn duplicate(&self) -> (r: Self)
        ensures
            r == *self,
    {
        match self {
            Content::Text(t) => Content::Text(t.clone()),
            Content::Json(j) => Content::Json(j.clone()),
            Content::TextJson { text, json } => Content::TextJson { text: text.clone(), json: json.clone() },
        }
    }
}

impl MemoryLink {
    /// A copy of this link.
    pub fn duplicate(&self) -> (r: Self)
        ensures
            r == *self,
    {
        MemoryLink {
            src_id: self.src_id.clone(),
            dst_id: self.dst_id.clone(),
            relation: self.relation.clone(),
            weight: self.weight,
        }
    }
}

/// A copy of a vector of links.
pub fn copy_links(v: &Vec<MemoryLink>) -> (r: Vec<MemoryLink>)
    ensures
        r@ == v@,
{
    let mut r: Vec<MemoryLink> = Vec::new();
    let mut i: usize = 0;
    while i < v.len()
        invariant
            i <= v.len(),
            r@ == v@.take(i as int),
        decreases v.len() - i,
    {
        r.push(v[i].duplicate());
        assert(v@.take(i + 1) =~= v@.take(i as int).push(v@[i as int]));
        i = i + 1;
    }
    assert(v@.take(v.len() as int) =~= v@);
    r
}

impl MemoryItem {
    /// A new memory with a fresh UUID as its id, stamped with the current
    /// time: no tags, no links, importance 0.5, confidence 1.0, no
    /// time-to-live and no integrity hash yet.
    pub fn new(scope: ScopeKey, kind: MemoryKind, content: Content, source: Source) -> (r: Self)
        ensures
            is_uuid_text(r.id@),
            r.scope == scope,
            r.kind == kind,
            r.content == content,
            r.source == source,
            r.time.secs >= 0,
            r.time.nanos < 1_000_000_000,
            r.tags@.len() == 0,
            r.links@.len() == 0,
            r.importance == half_bits(),
            r.confidence == one_bits(),
            r.ttl is None,
            r.integrity_hash@.len() == 0,
    {
        let id = new_uuid_text();
        MemoryItem {
            id,
            scope,
            kind,
            time: utc_now(),
            content,
            tags: Vec::new(),
            links: Vec::new(),
            importance: 0x3F00_0000,
            confidence: 0x3F80_0000,
            ttl: None,
            source,
            integrity_hash: String::new(),
        }
    }

    /// This memory with `tags` as its tags.
    pub fn with_tags(self, tags: Vec<String>) -> (r: Self)
        ensures
            r == (MemoryItem { tags, ..self }),
    {
        let mut item = self;
        item.tags = tags;
        item
    }

    /// Stamps this memory with an integrity hash: a fresh UUID in
    /// hyphenated lower-case form.
    pub fn compute_integrity_hash(&mut self)
        ensures
            *final(self) == (MemoryItem { integrity_hash: final(self).integrity_hash, ..*old(self) }),
            is_uuid_text(final(self).integrity_hash@),
    {
        self.integrity_hash = new_uuid_text();
    }

    /// A copy of this memory.
    pub fn duplicate(&self) -> (r: Self)
        ensures
            r@ == self@,
    {
        MemoryItem {
            id: self.id.clone(),
            scope: self.scope.duplicate(),
            kind: self.kind,
            time: self.time,
            content: self.content.duplicate(),
            tags: copy_strings(&self.tags),
            links: copy_links(&self.links),
            importance: self.importance,
            confidence: self.confidence,
            ttl: self.ttl,
            source: self.source,
            integrity_hash: self.integrity_hash.clone(),
        }
    }
}

} // verus!
