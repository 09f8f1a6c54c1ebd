//! Request rules of the single-process server: writing a memory from a
//! request, answering a missing memory, and recalling a context pack.

use vstd::prelude::*;
use crate::error::MomError;
use crate::kernel::{half_bits, is_uuid_text, one_bits};
use crate::memory::{Content, MemoryItem, MemoryKind, ScopeKey, Source};
use crate::store::{Query, ScoredMemory};
use crate::text::{opt_view, same_text};

verus! {

broadcast use vstd::string::group_string_axioms;

/// A link from one memory to another, cited by a context pack.
#[derive(Debug, Clone)]
pub struct Citation {
    pub source_id: String,
    pub target_id: String,
    pub relation: String,
}

/// The memories recalled for an agent, grouped by role.
#[derive(Debug, Clone)]
pub struct ContextPack {
    pub highlights: Vec<MemoryItem>,
    pub summaries: Vec<MemoryItem>,
    pub facts: Vec<MemoryItem>,
    pub citations: Vec<Citation>,
}

/// The scope named by a write request, every part optional.
#[derive(Debug)]
pub struct ScopeKeyRequest {
    pub tenant_id: Option<String>,
    pub workspace_id: Option<String>,
    pub project_id: Option<String>,
    pub agent_id: Option<String>,
    pub run_id: Option<String>,
}

/// The content of a write request, by the shape of its JSON value: a string,
/// an object (held as its serialized text), or anything else.
#[derive(Debug)]
pub enum RequestContent {
    String(String),
    Object(String),
    Other,
}

/// The kind that a write request names.
pub open spec fn requested_kind(name: Seq<char>) -> Option<MemoryKind> {
    if name == "event"@ {
        Some(MemoryKind::Event)
    } else if name == "episode"@ {
        Some(MemoryKind::Episode)
    } else if name == "summary"@ {
        Some(MemoryKind::Summary)
    } else if name == "fact"@ {
        Some(MemoryKind::Fact)
    } else if name == "preference"@ {
        Some(MemoryKind::Preference)
    } else {
        None
    }
}

/// The five kind names of a write request each stand for their own kind:
/// every kind has a name, no two names share a kind, and no other name
/// stands for a kind.
pub proof fn lemma_requested_kinds_distinct(name: Seq<char>)
    ensures
        requested_kind("event"@) == Some(MemoryKind::Event),
        requested_kind("episode"@) == Some(MemoryKind::Episode),
        requested_kind("summary"@) == Some(MemoryKind::Summary),
        requested_kind("fact"@) == Some(MemoryKind::Fact),
        requested_kind("preference"@) == Some(MemoryKind::Preference),
        requested_kind(name) is Some ==> name == "event"@ || name == "episode"@ || name == "summary"@
            || name == "fact"@ || name == "preference"@,
        forall|a: Seq<char>, b: Seq<char>|
            #[trigger] requested_kind(a) is Some && requested_kind(a) == #[trigger] requested_kind(b) ==> a == b,
{
    reveal_strlit("event");
    reveal_strlit("episode");
    reveal_strlit("summary");
    reveal_strlit("fact");
    reveal_strlit("preference");
    assert("event"@.len() == 5);
    assert("episode"@.len() == 7);
    assert("summary"@.len() == 7);
    assert("fact"@.len() == 4);
    assert("preference"@.len() == 10);
    assert("episode"@[0] != "summary"@[0]);
}

/// The kind that a write request names; any other name is invalid input.
pub fn kind_from_request(name: &str) -> (r: Result<MemoryKind, MomError>)
    ensures
        match requested_kind(name@) {
            Some(k) => r matches Ok(x) && x == k,
            None => r matches Err(MomError::InvalidInput(m)) && m@ == "Invalid memory kind"@,
        },
{
    if same_text(name, "event") {
        Ok(MemoryKind::Event)
    } else if same_text(name, "episode") {
        Ok(MemoryKind::Episode)
    } else if same_text(name, "summary") {
        Ok(MemoryKind::Summary)
    } else if same_text(name, "fact") {
        Ok(MemoryKind::Fact)
    } else if same_text(name, "preference") {
        Ok(MemoryKind::Preference)
    } else {
        Err(MomError::InvalidInput("Invalid memory kind".to_string()))
    }
}

/// Whether `r` is the scope that a write request names: its fields as given,
/// the tenant `default` when not given, and only the tenant `default` when
/// no scope is given.
pub open spec fn is_request_scope(scope: Option<ScopeKeyRequest>, r: ScopeKey) -> bool {
    match scope {
        Some(s) => {
            &&& match s.tenant_id {
                Some(t) => r.tenant_id == t,
                None => r.tenant_id@ == "default"@,
            }
            &&& r.workspace_id == s.workspace_id
            &&& r.project_id == s.project_id
            &&& r.agent_id == s.agent_id
            &&& r.run_id == s.run_id
        },
        None => r.tenant_id@ == "default"@ && r.workspace_id is None && r.project_id is None
            && r.agent_id is None && r.run_id is None,
    }
}

/// A write request without a scope, or without a tenant in its scope, writes
/// to the tenant `default`; a given tenant and narrower scopes are kept.
pub proof fn lemma_request_scope_default(s: ScopeKeyRequest, r: ScopeKey)
    ensures
        is_request_scope(None, r) ==> r.tenant_id@ == "default"@ && r.workspace_id is None && r.project_id is None
            && r.agent_id is None && r.run_id is None,
        is_request_scope(Some(s), r) ==> (match s.tenant_id {
            Some(t) => r.tenant_id == t,
            None => r.tenant_id@ == "default"@,
        }) && r.workspace_id == s.workspace_id && r.project_id == s.project_id && r.agent_id == s.agent_id
            && r.run_id == s.run_id,
{
}

/// The scope of a write request; the tenant is `default` when not given.
pub fn scope_from_request(scope: Option<ScopeKeyRequest>) -> (r: ScopeKey)
    ensures
        is_request_scope(scope, r),
{
    let s = match scope {
        Some(s) => s,
        None => ScopeKeyRequest {
            tenant_id: None,
            workspace_id: None,
            project_id: None,
            agent_id: None,
            run_id: None,
        },
    };
    let tenant_id = match s.tenant_id {
        Some(t) => t,
        None => "default".to_string(),
    };
    ScopeKey {
        tenant_id,
        workspace_id: s.workspace_id,
        project_id: s.project_id,
        agent_id: s.agent_id,
        run_id: s.run_id,
    }
}

/// The content of a write request: a string is text, an object is JSON, and
/// anything else is invalid input.
pub fn content_from_request(c: RequestContent) -> (r: Result<Content, MomError>)
    ensures
        match c {
            RequestContent::String(s) => r matches Ok(x) && x == Content::Text(s),
            RequestContent::Object(j) => r matches Ok(x) && x == Content::Json(j),
            RequestContent::Other => r matches Err(MomError::InvalidInput(m)) && m@ == "Invalid content"@,
        },
{
    match c {
        RequestContent::String(s) => Ok(Content::Text(s)),
        RequestContent::Object(j) => Ok(Content::Json(j)),
        RequestContent::Other => Err(MomError::InvalidInput("Invalid content".to_string())),
    }
}

/// The memory that a write request creates: the named kind (checked first),
/// the scope, the content, a fresh id, the given tags, and an integrity
/// hash; written by the user.
pub fn memory_from_request(
    kind: &str,
    content: RequestContent,
    tags: Option<Vec<String>>,
    scope: Option<ScopeKeyRequest>,
) -> (r: Result<MemoryItem, MomError>)
    ensures
        requested_kind(kind@) is None ==> (r matches Err(MomError::InvalidInput(m)) && m@
            == "Invalid memory kind"@),
        requested_kind(kind@) is Some && content is Other ==> (r matches Err(
            MomError::InvalidInput(m),
        ) && m@ == "Invalid content"@),
        r matches Ok(item) ==> {
            &&& requested_kind(kind@) == Some(item.kind)
            &&& is_request_scope(scope, item.scope)
            &&& match content {
                RequestContent::String(s) => item.content == Content::Text(s),
                RequestContent::Object(j) => item.content == Content::Json(j),
                RequestContent::Other => false,
            }
            &&& match tags {
                Some(t) => item.tags == t,
                None => item.tags@.len() == 0,
            }
            &&& is_uuid_text(item.id@)
            &&& is_uuid_text(item.integrity_hash@)
            &&& item.source == Source::User
            &&& item.time.secs >= 0
            &&& item.links@.len() == 0
            &&& item.importance == half_bits()
            &&& item.confidence == one_bits()
            &&& item.ttl is None
        },
        requested_kind(kind@) is Some && !(content is Other) ==> r is Ok,
{
    let k = kind_from_request(kind)?;
    let scope_key = scope_from_request(scope);
    let c = content_from_request(content)?;
    let mut item = MemoryItem::new(scope_key, k, c, Source::User);
    match tags {
        Some(t) => {
            item = item.with_tags(t);
        },
        None => {},
    }
    item.compute_integrity_hash();
    Ok(item)
}

/// The error for a memory that is not stored.
pub fn memory_not_found(id: &str) -> (r: MomError)
    ensures
        r matches MomError::NotFound(m) && m@ == "Memory "@ + id@ + " not found"@,
{
    let mut m = "Memory ".to_string();
    m.append(id);
    m.append(" not found");
    MomError::NotFound(m)
}

/// The store query that a recall request asks: its text, no filters, at most
/// 10 items from the first.
pub fn recall_query(text: String) -> (r: Query)
    ensures
        r.text == Some(text),
        r.tags is None,
        r.kind is None,
        r.limit == Some(10usize),
        r.offset == Some(0usize),
{
    Query { text: Some(text), tags: None, kind: None, limit: Some(10), offset: Some(0) }
}

/// The context pack of recalled memories: all of them as highlights, in
/// order; no summaries, facts or citations.
pub fn context_pack(results: Vec<ScoredMemory>) -> (r: ContextPack)
    ensures
        r.highlights@ == results@.map_values(|s: ScoredMemory| s.item),
        r.summaries@.len() == 0,
        r.facts@.len() == 0,
        r.citations@.len() == 0,
{
    let ghost all = results@;
    let mut results = results;
    let mut rev: Vec<MemoryItem> = Vec::new();
    while results.len() > 0
        invariant
            results@ == all.take(results.len() as int),
            results.len() <= all.len(),
            rev@.len() == all.len() - results.len(),
            forall|k: int| 0 <= k < rev@.len() ==> #[trigger] rev@[k] == all[all.len() - 1 - k].item,
        decreases results.len(),
    {
        let ghost n = results.len() as int;
        let s = results.pop().unwrap();
        assert(all.take(n).last() == all[n - 1]);
        assert(results@ =~= all.take(n - 1));
        rev.push(s.item);
    }
    let mut highlights: Vec<MemoryItem> = Vec::new();
    while rev.len() > 0
        invariant
            rev@.len() + highlights@.len() == all.len(),
            forall|k: int| 0 <= k < rev@.len() ==> #[trigger] rev@[k] == all[all.len() - 1 - k].item,
            forall|k: int| 0 <= k < highlights@.len() ==> #[trigger] highlights@[k] == all[k].item,
        decreases rev.len(),
    {
        let x = rev.pop().unwrap();
        highlights.push(x);
    }
    assert(highlights@ =~= all.map_values(|s: ScoredMemory| s.item));
    ContextPack { highlights, summaries: Vec::new(), facts: Vec::new(), citations: Vec::new() }
}

} // verus!
