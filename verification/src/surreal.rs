//! The SurrealDB representation of kernel items: the stored row, its
//! conversions, and the SurrealQL statements that the store issues.

use vstd::prelude::*;
use vstd::string::*;
use crate::kernel::{meta_ordered, Content, MemoryId, MemoryItem, MemoryKind, Query, ScopeKey};
use crate::text::{chars_of, decimal, decimal_int, format_i64, format_usize, push_char, same_text};

verus! {

broadcast use vstd::string::group_string_axioms;

/// The row that stores one item.
#[derive(Debug, Clone)]
pub struct StoredItem {
    pub id: String,
    pub tenant_id: String,
    pub workspace_id: Option<String>,
    pub project_id: Option<String>,
    pub agent_id: Option<String>,
    pub run_id: Option<String>,
    pub kind: String,
    pub created_at_ms: i64,
    pub content_text: Option<String>,
    pub content_json: Option<String>,
    pub importance: u32,
    pub confidence: u32,
    pub source: String,
    pub ttl_ms: Option<i64>,
    pub meta: Vec<(String, String)>,
    pub tags: Vec<String>,
    pub embedding: Option<Vec<u32>>,
    pub embedding_model: Option<String>,
}

/// The label under which a kind is stored.
pub open spec fn kind_label(k: MemoryKind) -> Seq<char> {
    match k {
        MemoryKind::Event => "Event"@,
        MemoryKind::Summary => "Summary"@,
        MemoryKind::Fact => "Fact"@,
        MemoryKind::Preference => "Preference"@,
    }
}

/// The kind that a stored label names.
pub open spec fn kind_of_label(s: Seq<char>) -> Option<MemoryKind> {
    if s == "Event"@ {
        Some(MemoryKind::Event)
    } else if s == "Summary"@ {
        Some(MemoryKind::Summary)
    } else if s == "Fact"@ {
        Some(MemoryKind::Fact)
    } else if s == "Preference"@ {
        Some(MemoryKind::Preference)
    } else {
        None
    }
}

/// The label under which a kind is stored.
pub fn kind_to_str(k: MemoryKind) -> (r: &'static str)
    ensures
        r@ == kind_label(k),
{
    match k {
        MemoryKind::Event => "Event",
        MemoryKind::Summary => "Summary",
        MemoryKind::Fact => "Fact",
        MemoryKind::Preference => "Preference",
    }
}

/// The kind that a stored label names.
pub fn str_to_kind(s: &str) -> (r: Option<MemoryKind>)
    ensures
        r == kind_of_label(s@),
{
    if same_text(s, "Event") {
        Some(MemoryKind::Event)
    } else if same_text(s, "Summary") {
        Some(MemoryKind::Summary)
    } else if same_text(s, "Fact") {
        Some(MemoryKind::Fact)
    } else if same_text(s, "Preference") {
        Some(MemoryKind::Preference)
    } else {
        None
    }
}

/// Reading back a stored kind label gives the kind, and no two kinds share
/// a label.
pub proof fn lemma_kind_label_round_trip(k: MemoryKind)
    ensures
        kind_of_label(kind_label(k)) == Some(k),
{
    reveal_strlit("Event");
    reveal_strlit("Summary");
    reveal_strlit("Fact");
    reveal_strlit("Preference");
    assert("Event"@.len() == 5);
    assert("Summary"@.len() == 7);
    assert("Fact"@.len() == 4);
    assert("Preference"@.len() == 10);
}

/// The text and JSON columns that store a content.
pub open spec fn content_parts(c: Content) -> (Option<String>, Option<String>) {
    match c {
        Content::Text(t) => (Some(t), None),
        Content::Json(j) => (None, Some(j)),
        Content::TextJson { text, json } => (Some(text), Some(json)),
    }
}

/// The content that text and JSON columns store, if either is set.
pub open spec fn content_of_parts(text: Option<String>, json: Option<String>) -> Option<Content> {
    match (text, json) {
        (Some(t), None) => Some(Content::Text(t)),
        (None, Some(j)) => Some(Content::Json(j)),
        (Some(t), Some(j)) => Some(Content::TextJson { text: t, json: j }),
        (None, None) => None,
    }
}

/// `s` is the row that stores `item`.
pub open spec fn stores(s: StoredItem, item: MemoryItem) -> bool {
    &&& s.id == item.id.0
    &&& s.tenant_id == item.scope.tenant_id
    &&& s.workspace_id == item.scope.workspace_id
    &&& s.project_id == item.scope.project_id
    &&& s.agent_id == item.scope.agent_id
    &&& s.run_id == item.scope.run_id
    &&& s.kind@ == kind_label(item.kind)
    &&& s.created_at_ms == item.created_at_ms
    &&& (s.content_text, s.content_json) == content_parts(item.content)
    &&& s.importance == item.importance
    &&& s.confidence == item.confidence
    &&& s.source == item.source
    &&& s.ttl_ms == item.ttl_ms
    &&& s.meta == item.meta
    &&& s.tags == item.tags
    &&& s.embedding == item.embedding
    &&& s.embedding_model == item.embedding_model
}

/// The row that stores `item`.
pub fn to_stored(item: MemoryItem) -> (r: StoredItem)
    ensures
        stores(r, item),
        item.wf() ==> meta_ordered(r.meta@),
{
    let kind = kind_to_str(item.kind).to_string();
    let (content_text, content_json) = match item.content {
        Content::Text(t) => (Some(t), None),
        Content::Json(j) => (None, Some(j)),
        Content::TextJson { text, json } => (Some(text), Some(json)),
    };
    StoredItem {
        id: item.id.0,
        tenant_id: item.scope.tenant_id,
        workspace_id: item.scope.workspace_id,
        project_id: item.scope.project_id,
        agent_id: item.scope.agent_id,
        run_id: item.scope.run_id,
        kind,
        created_at_ms: item.created_at_ms,
        content_text,
        content_json,
        importance: item.importance,
        confidence: item.confidence,
        source: item.source,
        ttl_ms: item.ttl_ms,
        meta: item.meta,
        tags: item.tags,
        embedding: item.embedding,
        embedding_model: item.embedding_model,
    }
}

/// The item that a row stores, when the row holds some content: a label
/// that names no kind reads as an event.
pub open spec fn item_of_stored(s: StoredItem) -> Option<MemoryItem> {
    match content_of_parts(s.content_text, s.content_json) {
        Some(content) => Some(
            MemoryItem {
                id: MemoryId(s.id),
                scope: ScopeKey {
                    tenant_id: s.tenant_id,
                    workspace_id: s.workspace_id,
                    project_id: s.project_id,
                    agent_id: s.agent_id,
                    run_id: s.run_id,
                },
                kind: match kind_of_label(s.kind@) {
                    Some(k) => k,
                    None => MemoryKind::Event,
                },
                created_at_ms: s.created_at_ms,
                content,
                tags: s.tags,
                importance: s.importance,
                confidence: s.confidence,
                source: s.source,
                ttl_ms: s.ttl_ms,
                meta: s.meta,
                embedding: s.embedding,
                embedding_model: s.embedding_model,
            },
        ),
        None => None,
    }
}

/// The item that a row stores; a row with neither text nor JSON reads as
/// empty text, and a label that names no kind as an event.
pub fn from_stored(s: StoredItem) -> (r: MemoryItem)
    ensures
        item_of_stored(s) matches Some(i) ==> r == i,
        item_of_stored(s) is None ==> (r.content matches Content::Text(t) && t@.len() == 0),
        meta_ordered(s.meta@) ==> r.wf(),
        item_of_stored(s) is None ==> r.id == MemoryId(s.id) && r.kind == (match kind_of_label(s.kind@) {
            Some(k) => k,
            None => MemoryKind::Event,
        }) && r.scope == (ScopeKey {
            tenant_id: s.tenant_id,
            workspace_id: s.workspace_id,
            project_id: s.project_id,
            agent_id: s.agent_id,
            run_id: s.run_id,
        }) && r.created_at_ms == s.created_at_ms && r.tags == s.tags && r.importance == s.importance
            && r.confidence == s.confidence && r.source == s.source && r.ttl_ms == s.ttl_ms && r.meta
            == s.meta && r.embedding == s.embedding && r.embedding_model == s.embedding_model,
{
    let kind = match str_to_kind(s.kind.as_str()) {
        Some(k) => k,
        None => MemoryKind::Event,
    };
    let content = match (s.content_text, s.content_json) {
        (Some(text), None) => Content::Text(text),
        (None, Some(json)) => Content::Json(json),
        (Some(text), Some(json)) => Content::TextJson { text, json },
        (None, None) => Content::Text(String::new()),
    };
    MemoryItem {
        id: MemoryId(s.id),
        scope: ScopeKey {
            tenant_id: s.tenant_id,
            workspace_id: s.workspace_id,
            project_id: s.project_id,
            agent_id: s.agent_id,
            run_id: s.run_id,
        },
        kind,
        created_at_ms: s.created_at_ms,
        content,
        tags: s.tags,
        importance: s.importance,
        confidence: s.confidence,
        source: s.source,
        ttl_ms: s.ttl_ms,
        meta: s.meta,
        embedding: s.embedding,
        embedding_model: s.embedding_model,
    }
}

/// Reading back the row that stores an item gives the item.
pub proof fn lemma_storage_round_trip(s: StoredItem, item: MemoryItem)
    requires
        stores(s, item),
    ensures
        item_of_stored(s) == Some(item),
{
    lemma_kind_label_round_trip(item.kind);
    assert(content_of_parts(s.content_text, s.content_json) == Some(item.content));
}

/// A character as it stands inside a SurrealQL literal that `close` ends:
/// `close` or a backslash is preceded by a backslash.
pub open spec fn escape_char(c: char, close: char) -> Seq<char> {
    if c == close || c == '\\' {
        seq!['\\', c]
    } else {
        seq![c]
    }
}

/// A text as it stands inside a SurrealQL literal that `close` ends.
pub open spec fn escape_in(s: Seq<char>, close: char) -> Seq<char>
    decreases s.len(),
{
    if s.len() == 0 {
        Seq::<char>::empty()
    } else {
        escape_char(s[0], close) + escape_in(s.drop_first(), close)
    }
}

/// What the inside of a SurrealQL literal that `close` ends reads as, for
/// the two escapes this library writes: a backslash followed by `close` or by
/// a backslash reads as that character. A bare `close` would end the literal,
/// and other escapes are not modelled here, so an inside with either reads as
/// nothing.
pub open spec fn unescape_in(e: Seq<char>, close: char) -> Option<Seq<char>>
    decreases e.len(),
{
    if e.len() == 0 {
        Some(Seq::<char>::empty())
    } else if e[0] == close {
        None
    } else if e[0] == '\\' {
        if e.len() < 2 || !(e[1] == close || e[1] == '\\') {
            None
        } else {
            match unescape_in(e.subrange(2, e.len() as int), close) {
                Some(t) => Some(seq![e[1]] + t),
                None => None,
            }
        }
    } else {
        match unescape_in(e.drop_first(), close) {
            Some(t) => Some(seq![e[0]] + t),
            None => None,
        }
    }
}

/// A text as it stands inside a quoted SurrealQL string.
pub open spec fn escape(s: Seq<char>) -> Seq<char> {
    escape_in(s, '\'')
}

/// What the inside of a quoted SurrealQL string reads as.
pub open spec fn unescape(e: Seq<char>) -> Option<Seq<char>> {
    unescape_in(e, '\'')
}

/// A text as a quoted SurrealQL string.
pub open spec fn quoted(s: Seq<char>) -> Seq<char> {
    "'"@ + escape(s) + "'"@
}

/// An id as it stands inside the brackets `⟨` `⟩` of a SurrealQL record id.
pub open spec fn escape_id(s: Seq<char>) -> Seq<char> {
    escape_in(s, '⟩')
}

/// What the inside of the brackets of a SurrealQL record id reads as.
pub open spec fn unescape_id(e: Seq<char>) -> Option<Seq<char>> {
    unescape_in(e, '⟩')
}

/// The record of the item with the id `id` in the items table, the id
/// written between brackets.
pub open spec fn record(id: Seq<char>) -> Seq<char> {
    "memory_items:⟨"@ + escape_id(id) + "⟩"@
}

/// Escaping a concatenation concatenates the escapes.
proof fn lemma_escape_concat(a: Seq<char>, b: Seq<char>, close: char)
    ensures
        escape_in(a + b, close) == escape_in(a, close) + escape_in(b, close),
    decreases a.len(),
{
    if a.len() == 0 {
        assert(a + b =~= b);
        assert(escape_in(a, close) + escape_in(b, close) =~= escape_in(b, close));
    } else {
        lemma_escape_concat(a.drop_first(), b, close);
        assert((a + b).drop_first() =~= a.drop_first() + b);
        assert((a + b)[0] == a[0]);
        assert(escape_in(a + b, close) =~= escape_in(a, close) + escape_in(b, close));
    }
}

/// An escaped text reads back as exactly the text: no character of it can
/// end the literal early.
proof fn lemma_unescape_escape_in(s: Seq<char>, close: char)
    requires
        close != '\\',
    ensures
        unescape_in(escape_in(s, close), close) == Some(s),
    decreases s.len(),
{
    if s.len() > 0 {
        let c = s[0];
        let rest = escape_in(s.drop_first(), close);
        lemma_unescape_escape_in(s.drop_first(), close);
        let e = escape_in(s, close);
        assert(e == escape_char(c, close) + rest);
        if c == close || c == '\\' {
            assert(e[0] == '\\');
            assert(e[1] == c);
            assert(e.subrange(2, e.len() as int) =~= rest);
        } else {
            assert(e[0] == c);
            assert(e.drop_first() =~= rest);
        }
        assert(seq![c] + s.drop_first() =~= s);
    }
}

/// A quoted string reads back as exactly the text that was quoted: no
/// character of the text can end the string early.
pub proof fn lemma_unescape_escape(s: Seq<char>)
    ensures
        unescape(escape(s)) == Some(s),
{
    lemma_unescape_escape_in(s, '\'');
}

/// A bracketed record id reads back as exactly the id: no character of the
/// id can end the brackets early.
pub proof fn lemma_unescape_escape_id(s: Seq<char>)
    ensures
        unescape_id(escape_id(s)) == Some(s),
{
    lemma_unescape_escape_in(s, '⟩');
}

/// Appends `s` as it stands inside a SurrealQL literal that `close` ends.
fn append_escaped(r: &mut String, s: &str, close: char)
    ensures
        final(r)@ == old(r)@ + escape_in(s@, close),
{
    let cs = chars_of(s);
    let ghost start = r@;
    let mut i: usize = 0;
    assert(cs@.take(0) =~= Seq::<char>::empty());
    assert(start + escape_in(Seq::<char>::empty(), close) =~= start);
    while i < cs.len()
        invariant
            i <= cs.len(),
            cs@ == s@,
            r@ == start + escape_in(cs@.take(i as int), close),
        decreases cs.len() - i,
    {
        let c = cs[i];
        proof {
            lemma_escape_concat(cs@.take(i as int), seq![c], close);
            assert(cs@.take(i + 1) =~= cs@.take(i as int) + seq![c]);
            assert(seq![c].drop_first() =~= Seq::<char>::empty());
            assert(seq![c][0] == c);
            assert(escape_in(Seq::<char>::empty(), close) == Seq::<char>::empty());
            assert(escape_in(seq![c], close) == escape_char(c, close) + escape_in(Seq::<char>::empty(), close));
            assert(escape_in(seq![c], close) =~= escape_char(c, close));
        }
        if c == close || c == '\\' {
            push_char(r, '\\');
        }
        push_char(r, c);
        assert(r@ =~= start + escape_in(cs@.take(i + 1), close));
        i = i + 1;
    }
    assert(cs@.take(cs.len() as int) =~= cs@);
}

/// Appends the record of `id`.
fn append_record(r: &mut String, id: &str)
    ensures
        final(r)@ == old(r)@ + record(id@),
{
    r.append("memory_items:⟨");
    append_escaped(r, id, '⟩');
    r.append("⟩");
    assert(r@ =~= old(r)@ + record(id@));
}

/// Appends `s` quoted.
fn append_quoted(r: &mut String, s: &str)
    ensures
        final(r)@ == old(r)@ + quoted(s@),
{
    r.append("'");
    append_escaped(r, s, '\'');
    r.append("'");
    assert(r@ =~= old(r)@ + quoted(s@));
}

/// The statement that upserts the row `stored_json` under `id`.
pub fn upsert_statement(id: &str, stored_json: &str) -> (r: String)
    ensures
        r@ == "UPSERT "@ + record(id@) + " MERGE "@ + stored_json@,
{
    let mut r = "UPSERT ".to_string();
    append_record(&mut r, id);
    r.append(" MERGE ");
    r.append(stored_json);
    r
}

/// The statement that selects the row of `id`.
pub fn select_statement(id: &str) -> (r: String)
    ensures
        r@ == "SELECT * FROM "@ + record(id@),
{
    let mut r = "SELECT * FROM ".to_string();
    append_record(&mut r, id);
    r
}

/// The statement that deletes the row of `id`.
pub fn delete_statement(id: &str) -> (r: String)
    ensures
        r@ == "DELETE "@ + record(id@),
{
    let mut r = "DELETE ".to_string();
    append_record(&mut r, id);
    r
}

/// The statement that selects the row of `id` within a tenant.
pub fn select_scoped_statement(id: &str, tenant_id: &str) -> (r: String)
    ensures
        r@ == "SELECT * FROM "@ + record(id@) + " WHERE tenant_id = "@ + quoted(tenant_id@),
{
    let mut r = "SELECT * FROM ".to_string();
    append_record(&mut r, id);
    r.append(" WHERE tenant_id = ");
    append_quoted(&mut r, tenant_id);
    r
}

/// The statement that deletes the row of `id` within a tenant.
pub fn delete_scoped_statement(id: &str, tenant_id: &str) -> (r: String)
    ensures
        r@ == "DELETE "@ + record(id@) + " WHERE tenant_id = "@ + quoted(tenant_id@),
{
    let mut r = "DELETE ".to_string();
    append_record(&mut r, id);
    r.append(" WHERE tenant_id = ");
    append_quoted(&mut r, tenant_id);
    r
}

/// A scoped read or delete is confined to its tenant: the record's id and the
/// tenant are each written so that they read back as exactly themselves, so
/// no id or tenant can end its literal early and change the statement, and
/// the tenant filter always follows the record.
pub proof fn lemma_scoped_statements_tenant_scoped(id: Seq<char>, tenant_id: Seq<char>)
    ensures
        unescape_id(escape_id(id)) == Some(id),
        unescape(escape(tenant_id)) == Some(tenant_id),
        ("SELECT * FROM "@ + record(id) + " WHERE tenant_id = "@ + quoted(tenant_id)) == "SELECT * FROM memory_items:⟨"@
            + escape_id(id) + "⟩ WHERE tenant_id = '"@ + escape(tenant_id) + "'"@,
        ("DELETE "@ + record(id) + " WHERE tenant_id = "@ + quoted(tenant_id)) == "DELETE memory_items:⟨"@
            + escape_id(id) + "⟩ WHERE tenant_id = '"@ + escape(tenant_id) + "'"@,
{
    lemma_unescape_escape_id(id);
    lemma_unescape_escape(tenant_id);
    reveal_strlit("SELECT * FROM ");
    reveal_strlit("memory_items:⟨");
    reveal_strlit("⟩");
    reveal_strlit(" WHERE tenant_id = ");
    reveal_strlit("'");
    reveal_strlit("SELECT * FROM memory_items:⟨");
    reveal_strlit("⟩ WHERE tenant_id = '");
    reveal_strlit("DELETE ");
    reveal_strlit("DELETE memory_items:⟨");
    assert(("SELECT * FROM "@ + record(id) + " WHERE tenant_id = "@ + quoted(tenant_id)) =~= "SELECT * FROM memory_items:⟨"@
        + escape_id(id) + "⟩ WHERE tenant_id = '"@ + escape(tenant_id) + "'"@);
    assert(("DELETE "@ + record(id) + " WHERE tenant_id = "@ + quoted(tenant_id)) =~= "DELETE memory_items:⟨"@
        + escape_id(id) + "⟩ WHERE tenant_id = '"@ + escape(tenant_id) + "'"@);
}

/// A scope refinement: `label` followed by the value quoted, when the value
/// is given.
pub open spec fn scope_clause(label: Seq<char>, v: Option<String>) -> Seq<char> {
    match v {
        Some(x) => label + quoted(x@),
        None => Seq::<char>::empty(),
    }
}

/// The quoted stored labels of `ks`, separated by `, `.
pub open spec fn kind_list(ks: Seq<MemoryKind>) -> Seq<char>
    decreases ks.len(),
{
    if ks.len() == 0 {
        Seq::<char>::empty()
    } else if ks.len() == 1 {
        "'"@ + kind_label(ks[0]) + "'"@
    } else {
        kind_list(ks.drop_last()) + ", "@ + "'"@ + kind_label(ks.last()) + "'"@
    }
}

/// The texts of `parts` in order, with `sep` between each two.
pub open spec fn joined(parts: Seq<Seq<char>>, sep: Seq<char>) -> Seq<char>
    decreases parts.len(),
{
    if parts.len() == 0 {
        Seq::<char>::empty()
    } else if parts.len() == 1 {
        parts[0]
    } else {
        parts[0] + sep + joined(parts.drop_first(), sep)
    }
}

/// The stored label of a kind, quoted.
pub open spec fn quoted_label(k: MemoryKind) -> Seq<char> {
    "'"@ + kind_label(k) + "'"@
}

/// Joining one more text adds the separator and the text at the end.
proof fn lemma_joined_push(parts: Seq<Seq<char>>, sep: Seq<char>, x: Seq<char>)
    requires
        parts.len() > 0,
    ensures
        joined(parts.push(x), sep) == joined(parts, sep) + sep + x,
    decreases parts.len(),
{
    let p = parts.push(x);
    assert(p[0] == parts[0]);
    if parts.len() == 1 {
        assert(p.drop_first() =~= seq![x]);
        assert(joined(seq![x], sep) == x);
        assert(joined(p, sep) =~= joined(parts, sep) + sep + x);
    } else {
        lemma_joined_push(parts.drop_first(), sep, x);
        assert(p.drop_first() =~= parts.drop_first().push(x));
        assert(joined(p, sep) =~= joined(parts, sep) + sep + x);
    }
}

/// The kinds filter lists, in order, the quoted stored label of every
/// requested kind, separated by `, `: the `k`-th entry of the list is the
/// label of the `k`-th requested kind.
pub proof fn lemma_kind_list_labels_in_order(ks: Seq<MemoryKind>)
    ensures
        kind_list(ks) == joined(ks.map_values(|k: MemoryKind| quoted_label(k)), ", "@),
        kinds_clause_of(ks) == " AND kind IN ["@ + joined(ks.map_values(|k: MemoryKind| quoted_label(k)), ", "@)
            + "]"@,
    decreases ks.len(),
{
    let m = ks.map_values(|k: MemoryKind| quoted_label(k));
    if ks.len() == 1 {
        assert(m.len() == 1);
        assert(joined(m, ", "@) == m[0]);
    } else if ks.len() > 1 {
        let front = ks.drop_last();
        lemma_kind_list_labels_in_order(front);
        let mf = front.map_values(|k: MemoryKind| quoted_label(k));
        assert(m =~= mf.push(quoted_label(ks.last())));
        lemma_joined_push(mf, ", "@, quoted_label(ks.last()));
        assert(kind_list(ks) =~= joined(m, ", "@));
    }
}

/// The kinds refinement for the kinds `ks`.
pub open spec fn kinds_clause_of(ks: Seq<MemoryKind>) -> Seq<char> {
    " AND kind IN ["@ + kind_list(ks) + "]"@
}

/// The kinds refinement: the quoted labels of the given kinds.
pub open spec fn kinds_clause(kinds: Option<Vec<MemoryKind>>) -> Seq<char> {
    match kinds {
        Some(ks) => kinds_clause_of(ks@),
        None => Seq::<char>::empty(),
    }
}

/// A time refinement: `label` followed by the bound, when it is given.
pub open spec fn time_clause(label: Seq<char>, t: Option<i64>) -> Seq<char> {
    match t {
        Some(t) => label + decimal_int(t as int),
        None => Seq::<char>::empty(),
    }
}

/// The text refinement: a text or tag match, for non-empty text.
pub open spec fn text_clause(text: Seq<char>) -> Seq<char> {
    if text.len() > 0 {
        " AND (content_text CONTAINS "@ + quoted(text) + " OR tags CONTAINS ["@ + quoted(text) + "])"@
    } else {
        Seq::<char>::empty()
    }
}

/// The refinements of a query after its tenant: the given workspace,
/// project, agent and run, the kinds, the time bounds and, for
/// non-empty text, a text or tag match.
pub open spec fn refinements(q: Query) -> Seq<char> {
    scope_clause(" AND workspace_id = "@, q.scope.workspace_id) + scope_clause(
        " AND project_id = "@,
        q.scope.project_id,
    ) + scope_clause(" AND agent_id = "@, q.scope.agent_id) + scope_clause(
        " AND run_id = "@,
        q.scope.run_id,
    ) + kinds_clause(q.kinds) + time_clause(
        " AND created_at_ms >= "@,
        q.since_ms,
    ) + time_clause(" AND created_at_ms <= "@, q.until_ms) + text_clause(q.text@)
}

/// The SurrealQL query that selects a query's candidates: the tenant, then
/// the refinements; by importance, then recency, at most `limit` rows. Every
/// text from the query stands in it quoted.
pub open spec fn query_statement(q: Query) -> Seq<char> {
    tenant_filter(q.scope.tenant_id@) + refinements(q) + " ORDER BY importance DESC, created_at_ms DESC LIMIT "@
        + decimal(q.limit as nat)
}

/// The filter that opens every candidate query: the rows of one tenant.
pub open spec fn tenant_filter(tenant_id: Seq<char>) -> Seq<char> {
    "SELECT * FROM memory_items WHERE tenant_id = "@ + quoted(tenant_id)
}

/// Every candidate query is confined to its tenant: the statement opens with
/// the filter on the query's tenant, every other refinement follows it, and
/// the quoted tenant reads back as exactly the query's tenant.
pub proof fn lemma_query_statement_tenant_scoped(q: Query)
    ensures
        query_statement(q).len() >= tenant_filter(q.scope.tenant_id@).len(),
        query_statement(q).take(tenant_filter(q.scope.tenant_id@).len() as int) == tenant_filter(
            q.scope.tenant_id@,
        ),
        unescape(escape(q.scope.tenant_id@)) == Some(q.scope.tenant_id@),
{
    let f = tenant_filter(q.scope.tenant_id@);
    let rest = refinements(q) + " ORDER BY importance DESC, created_at_ms DESC LIMIT "@ + decimal(
        q.limit as nat,
    );
    assert(query_statement(q) =~= f + rest);
    assert((f + rest).take(f.len() as int) =~= f);
    lemma_unescape_escape(q.scope.tenant_id@);
}

/// Appends a scope refinement.
fn append_scope_clause(r: &mut String, label: &str, v: &Option<String>)
    ensures
        final(r)@ == old(r)@ + scope_clause(label@, *v),
{
    match v {
        Some(x) => {
            r.append(label);
            append_quoted(r, x.as_str());
            assert(r@ =~= old(r)@ + scope_clause(label@, *v));
        },
        None => {
            assert(old(r)@ + Seq::<char>::empty() =~= old(r)@);
        },
    }
}

/// Appends the kinds refinement.
fn append_kinds_clause(r: &mut String, kinds: &Option<Vec<MemoryKind>>)
    ensures
        final(r)@ == old(r)@ + kinds_clause(*kinds),
{
    match kinds {
        Some(ks) => {
            r.append(" AND kind IN [");
            let mut i: usize = 0;
            let ghost start = r@;
            assert(kind_list(ks@.take(0)) =~= Seq::<char>::empty());
            assert(start + Seq::<char>::empty() =~= start);
            while i < ks.len()
                invariant
                    i <= ks.len(),
                    r@ == start + kind_list(ks@.take(i as int)),
                decreases ks.len() - i,
            {
                assert(ks@.take(i + 1).drop_last() =~= ks@.take(i as int));
                assert(ks@.take(i + 1).last() == ks@[i as int]);
                if i > 0 {
                    r.append(", ");
                }
                r.append("'");
                r.append(kind_to_str(ks[i]));
                r.append("'");
                proof {
                    if i == 0 {
                        assert(ks@.take(1)[0] == ks@[0]);
                    }
                }
                assert(r@ =~= start + kind_list(ks@.take(i + 1)));
                i = i + 1;
            }
            assert(ks@.take(ks.len() as int) =~= ks@);
            r.append("]");
            assert(r@ =~= old(r)@ + kinds_clause(*kinds));
        },
        None => {
            assert(old(r)@ + Seq::<char>::empty() =~= old(r)@);
        },
    }
}

/// Appends a time refinement.
fn append_time_clause(r: &mut String, label: &str, t: Option<i64>)
    ensures
        final(r)@ == old(r)@ + time_clause(label@, t),
{
    match t {
        Some(t) => {
            r.append(label);
            let d = format_i64(t);
            r.append(d.as_str());
        },
        None => {
            assert(old(r)@ + Seq::<char>::empty() =~= old(r)@);
        },
    }
}

/// Appends the text refinement.
fn append_text_clause(r: &mut String, text: &String)
    ensures
        final(r)@ == old(r)@ + text_clause(text@),
{
    if !text.as_str().is_empty() {
        r.append(" AND (content_text CONTAINS ");
        append_quoted(r, text.as_str());
        r.append(" OR tags CONTAINS [");
        append_quoted(r, text.as_str());
        r.append("])");
        assert(r@ =~= old(r)@ + text_clause(text@));
    } else {
        assert(old(r)@ + Seq::<char>::empty() =~= old(r)@);
    }
}

/// The SurrealQL query that selects a query's candidates.
pub fn query_statement_of(q: &Query) -> (r: String)
    ensures
        r@ == query_statement(*q),
{
    let mut r = "SELECT * FROM memory_items WHERE tenant_id = ".to_string();
    append_quoted(&mut r, q.scope.tenant_id.as_str());
    append_scope_clause(&mut r, " AND workspace_id = ", &q.scope.workspace_id);
    append_scope_clause(&mut r, " AND project_id = ", &q.scope.project_id);
    append_scope_clause(&mut r, " AND agent_id = ", &q.scope.agent_id);
    append_scope_clause(&mut r, " AND run_id = ", &q.scope.run_id);
    append_kinds_clause(&mut r, &q.kinds);
    append_time_clause(&mut r, " AND created_at_ms >= ", q.since_ms);
    append_time_clause(&mut r, " AND created_at_ms <= ", q.until_ms);
    append_text_clause(&mut r, &q.text);
    r.append(" ORDER BY importance DESC, created_at_ms DESC LIMIT ");
    let d = format_usize(q.limit);
    r.append(d.as_str());
    assert(r@ =~= query_statement(*q));
    r
}

} // verus!
