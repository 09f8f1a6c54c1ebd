//! Request handling rules of the HTTP service: query-parameter parsing, scope
//! extraction and error responses.

use vstd::prelude::*;
use crate::kernel::{is_uuid_text, new_uuid_text, MemoryId, MemoryItem, MemoryKind, Query, ScopeKey};
use crate::text::{
    chars_of, decimal, decimal_int, format_usize, lemma_format_then_parse, lemma_format_then_parse_i64,
    lemma_keep_nonempty_filters, lemma_split_nonempty, keep_nonempty, lemma_keep_nonempty_members, lemma_split_join,
    lemma_trim_ends, lemma_trim_idempotent, lowercase, opt_view, parse_i64, parse_usize,
    parsed_i64, parsed_usize, pieces, same_text, split, split_ranges, string_of,
    to_lowercase_string, trim, trim_range, views,
};

verus! {

broadcast use vstd::string::group_string_axioms;

/// Errors that the service's handlers answer with.
#[derive(Debug)]
pub enum ApiError {
    NotFound,
    BadRequest(String),
    Internal(String),
}

/// The kind that a lower-case name stands for.
pub open spec fn kind_named(name: Seq<char>) -> Option<MemoryKind> {
    if name == "event"@ {
        Some(MemoryKind::Event)
    } else if name == "summary"@ {
        Some(MemoryKind::Summary)
    } else if name == "fact"@ {
        Some(MemoryKind::Fact)
    } else if name == "preference"@ {
        Some(MemoryKind::Preference)
    } else {
        None
    }
}

/// The kind that a lower-case name stands for: `event`, `summary`, `fact` or
/// `preference`.
pub fn kind_from_name(name: &str) -> (r: Option<MemoryKind>)
    ensures
        r == kind_named(name@),
{
    if same_text(name, "event") {
        Some(MemoryKind::Event)
    } else if same_text(name, "summary") {
        Some(MemoryKind::Summary)
    } else if same_text(name, "fact") {
        Some(MemoryKind::Fact)
    } else if same_text(name, "preference") {
        Some(MemoryKind::Preference)
    } else {
        None
    }
}

/// The names in a comma-separated kinds filter: each piece trimmed and in
/// lower case.
pub open spec fn kind_names(s: Seq<char>) -> Seq<Seq<char>> {
    split(s, ',').map_values(|p: Seq<char>| lowercase(trim(p)))
}

/// The kinds of a comma-separated kinds filter, or `None` when a name is not
/// a kind (or there is none).
pub open spec fn parsed_kinds(s: Seq<char>) -> Option<Seq<MemoryKind>> {
    kinds_of_names(kind_names(s))
}

/// The kinds that lower-case names stand for, or `None` when a name is not
/// a kind (or there is none).
pub open spec fn kinds_of_names(names: Seq<Seq<char>>) -> Option<Seq<MemoryKind>> {
    if names.len() > 0 && forall|i: int| 0 <= i < names.len() ==> (#[trigger] kind_named(names[i])) is Some {
        Some(names.map_values(|n: Seq<char>| kind_named(n)->0))
    } else {
        None
    }
}

/// The contents of an optional vector.
pub open spec fn opt_seq<T>(o: Option<Vec<T>>) -> Option<Seq<T>> {
    match o {
        Some(v) => Some(v@),
        None => None,
    }
}

/// The kinds that already lower-cased names stand for.
pub fn kinds_from_names(names: &Vec<String>) -> (r: Option<Vec<MemoryKind>>)
    ensures
        opt_seq(r) == kinds_of_names(views(names@)),
{
    let ghost ns = views(names@);
    let mut out: Vec<MemoryKind> = Vec::new();
    let mut i: usize = 0;
    while i < names.len()
        invariant
            ns == views(names@),
            i <= names.len(),
            out@.len() == i,
            forall|k: int| 0 <= k < i ==> kind_named(#[trigger] ns[k]) == Some(out@[k]),
        decreases names.len() - i,
    {
        assert(ns[i as int] == names@[i as int]@);
        match kind_from_name(names[i].as_str()) {
            None => {
                return None;
            },
            Some(k) => {
                out.push(k);
            },
        }
        i = i + 1;
    }
    if out.len() == 0 {
        return None;
    }
    assert(out@ =~= ns.map_values(|n: Seq<char>| kind_named(n)->0));
    Some(out)
}

/// Parses a comma-separated kinds filter such as `event, Summary,FACT`.
pub fn parse_kinds(kinds_str: &str) -> (r: Option<Vec<MemoryKind>>)
    ensures
        opt_seq(r) == parsed_kinds(kinds_str@),
{
    let cs = chars_of(kinds_str);
    let ranges = split_ranges(&cs, ',');
    let ghost names = kind_names(kinds_str@);
    let mut lowered: Vec<String> = Vec::new();
    let mut i: usize = 0;
    while i < ranges.len()
        invariant
            cs@ == kinds_str@,
            names == kind_names(kinds_str@),
            pieces(cs@, ranges@) == split(cs@, ','),
            forall|k: int| 0 <= k < ranges.len() ==> (#[trigger] ranges@[k]).0 <= ranges@[k].1 && ranges@[k].1 <= cs.len(),
            i <= ranges.len(),
            views(lowered@) =~= names.take(i as int),
        decreases ranges.len() - i,
    {
        let (lo, hi) = ranges[i];
        let t = trim_range(&cs, lo, hi);
        let ts = string_of(&t);
        let low = to_lowercase_string(ts.as_str());
        assert(pieces(cs@, ranges@)[i as int] == cs@.subrange(lo as int, hi as int));
        assert(low@ == names[i as int]);
        let ghost before = lowered@;
        lowered.push(low);
        assert(views(lowered@) =~= views(before).push(names[i as int]));
        assert(names.take(i + 1) =~= names.take(i as int).push(names[i as int]));
        i = i + 1;
    }
    assert(names.take(ranges.len() as int) =~= names);
    kinds_from_names(&lowered)
}

/// The trimmed pieces of a comma-separated tags filter.
pub open spec fn trimmed_pieces(s: Seq<char>) -> Seq<Seq<char>> {
    split(s, ',').map_values(|p: Seq<char>| trim(p))
}

/// The non-empty tags of a comma-separated tags filter, or `None` when there
/// is none.
pub open spec fn parsed_tags(s: Seq<char>) -> Option<Seq<Seq<char>>> {
    let tags = trimmed_pieces(s);
    if tags.len() == 0 || forall|i: int| 0 <= i < tags.len() ==> (#[trigger] tags[i]).len() == 0 {
        None
    } else {
        Some(keep_nonempty(tags))
    }
}

/// A parsed tags filter holds at least one tag, and every tag is non-empty,
/// trimmed and free of commas.
pub proof fn lemma_parsed_tags_clean(s: Seq<char>)
    ensures
        parsed_tags(s) matches Some(ts) ==> ts.len() > 0 && forall|i: int|
            0 <= i < ts.len() ==> (#[trigger] ts[i]).len() > 0 && trim(ts[i]) == ts[i] && !ts[i].contains(','),
{
    let tags = trimmed_pieces(s);
    let pieces = split(s, ',');
    if let Some(ts) = parsed_tags(s) {
        lemma_keep_nonempty_members(tags);
        lemma_split_join(s, ',');
        let j0 = choose|j: int| 0 <= j < tags.len() && (#[trigger] tags[j]).len() > 0;
        assert forall|i: int| 0 <= i < ts.len() implies (#[trigger] ts[i]).len() > 0 && trim(ts[i]) == ts[i]
            && !ts[i].contains(',') by {
            let j = choose|j: int| 0 <= j < tags.len() && tags[j] == ts[i];
            assert(tags[j] == trim(pieces[j]));
            lemma_trim_idempotent(pieces[j]);
            lemma_trim_ends(pieces[j]);
            if ts[i].contains(',') {
                let x = choose|x: int| 0 <= x < ts[i].len() && ts[i][x] == ',';
                let y = choose|y: int| 0 <= y < pieces[j].len() && pieces[j][y] == trim(pieces[j])[x];
                assert(pieces[j][y] != ',');
            }
        }
    }
}

/// Limits of listings and searches never exceed 100.
pub proof fn lemma_limits_bounded(p: Option<Seq<char>>, l: Option<usize>)
    ensures
        list_limit(p) <= max_limit(),
        search_limit_of(l) <= max_limit(),
{
}

/// A semantic search returns as many results as asked, at most 100, and 10
/// when no number is asked.
pub proof fn lemma_search_limit_is_min(l: usize)
    ensures
        l <= 100 ==> search_limit_of(Some(l)) == l,
        l > 100 ==> search_limit_of(Some(l)) == 100,
        search_limit_of(None) == 10,
{
}

/// A listing keeps a numeric limit up to 100 and cuts it to 100 above; a
/// limit that is no number, or none, gives 10.
pub proof fn lemma_list_limit_keeps_number(s: Seq<char>)
    ensures
        parsed_usize(s) matches Some(l) ==> list_limit(Some(s)) == (if l <= 100 {
            l
        } else {
            100
        }),
        parsed_usize(s) is None ==> list_limit(Some(s)) == 10,
        list_limit(None) == 10,
{
}

/// A limit written in decimal is read back as that number, up to 100.
pub proof fn lemma_list_limit_of_decimal(l: usize)
    ensures
        list_limit(Some(decimal(l as nat))) == (if l <= 100 {
            l
        } else {
            100
        }),
{
    lemma_format_then_parse(l);
}

/// The four kind names each stand for their own kind, and no other name
/// stands for a kind.
pub proof fn lemma_kind_names_distinct(name: Seq<char>)
    ensures
        kind_named("event"@) == Some(MemoryKind::Event),
        kind_named("summary"@) == Some(MemoryKind::Summary),
        kind_named("fact"@) == Some(MemoryKind::Fact),
        kind_named("preference"@) == Some(MemoryKind::Preference),
        kind_named(name) is Some ==> name == "event"@ || name == "summary"@ || name == "fact"@ || name
            == "preference"@,
        forall|a: Seq<char>, b: Seq<char>|
            #[trigger] kind_named(a) is Some && kind_named(a) == #[trigger] kind_named(b) ==> a == b,
{
    reveal_strlit("event");
    reveal_strlit("summary");
    reveal_strlit("fact");
    reveal_strlit("preference");
    assert("event"@.len() == 5);
    assert("summary"@.len() == 7);
    assert("fact"@.len() == 4);
    assert("preference"@.len() == 10);
}

/// A kinds filter reads every comma-separated piece, trimmed and lower-cased,
/// as a kind, in order; it is refused when some piece names no kind.
pub proof fn lemma_parsed_kinds_reads_every_piece(s: Seq<char>)
    ensures
        parsed_kinds(s) matches Some(ks) ==> ks.len() == split(s, ',').len() && forall|i: int|
            0 <= i < ks.len() ==> kind_named(lowercase(trim(#[trigger] split(s, ',')[i]))) == Some(ks[i]),
        parsed_kinds(s) is None ==> exists|i: int|
            0 <= i < split(s, ',').len() && kind_named(lowercase(trim(#[trigger] split(s, ',')[i]))) is None,
{
    lemma_split_nonempty(s, ',');
    let names = kind_names(s);
    let pcs = split(s, ',');
    assert(names.len() == pcs.len());
    assert forall|i: int| 0 <= i < pcs.len() implies #[trigger] names[i] == lowercase(trim(pcs[i])) by {}
    if let Some(ks) = parsed_kinds(s) {
        assert forall|i: int| 0 <= i < ks.len() implies kind_named(lowercase(trim(#[trigger] pcs[i]))) == Some(
            ks[i],
        ) by {
            assert(names[i] == lowercase(trim(pcs[i])));
            assert(kind_named(names[i]) is Some);
        }
    } else {
        let i = choose|i: int| 0 <= i < names.len() && !(#[trigger] kind_named(names[i]) is Some);
        assert(names[i] == lowercase(trim(pcs[i])));
    }
}

/// A tags filter is the non-empty trimmed comma-separated pieces, in order;
/// it is absent only when every piece is blank.
pub proof fn lemma_parsed_tags_are_pieces(s: Seq<char>)
    ensures
        parsed_tags(s) matches Some(ts) ==> ts == split(s, ',').map_values(|p: Seq<char>| trim(p)).filter(
            |t: Seq<char>| t.len() > 0,
        ) && ts.len() > 0,
        parsed_tags(s) is None ==> forall|i: int|
            0 <= i < split(s, ',').len() ==> trim(#[trigger] split(s, ',')[i]).len() == 0,
{
    lemma_split_nonempty(s, ',');
    lemma_parsed_tags_clean(s);
    let tags = trimmed_pieces(s);
    assert(tags =~= split(s, ',').map_values(|p: Seq<char>| trim(p)));
    lemma_keep_nonempty_filters(tags);
    if parsed_tags(s) is None {
        assert forall|i: int| 0 <= i < split(s, ',').len() implies trim(#[trigger] split(s, ',')[i]).len()
            == 0 by {
            assert(tags[i] == trim(split(s, ',')[i]));
        }
    }
}

/// A time bound written in decimal is read back as that time; no parameter
/// gives no bound.
pub proof fn lemma_time_bound_of_decimal(t: i64)
    ensures
        time_bound(Some(decimal_int(t as int))) == Some(t),
        time_bound(None) is None,
{
    lemma_format_then_parse_i64(t);
}

/// A listing without a tenant lists the tenant `default`; with one, that
/// tenant.
pub proof fn lemma_listing_tenant_default(t: Seq<char>)
    ensures
        listing_tenant(None) == "default"@,
        listing_tenant(Some(t)) == t,
{
}

/// A missing item answers 404, a bad request 400 with its own message, and an
/// internal error 500 with one fixed message, whatever its detail: the
/// detail never reaches the client.
pub proof fn lemma_error_responses(m1: String, m2: String)
    ensures
        error_response(ApiError::NotFound) == (404u16, "Not found"@),
        error_response(ApiError::BadRequest(m1)) == (400u16, m1@),
        error_response(ApiError::Internal(m1)) == error_response(ApiError::Internal(m2)),
        error_response(ApiError::Internal(m1)).0 == 500,
{
}

/// The views of an optional vector of strings.
pub open spec fn opt_views(o: Option<Vec<String>>) -> Option<Seq<Seq<char>>> {
    match o {
        Some(v) => Some(views(v@)),
        None => None,
    }
}

/// Parses a comma-separated tags filter such as `important, urgent`.
pub fn parse_tags(tags_str: &str) -> (r: Option<Vec<String>>)
    ensures
        opt_views(r) == parsed_tags(tags_str@),
{
    let cs = chars_of(tags_str);
    let ranges = split_ranges(&cs, ',');
    let ghost tags = trimmed_pieces(tags_str@);
    let mut all: Vec<String> = Vec::new();
    let mut i: usize = 0;
    while i < ranges.len()
        invariant
            cs@ == tags_str@,
            tags == trimmed_pieces(tags_str@),
            pieces(cs@, ranges@) == split(cs@, ','),
            forall|k: int| 0 <= k < ranges.len() ==> (#[trigger] ranges@[k]).0 <= ranges@[k].1 && ranges@[k].1 <= cs.len(),
            i <= ranges.len(),
            views(all@) =~= tags.take(i as int),
        decreases ranges.len() - i,
    {
        let (lo, hi) = ranges[i];
        let t = trim_range(&cs, lo, hi);
        let ts = string_of(&t);
        assert(pieces(cs@, ranges@)[i as int] == cs@.subrange(lo as int, hi as int));
        assert(ts@ == tags[i as int]);
        let ghost before = all@;
        all.push(ts);
        assert(views(all@) =~= views(before).push(tags[i as int]));
        assert(tags.take(i + 1) =~= tags.take(i as int).push(tags[i as int]));
        i = i + 1;
    }
    assert(views(all@) =~= tags);
    let mut any_nonempty = false;
    let mut j: usize = 0;
    while j < all.len()
        invariant
            views(all@) == tags,
            j <= all.len(),
            any_nonempty == exists|k: int| 0 <= k < j && (#[trigger] tags[k]).len() > 0,
        decreases all.len() - j,
    {
        if !all[j].as_str().is_empty() {
            assert(tags[j as int].len() > 0);
            any_nonempty = true;
        }
        j = j + 1;
    }
    if all.len() == 0 || !any_nonempty {
        return None;
    }
    let mut kept: Vec<String> = Vec::new();
    let mut m: usize = 0;
    let ghost tagsv = tags;
    assert(tags.take(0) =~= Seq::<Seq<char>>::empty());
    while m < all.len()
        invariant
            views(all@) == tagsv,
            m <= all.len(),
            views(kept@) == keep_nonempty(tagsv.take(m as int)),
        decreases all.len() - m,
    {
        assert(tagsv.take(m + 1).drop_last() =~= tagsv.take(m as int));
        if !all[m].as_str().is_empty() {
            let t = all[m].clone();
            kept.push(t);
            assert(views(kept@) =~= keep_nonempty(tagsv.take(m as int)).push(tagsv[m as int]));
        }
        m = m + 1;
    }
    assert(tagsv.take(all.len() as int) =~= tagsv);
    Some(kept)
}


/// The status code and message that answer an error: 404 "Not found", 400
/// with the request's problem, or 500 "Internal server error" (the internal
/// detail is kept from the client).
pub open spec fn error_response(e: ApiError) -> (u16, Seq<char>) {
    match e {
        ApiError::NotFound => (404, "Not found"@),
        ApiError::BadRequest(m) => (400, m@),
        ApiError::Internal(_) => (500, "Internal server error"@),
    }
}

impl ApiError {
    /// The status code and message that answer this error.
    pub fn response_parts(self) -> (r: (u16, String))
        ensures
            (r.0, r.1@) == error_response(self),
    {
        match self {
            ApiError::NotFound => (404, "Not found".to_string()),
            ApiError::BadRequest(m) => (400, m),
            ApiError::Internal(_) => (500, "Internal server error".to_string()),
        }
    }
}

/// The tenant of a request, which is required.
pub fn required_tenant(tenant_id: Option<String>) -> (r: Result<String, ApiError>)
    ensures
        match tenant_id {
            Some(t) => r == Ok::<String, ApiError>(t),
            None => r matches Err(ApiError::BadRequest(m)) && m@ == "tenant_id is required"@,
        },
{
    match tenant_id {
        Some(t) => Ok(t),
        None => Err(ApiError::BadRequest("tenant_id is required".to_string())),
    }
}

/// The scope named by a request's parameters; the tenant is required.
pub fn scope_from_params(
    tenant_id: Option<String>,
    workspace_id: Option<String>,
    project_id: Option<String>,
    agent_id: Option<String>,
    run_id: Option<String>,
) -> (r: Result<ScopeKey, ApiError>)
    ensures
        match tenant_id {
            Some(t) => r == Ok::<ScopeKey, ApiError>(
                ScopeKey { tenant_id: t, workspace_id, project_id, agent_id, run_id },
            ),
            None => r matches Err(ApiError::BadRequest(m)) && m@ == "tenant_id is required"@,
        },
{
    let tenant_id = required_tenant(tenant_id)?;
    Ok(ScopeKey { tenant_id, workspace_id, project_id, agent_id, run_id })
}

/// Largest number of items one listing or search returns.
pub open spec fn max_limit() -> usize {
    100
}

/// Number of items returned when no limit is given.
pub open spec fn default_limit() -> usize {
    10
}

/// The limit of a listing: the parameter when it is a number (at most 100),
/// else 10.
pub open spec fn list_limit(limit: Option<Seq<char>>) -> usize {
    match limit {
        Some(s) => match parsed_usize(s) {
            Some(l) => if l < max_limit() {
                l
            } else {
                max_limit()
            },
            None => default_limit(),
        },
        None => default_limit(),
    }
}

/// The limit of a listing given its optional parameter text.
pub fn limit_from_param(limit: Option<&str>) -> (r: usize)
    ensures
        r == list_limit(match limit {
            Some(s) => Some(s@),
            None => None,
        }),
{
    match limit {
        Some(s) => match parse_usize(s) {
            Some(l) => if l < 100 {
                l
            } else {
                100
            },
            None => 10,
        },
        None => 10,
    }
}

/// A time bound of a listing: the parameter when it is a number.
pub open spec fn time_bound(p: Option<Seq<char>>) -> Option<i64> {
    match p {
        Some(s) => parsed_i64(s),
        None => None,
    }
}

/// The parameters of a listing request, each as its text when present.
pub struct ListParams {
    pub tenant_id: Option<String>,
    pub workspace_id: Option<String>,
    pub project_id: Option<String>,
    pub agent_id: Option<String>,
    pub run_id: Option<String>,
    pub kinds: Option<String>,
    pub tags: Option<String>,
    pub limit: Option<String>,
    pub since_ms: Option<String>,
    pub until_ms: Option<String>,
}

/// The kinds filter of a listing.
pub open spec fn kinds_filter(p: Option<Seq<char>>) -> Option<Seq<MemoryKind>> {
    match p {
        Some(s) => parsed_kinds(s),
        None => None,
    }
}

/// The tags filter of a listing.
pub open spec fn tags_filter(p: Option<Seq<char>>) -> Option<Seq<Seq<char>>> {
    match p {
        Some(s) => parsed_tags(s),
        None => None,
    }
}

/// The tenant of a listing: the one given, else `default`.
pub open spec fn listing_tenant(tenant_id: Option<Seq<char>>) -> Seq<char> {
    match tenant_id {
        Some(t) => t,
        None => "default"@,
    }
}

/// The query that a listing request asks for: the scope of its parameters
/// (the tenant `default` when none is given), no text, the kinds and tags
/// filters when they parse, the limit, and the time bounds when they are
/// numbers.
pub fn list_query(p: ListParams) -> (r: Query)
    ensures
        r.scope.tenant_id@ == listing_tenant(opt_view(p.tenant_id)),
        p.tenant_id is Some ==> r.scope.tenant_id == p.tenant_id->0,
        r.scope.workspace_id == p.workspace_id,
        r.scope.project_id == p.project_id,
        r.scope.agent_id == p.agent_id,
        r.scope.run_id == p.run_id,
        r.text@ == Seq::<char>::empty(),
        opt_seq(r.kinds) == kinds_filter(opt_view(p.kinds)),
        opt_views(r.tags_any) == tags_filter(opt_view(p.tags)),
        r.limit == list_limit(opt_view(p.limit)),
        r.since_ms == time_bound(opt_view(p.since_ms)),
        r.until_ms == time_bound(opt_view(p.until_ms)),
{
    let tenant_id = match p.tenant_id {
        Some(t) => t,
        None => "default".to_string(),
    };
    let scope = ScopeKey {
        tenant_id,
        workspace_id: p.workspace_id,
        project_id: p.project_id,
        agent_id: p.agent_id,
        run_id: p.run_id,
    };
    let kinds = match &p.kinds {
        Some(k) => parse_kinds(k.as_str()),
        None => None,
    };
    let tags_any = match &p.tags {
        Some(t) => parse_tags(t.as_str()),
        None => None,
    };
    let since_ms = match &p.since_ms {
        Some(t) => parse_i64(t.as_str()),
        None => None,
    };
    let until_ms = match &p.until_ms {
        Some(t) => parse_i64(t.as_str()),
        None => None,
    };
    let limit = match &p.limit {
        Some(l) => limit_from_param(Some(l.as_str())),
        None => limit_from_param(None),
    };
    Query { scope, text: String::new(), kinds, tags_any, limit, since_ms, until_ms }
}

/// A semantic search request.
#[derive(Debug)]
pub struct SemanticSearchRequest {
    pub query: String,
    pub limit: Option<usize>,
}

/// The number of results a semantic search returns: the requested limit
/// (10 when none is given), at most 100.
pub open spec fn search_limit_of(limit: Option<usize>) -> usize {
    let l = match limit {
        Some(l) => l,
        None => default_limit(),
    };
    if l < max_limit() {
        l
    } else {
        max_limit()
    }
}

/// The number of results a semantic search returns.
pub fn search_limit(limit: Option<usize>) -> (r: usize)
    ensures
        r == search_limit_of(limit),
{
    let l = match limit {
        Some(l) => l,
        None => 10,
    };
    if l < 100 {
        l
    } else {
        100
    }
}

/// The scope of a whole tenant.
pub fn tenant_scope(tenant_id: String) -> (r: ScopeKey)
    ensures
        r == (ScopeKey {
            tenant_id,
            workspace_id: None,
            project_id: None,
            agent_id: None,
            run_id: None,
        }),
{
    ScopeKey { tenant_id, workspace_id: None, project_id: None, agent_id: None, run_id: None }
}

/// How a semantic search is served: the scope searched and how many results
/// are returned.
#[derive(Debug)]
pub struct SearchPlan {
    pub scope: ScopeKey,
    pub limit: usize,
}

/// Plans a semantic search: the tenant is required, then an embedder must be
/// available; the whole tenant is searched for the request's limit of
/// results (10 when none is given, at most 100).
pub fn plan_semantic_search(
    tenant_id: Option<String>,
    embedder_available: bool,
    limit: Option<usize>,
) -> (r: Result<SearchPlan, ApiError>)
    ensures
        tenant_id is None ==> (r matches Err(ApiError::BadRequest(m)) && m@ == "tenant_id is required"@),
        tenant_id is Some && !embedder_available ==> (r matches Err(ApiError::Internal(m)) && m@
            == "Embeddings not available"@),
        tenant_id is Some && embedder_available ==> (r matches Ok(plan) && plan.scope == (ScopeKey {
            tenant_id: tenant_id->0,
            workspace_id: None,
            project_id: None,
            agent_id: None,
            run_id: None,
        }) && plan.limit == search_limit_of(limit)),
{
    let tenant_id = required_tenant(tenant_id)?;
    if !embedder_available {
        return Err(ApiError::Internal("Embeddings not available".to_string()));
    }
    let limit = search_limit(limit);
    Ok(SearchPlan { scope: tenant_scope(tenant_id), limit })
}

/// The error for a query that could not be embedded.
pub fn embedding_failed() -> (r: ApiError)
    ensures
        r matches ApiError::Internal(m) && m@ == "Embedding unavailable"@,
{
    ApiError::Internal("Embedding unavailable".to_string())
}

/// A stored item keeps its id; an item without one gets a fresh UUID.
pub fn ensure_id(item: MemoryItem) -> (r: MemoryItem)
    ensures
        item.id.0@.len() > 0 ==> r == item,
        item.id.0@.len() == 0 ==> r == (MemoryItem { id: r.id, ..item }) && is_uuid_text(r.id.0@),
        item.wf() ==> r.wf(),
{
    let mut item = item;
    if item.id.0.as_str().is_empty() {
        item.id = MemoryId(new_uuid_text());
    }
    item
}

/// A request to ingest memories from a source, with the scope to ingest into.
#[derive(Debug)]
pub struct IngestionRequest {
    pub tenant_id: String,
    pub workspace_id: Option<String>,
    pub project_id: Option<String>,
    pub agent_id: Option<String>,
    pub run_id: Option<String>,
}

/// The outcome of ingesting from one source.
#[derive(Debug)]
pub struct IngestionResponse {
    pub source: String,
    pub count: usize,
    pub message: String,
}

/// The configuration of scheduled ingestion.
#[derive(Debug)]
pub struct IngestionStatus {
    pub sources: usize,
    pub poll_interval_secs: u64,
}

/// The scope that an ingestion request names.
pub fn ingestion_scope(req: IngestionRequest) -> (r: ScopeKey)
    ensures
        r == (ScopeKey {
            tenant_id: req.tenant_id,
            workspace_id: req.workspace_id,
            project_id: req.project_id,
            agent_id: req.agent_id,
            run_id: req.run_id,
        }),
{
    ScopeKey {
        tenant_id: req.tenant_id,
        workspace_id: req.workspace_id,
        project_id: req.project_id,
        agent_id: req.agent_id,
        run_id: req.run_id,
    }
}

/// The report of a successful ingestion of `count` memories from `source`.
pub fn ingestion_succeeded(source: String, count: usize) -> (r: IngestionResponse)
    ensures
        r.source == source,
        r.count == count,
        r.message@ == "Successfully ingested "@ + decimal(count as nat) + " memories"@,
{
    let mut message = "Successfully ingested ".to_string();
    let digits = format_usize(count);
    message.append(digits.as_str());
    message.append(" memories");
    IngestionResponse { source, count, message }
}

/// The report of a failed ingestion from `source`, with the failure's text.
pub fn ingestion_failed(source: String, failure: &str) -> (r: IngestionResponse)
    ensures
        r.source == source,
        r.count == 0,
        r.message@ == "Failed: "@ + failure@,
{
    let mut message = "Failed: ".to_string();
    message.append(failure);
    IngestionResponse { source, count: 0, message }
}

/// The error for a source that is not registered.
pub fn unknown_source(source: &str) -> (r: ApiError)
    ensures
        r matches ApiError::BadRequest(m) && m@ == "Unknown source: "@ + source@,
{
    let mut m = "Unknown source: ".to_string();
    m.append(source);
    ApiError::BadRequest(m)
}

/// The error for a source whose memories could not be fetched.
pub fn fetch_failed(source: &str, failure: &str) -> (r: ApiError)
    ensures
        r matches ApiError::Internal(m) && m@ == "Failed to fetch from "@ + source@ + ": "@ + failure@,
{
    let mut m = "Failed to fetch from ".to_string();
    m.append(source);
    m.append(": ");
    m.append(failure);
    ApiError::Internal(m)
}

/// The error for a memory that could not be stored.
pub fn store_failed(failure: &str) -> (r: ApiError)
    ensures
        r matches ApiError::Internal(m) && m@ == "Failed to store memory: "@ + failure@,
{
    let mut m = "Failed to store memory: ".to_string();
    m.append(failure);
    ApiError::Internal(m)
}

/// The sources that a full ingestion visits, in order.
pub fn ingestion_sources() -> (r: Vec<String>)
    ensures
        views(r@) == source_names(),
{
    let mut r: Vec<String> = Vec::new();
    r.push("oxidizedrag".to_string());
    r.push("oxidizedgraph".to_string());
    r.push("datafabric".to_string());
    assert(views(r@) =~= source_names());
    r
}

/// The names of the sources that a full ingestion visits, in order.
pub open spec fn source_names() -> Seq<Seq<char>> {
    seq!["oxidizedrag"@, "oxidizedgraph"@, "datafabric"@]
}

/// What came of asking one source for its memories: it is not registered,
/// it gave `count` memories, or it failed with a message.
#[derive(Debug)]
pub enum SourceOutcome {
    Missing,
    Fetched(usize),
    Failed(String),
}

/// An ingestion response as source, count and message.
pub open spec fn response_view(r: IngestionResponse) -> (Seq<char>, usize, Seq<char>) {
    (r.source@, r.count, r.message@)
}

/// The views of a sequence of ingestion responses.
pub open spec fn response_views(s: Seq<IngestionResponse>) -> Seq<(Seq<char>, usize, Seq<char>)> {
    s.map_values(|x: IngestionResponse| response_view(x))
}

/// The report of `count` memories ingested from `source`.
pub open spec fn success_entry(source: Seq<char>, count: usize) -> (Seq<char>, usize, Seq<char>) {
    (source, count, "Successfully ingested "@ + decimal(count as nat) + " memories"@)
}

/// The report of a source whose memories could not be fetched.
pub open spec fn failure_entry(source: Seq<char>, failure: Seq<char>) -> (Seq<char>, usize, Seq<char>) {
    (source, 0usize, "Failed: "@ + failure)
}

/// Storing what one source gave, in order, stopping at the first memory that
/// cannot be stored: the source, how many memories it gave, and how many of
/// them are stored.
#[derive(Debug)]
pub struct IngestSource {
    pub source: String,
    pub count: usize,
    pub next: usize,
}

/// What ingesting from one source does next: store the memory at an index,
/// or report.
#[derive(Debug)]
pub enum IngestSourceAction {
    Put(usize),
    Finish,
}

impl IngestSource {
    /// Begins storing what `source` gave: a source that is not registered is
    /// a bad request and a failed fetch an internal error; otherwise none of
    /// its memories is stored yet.
    pub fn start(source: String, fetched: SourceOutcome) -> (r: Result<Self, ApiError>)
        ensures
            match fetched {
                SourceOutcome::Missing => r matches Err(ApiError::BadRequest(m)) && m@ == "Unknown source: "@
                    + source@,
                SourceOutcome::Failed(e) => r matches Err(ApiError::Internal(m)) && m@
                    == "Failed to fetch from "@ + source@ + ": "@ + e@,
                SourceOutcome::Fetched(n) => r matches Ok(s) && s.source == source && s.count == n && s.next
                    == 0,
            },
    {
        match fetched {
            SourceOutcome::Missing => Err(unknown_source(source.as_str())),
            SourceOutcome::Failed(e) => Err(fetch_failed(source.as_str(), e.as_str())),
            SourceOutcome::Fetched(count) => Ok(IngestSource { source, count, next: 0 }),
        }
    }

    /// The next action: store the next memory in order, or report once all
    /// are stored.
    pub fn action(&self) -> (r: IngestSourceAction)
        ensures
            self.next < self.count ==> (r matches IngestSourceAction::Put(k) && k == self.next),
            self.next >= self.count ==> r is Finish,
    {
        if self.next < self.count {
            IngestSourceAction::Put(self.next)
        } else {
            IngestSourceAction::Finish
        }
    }

    /// Records whether the memory being stored was stored: on to the next
    /// one, or the ingestion ends with the store's failure.
    pub fn step(self, stored: Result<(), String>) -> (r: Result<Self, ApiError>)
        requires
            self.next < self.count,
        ensures
            match stored {
                Ok(_) => r matches Ok(s) && s.source == self.source && s.count == self.count && s.next
                    == self.next + 1,
                Err(e) => r matches Err(ApiError::Internal(m)) && m@ == "Failed to store memory: "@ + e@,
            },
    {
        match stored {
            Ok(_) => Ok(IngestSource { source: self.source, count: self.count, next: self.next + 1 }),
            Err(e) => Err(store_failed(e.as_str())),
        }
    }

    /// The report once every memory is stored.
    pub fn finish(self) -> (r: IngestionResponse)
        requires
            self.next >= self.count,
        ensures
            response_view(r) == success_entry(self.source@, self.count),
    {
        ingestion_succeeded(self.source, self.count)
    }
}

/// Progress of a full ingestion: the next source to visit, while storing a
/// source's memories how many it gave and how many were attempted, and the
/// responses so far.
#[derive(Debug)]
pub struct IngestAll {
    pub next: usize,
    pub storing: Option<(usize, usize)>,
    pub responses: Vec<IngestionResponse>,
}

/// What a full ingestion does next: fetch from a source, store the memory at
/// an index of what the current source gave, or finish.
#[derive(Debug)]
pub enum IngestAllAction {
    Fetch(String),
    Put(usize),
    Finish,
}

impl IngestAll {
    /// Storing is under way only at a source being visited, and not past
    /// what it gave.
    pub open spec fn wf(&self) -> bool {
        &&& self.next <= source_names().len()
        &&& self.storing matches Some((count, done)) ==> done < count && self.next < source_names().len()
    }

    /// A full ingestion that has visited no source.
    pub fn start() -> (r: Self)
        ensures
            r.wf(),
            r.next == 0,
            r.storing is None,
            r.responses@.len() == 0,
    {
        IngestAll { next: 0, storing: None, responses: Vec::new() }
    }

    /// The next action: store the next memory of the current source, else
    /// fetch from the next source in order, or finish once every source was
    /// visited.
    pub fn action(&self) -> (r: IngestAllAction)
        ensures
            self.storing matches Some((count, done)) ==> (r matches IngestAllAction::Put(k) && k == done),
            self.storing is None && self.next < source_names().len() ==> (r matches IngestAllAction::Fetch(
                src,
            ) && src@ == source_names()[self.next as int]),
            self.storing is None && self.next >= source_names().len() ==> r is Finish,
    {
        match self.storing {
            Some((_, done)) => IngestAllAction::Put(done),
            None => {
                let sources = ingestion_sources();
                if self.next < sources.len() {
                    let src = sources[self.next].clone();
                    IngestAllAction::Fetch(src)
                } else {
                    IngestAllAction::Finish
                }
            },
        }
    }

    /// Records what came of fetching from the source being visited: a source
    /// that is not registered is skipped, a failed fetch is reported with
    /// count 0, and what a source gave is stored next (a source that gave
    /// nothing is reported at once). The next source is visited either way.
    pub fn step(self, outcome: SourceOutcome) -> (r: Self)
        requires
            self.wf(),
            self.storing is None,
            self.next < source_names().len(),
        ensures
            r.wf(),
            match outcome {
                SourceOutcome::Missing => r.next == self.next + 1 && r.storing is None && response_views(
                    r.responses@,
                ) == response_views(self.responses@),
                SourceOutcome::Failed(e) => r.next == self.next + 1 && r.storing is None && response_views(
                    r.responses@,
                ) == response_views(self.responses@).push(
                    failure_entry(source_names()[self.next as int], e@),
                ),
                SourceOutcome::Fetched(n) => if n == 0 {
                    r.next == self.next + 1 && r.storing is None && response_views(r.responses@)
                        == response_views(self.responses@).push(
                        success_entry(source_names()[self.next as int], 0),
                    )
                } else {
                    r.next == self.next && r.storing == Some((n, 0usize)) && response_views(r.responses@)
                        == response_views(self.responses@)
                },
            },
    {
        let sources = ingestion_sources();
        let source = sources[self.next].clone();
        let ghost before = self.responses@;
        let mut responses = self.responses;
        match outcome {
            SourceOutcome::Missing => IngestAll { next: self.next + 1, storing: None, responses },
            SourceOutcome::Failed(e) => {
                responses.push(ingestion_failed(source, e.as_str()));
                assert(response_views(responses@) =~= response_views(before).push(
                    failure_entry(source_names()[self.next as int], e@),
                ));
                IngestAll { next: self.next + 1, storing: None, responses }
            },
            SourceOutcome::Fetched(count) => {
                if count == 0 {
                    responses.push(ingestion_succeeded(source, 0));
                    assert(response_views(responses@) =~= response_views(before).push(
                        success_entry(source_names()[self.next as int], 0),
                    ));
                    IngestAll { next: self.next + 1, storing: None, responses }
                } else {
                    IngestAll { next: self.next, storing: Some((count, 0)), responses }
                }
            },
        }
    }

    /// Records that the memory being stored was stored or not: a memory that
    /// cannot be stored is skipped, and once every memory the source gave was
    /// attempted, the source is reported with the count it gave and the next
    /// source is visited.
    pub fn stored(self, ok: bool) -> (r: Self)
        requires
            self.wf(),
            self.storing is Some,
        ensures
            r.wf(),
            ({
                let (count, done) = self.storing->0;
                if done + 1 < count {
                    r.next == self.next && r.storing == Some((count, (done + 1) as usize)) && response_views(
                        r.responses@,
                    ) == response_views(self.responses@)
                } else {
                    r.next == self.next + 1 && r.storing is None && response_views(r.responses@)
                        == response_views(self.responses@).push(
                        success_entry(source_names()[self.next as int], count),
                    )
                }
            }),
    {
        let (count, done) = match self.storing {
            Some(p) => p,
            None => (0, 0),
        };
        if done + 1 < count {
            IngestAll { next: self.next, storing: Some((count, done + 1)), responses: self.responses }
        } else {
            let sources = ingestion_sources();
            let source = sources[self.next].clone();
            let ghost before = self.responses@;
            let mut responses = self.responses;
            responses.push(ingestion_succeeded(source, count));
            assert(response_views(responses@) =~= response_views(before).push(
                success_entry(source_names()[self.next as int], count),
            ));
            IngestAll { next: self.next + 1, storing: None, responses }
        }
    }
}

/// The environment variable that overrides a source's endpoint.
pub fn source_endpoint_variable(source_name: &str) -> (r: Option<String>)
    ensures
        opt_view(r) == (if source_name@ == "oxidizedrag"@ {
            Some("OXIDIZEDRAG_URL"@)
        } else if source_name@ == "oxidizedgraph"@ {
            Some("OXIDIZEDGRAPH_URL"@)
        } else if source_name@ == "datafabric"@ {
            Some("DATAFABRIC_URL"@)
        } else {
            None
        }),
{
    if same_text(source_name, "oxidizedrag") {
        Some("OXIDIZEDRAG_URL".to_string())
    } else if same_text(source_name, "oxidizedgraph") {
        Some("OXIDIZEDGRAPH_URL".to_string())
    } else if same_text(source_name, "datafabric") {
        Some("DATAFABRIC_URL".to_string())
    } else {
        None
    }
}

} // verus!
