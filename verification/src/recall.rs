//! Recall: lexical matching of a query against an item's text, the age of an
//! item, and the plan and final ranking of a recall request.

use vstd::prelude::*;
use vstd::string::*;
use vstd::utf8::{encode_scalar, encode_utf8};
use crate::kernel::{now_millis, Content, MemoryItem, Query, Scored};
use crate::ranking::{is_ranking, select_ranked};
use crate::text::{chars_of, lowercase, same_text, to_lowercase_string};

verus! {

broadcast use vstd::string::group_string_axioms;

/// Number of bytes of the UTF-8 encoding of `s`.
pub open spec fn byte_len(s: Seq<char>) -> nat {
    encode_utf8(s).len()
}

/// Number of bytes of the UTF-8 encoding of `c`.
pub open spec fn char_width(c: char) -> nat {
    encode_scalar(c as u32).len()
}

/// Encoding a concatenation concatenates the encodings.
pub proof fn lemma_encode_concat(a: Seq<char>, b: Seq<char>)
    ensures
        encode_utf8(a + b) == encode_utf8(a) + encode_utf8(b),
    decreases a.len(),
{
    if a.len() == 0 {
        assert(a + b =~= b);
        assert(encode_utf8(a) + encode_utf8(b) =~= encode_utf8(b));
    } else {
        lemma_encode_concat(a.drop_first(), b);
        assert((a + b).drop_first() =~= a.drop_first() + b);
        assert((a + b)[0] == a[0]);
        assert(encode_utf8(a + b) =~= encode_utf8(a) + encode_utf8(b));
    }
}

/// The encoding of `s.push(c)` is one character's width longer, and every
/// character takes at least one byte.
pub proof fn lemma_byte_len_push(s: Seq<char>, c: char)
    ensures
        byte_len(s.push(c)) == byte_len(s) + char_width(c),
        1 <= char_width(c) <= 4,
{
    broadcast use vstd::utf8::char_is_scalar;

    lemma_encode_concat(s, seq![c]);
    assert(s.push(c) =~= s + seq![c]);
    assert(seq![c].drop_first() =~= Seq::<char>::empty());
    assert(seq![c][0] == c);
    assert(encode_utf8(Seq::<char>::empty()) =~= Seq::<u8>::empty());
    assert(encode_utf8(seq![c]) =~= encode_scalar(c as u32) + encode_utf8(Seq::<char>::empty()));
    assert(encode_utf8(seq![c]) =~= encode_scalar(c as u32));
}

/// Number of bytes of the UTF-8 encoding of `c`.
fn width_of(c: char) -> (w: u128)
    ensures
        w == char_width(c),
{
    broadcast use vstd::utf8::char_is_scalar;

    let u = c as u32;
    if u <= 0x7F {
        1
    } else if u <= 0x7FF {
        2
    } else if u <= 0xFFFF {
        3
    } else {
        4
    }
}

/// Whether `q` occurs in `c` starting at index `i`.
pub open spec fn occurs_at(c: Seq<char>, q: Seq<char>, i: int) -> bool {
    0 <= i && i + q.len() <= c.len() && c.subrange(i, i + q.len()) == q
}

/// Whether `i` is the first index at which `q` occurs in `c`.
pub open spec fn first_at(c: Seq<char>, q: Seq<char>, i: int) -> bool {
    occurs_at(c, q, i) && forall|j: int| 0 <= j < i ==> !occurs_at(c, q, j)
}

/// How a memory's text matches a query, ignoring case: not at all, exactly,
/// or as a substring whose first occurrence starts `position` bytes into a
/// text of `length` bytes (both counted in the lower-cased text).
#[derive(Debug, Clone, Copy, PartialEq, Eq, Structural)]
pub enum TextMatch {
    NoMatch,
    Exact,
    Substring { position: u128, length: u128 },
}

/// The match of `query` in `content`, compared in lower case; empty texts
/// never match.
pub open spec fn text_match_of(content: Seq<char>, query: Seq<char>) -> TextMatch {
    if query.len() == 0 || content.len() == 0 {
        TextMatch::NoMatch
    } else {
        lowered_match(lowercase(content), lowercase(query))
    }
}

/// The match of an already lower-cased query `q` in an already lower-cased
/// text `c`: exact when they are equal, else the first occurrence of `q` as a
/// substring, if any.
pub open spec fn lowered_match(c: Seq<char>, q: Seq<char>) -> TextMatch {
    if c == q {
        TextMatch::Exact
    } else if exists|i: int| occurs_at(c, q, i) {
        let i = choose|i: int| first_at(c, q, i);
        TextMatch::Substring { position: byte_len(c.take(i)) as u128, length: byte_len(c) as u128 }
    } else {
        TextMatch::NoMatch
    }
}

/// Matching ignores case: texts and queries that are empty alike and agree
/// once lower-cased match alike.
pub proof fn lemma_text_match_ignores_case(c1: Seq<char>, c2: Seq<char>, q1: Seq<char>, q2: Seq<char>)
    requires
        lowercase(c1) == lowercase(c2),
        lowercase(q1) == lowercase(q2),
        (c1.len() == 0) == (c2.len() == 0),
        (q1.len() == 0) == (q2.len() == 0),
    ensures
        text_match_of(c1, q1) == text_match_of(c2, q2),
{
}

/// Whether `q` occurs in `c` at `i`.
fn occurs_at_exec(c: &Vec<char>, q: &Vec<char>, i: usize) -> (r: bool)
    ensures
        r == occurs_at(c@, q@, i as int),
{
    if i > c.len() || q.len() > c.len() - i {
        return false;
    }
    let mut k: usize = 0;
    while k < q.len()
        invariant
            i + q.len() <= c.len(),
            k <= q.len(),
            forall|t: int| 0 <= t < k ==> c@[i + t] == q@[t],
        decreases q.len() - k,
    {
        if c[i + k] != q[k] {
            assert(c@.subrange(i as int, i + q.len())[k as int] != q@[k as int]);
            return false;
        }
        k = k + 1;
    }
    assert(c@.subrange(i as int, i + q.len()) =~= q@);
    true
}

/// The first index at which `q` occurs in `c`.
fn find_first(c: &Vec<char>, q: &Vec<char>) -> (r: Option<usize>)
    ensures
        match r {
            Some(i) => first_at(c@, q@, i as int),
            None => forall|j: int| !occurs_at(c@, q@, j),
        },
{
    let mut i: usize = 0;
    while i <= c.len()
        invariant
            i <= c.len(),
            forall|j: int| 0 <= j < i ==> !occurs_at(c@, q@, j),
        ensures
            forall|j: int| 0 <= j <= c.len() ==> !occurs_at(c@, q@, j),
        decreases c.len() + 1 - i,
    {
        if occurs_at_exec(c, q, i) {
            return Some(i);
        }
        if i == c.len() {
            break;
        }
        i = i + 1;
    }
    None
}

/// Matches `query_text` against `item_content`, ignoring case.
pub fn text_match(item_content: &str, query_text: &str) -> (r: TextMatch)
    ensures
        r == text_match_of(item_content@, query_text@),
        r matches TextMatch::Substring { position, length } ==> position < length,
{
    if query_text.is_empty() || item_content.is_empty() {
        return TextMatch::NoMatch;
    }
    let query_lower = to_lowercase_string(query_text);
    let content_lower = to_lowercase_string(item_content);
    text_match_lowered(content_lower.as_str(), query_lower.as_str())
}

/// Matches an already lower-cased query against an already lower-cased text.
pub fn text_match_lowered(content_lower: &str, query_lower: &str) -> (r: TextMatch)
    ensures
        r == lowered_match(content_lower@, query_lower@),
        r matches TextMatch::Substring { position, length } ==> position < length,
{
    if same_text(content_lower, query_lower) {
        return TextMatch::Exact;
    }
    let c = chars_of(content_lower);
    let q = chars_of(query_lower);
    match find_first(&c, &q) {
        None => TextMatch::NoMatch,
        Some(i) => {
            let ghost chosen = choose|j: int| first_at(c@, q@, j);
            assert(first_at(c@, q@, chosen));
            assert(chosen == i) by {
                if chosen < i {
                } else if chosen > i {
                }
            }
            assert(c@ != q@);
            assert(i < c.len()) by {
                if q@.len() == 0 {
                    assert(c@.subrange(0, 0) =~= q@);
                    assert(occurs_at(c@, q@, 0));
                    assert(i == 0);
                    if c@.len() == 0 {
                        assert(c@ =~= q@);
                    }
                }
            }
            let mut position: u128 = 0;
            let mut length: u128 = 0;
            let mut k: usize = 0;
            assert(c@.take(0) =~= Seq::<char>::empty());
            while k < c.len()
                invariant
                    i < c.len(),
                    k > i ==> position < length,
                    k <= c.len(),
                    length == byte_len(c@.take(k as int)),
                    length <= 4 * k,
                    position == byte_len(c@.take(if k < i { k as int } else { i as int })),
                decreases c.len() - k,
            {
                let w = width_of(c[k]);
                proof {
                    lemma_byte_len_push(c@.take(k as int), c@[k as int]);
                    assert(c@.take(k as int).push(c@[k as int]) =~= c@.take(k + 1));
                }
                if k < i {
                    position = position + w;
                }
                length = length + w;
                k = k + 1;
            }
            assert(c@.take(c.len() as int) =~= c@);
            TextMatch::Substring { position, length }
        },
    }
}


/// How long before `now` an item was created, in milliseconds; items from
/// the future have age zero.
pub open spec fn age_ms(now: int, created_at_ms: int) -> int {
    if now > created_at_ms {
        now - created_at_ms
    } else {
        0
    }
}

/// The age at `now_ms` of an item created at `created_at_ms`.
pub fn age_at(now_ms: i64, created_at_ms: i64) -> (r: u64)
    ensures
        r == age_ms(now_ms as int, created_at_ms as int),
{
    if now_ms > created_at_ms {
        (now_ms as i128 - created_at_ms as i128) as u64
    } else {
        0
    }
}

/// The age now of an item created at `created_at_ms`.
pub fn age_now(created_at_ms: i64) -> (r: u64)
    ensures
        exists|now: i64| now >= 0 && r == age_ms(now as int, created_at_ms as int),
{
    let now = now_millis();
    age_at(now, created_at_ms)
}

/// The searchable text of a memory's content: the text, the serialized JSON,
/// or the text, a space and the serialized JSON.
pub open spec fn content_text(c: Content) -> Seq<char> {
    match c {
        Content::Text(t) => t@,
        Content::Json(j) => j@,
        Content::TextJson { text, json } => text@ + " "@ + json@,
    }
}

/// The searchable text of an item.
pub fn item_to_text(item: &MemoryItem) -> (r: String)
    ensures
        r@ == content_text(item.content),
{
    match &item.content {
        Content::Text(t) => t.clone(),
        Content::Json(j) => j.clone(),
        Content::TextJson { text, json } => {
            let mut s = text.clone();
            s.append(" ");
            s.append(json.as_str());
            s
        },
    }
}

/// Candidates fetched per requested result when ranking a recall.
pub open spec fn candidate_multiplier() -> int {
    5
}

/// Most candidates fetched for one recall.
pub open spec fn max_candidates() -> int {
    1000
}

/// Candidates fetched to rank a recall that asks for `limit` results: five
/// per result, at most 1000.
pub open spec fn candidate_limit(limit: int) -> int {
    if limit * candidate_multiplier() < max_candidates() {
        limit * candidate_multiplier()
    } else {
        max_candidates()
    }
}

/// A ranked recall fetches at least as many candidates as it returns
/// whenever it asks for at most 1000 results, so no result is lost to the
/// store's limit; it never fetches more than 1000.
pub proof fn lemma_candidates_cover_limit(limit: int)
    requires
        0 <= limit <= max_candidates(),
    ensures
        limit <= candidate_limit(limit) <= max_candidates(),
{
}

/// How a recall request is served: the query sent to the store, whether the
/// results are ranked lexically, and how many results are kept.
pub struct RecallPlan {
    pub query: Query,
    pub rank: bool,
    pub final_limit: usize,
}

/// Plans a recall: an empty tenant becomes `default`; with query text, the
/// store is asked for five times the limit (at most 1000) candidates to rank,
/// and the requested limit is kept; without text, the store's results are
/// returned as they are.
pub fn plan_recall(q: Query) -> (r: RecallPlan)
    requires
        q.text@.len() > 0 ==> q.limit * candidate_multiplier() <= usize::MAX,
    ensures
        q.scope.tenant_id@.len() == 0 ==> r.query.scope.tenant_id@ == "default"@,
        q.scope.tenant_id@.len() > 0 ==> r.query.scope.tenant_id == q.scope.tenant_id,
        r.query.scope.workspace_id == q.scope.workspace_id,
        r.query.scope.project_id == q.scope.project_id,
        r.query.scope.agent_id == q.scope.agent_id,
        r.query.scope.run_id == q.scope.run_id,
        r.query.text == q.text,
        r.query.kinds == q.kinds,
        r.query.tags_any == q.tags_any,
        r.query.since_ms == q.since_ms,
        r.query.until_ms == q.until_ms,
        r.rank == (q.text@.len() > 0),
        r.final_limit == q.limit,
        r.rank ==> r.query.limit == candidate_limit(q.limit as int),
        !r.rank ==> r.query.limit == q.limit,
{
    let mut q = q;
    if q.scope.tenant_id.as_str().is_empty() {
        q.scope.tenant_id = "default".to_string();
    }
    let requested_limit = q.limit;
    let rank = !q.text.as_str().is_empty();
    if rank {
        let wanted = q.limit * 5;
        q.limit = if wanted < 1000 { wanted } else { 1000 };
    }
    RecallPlan { query: q, rank, final_limit: requested_limit }
}

/// Finishes a ranked recall: keeps the candidates with a positive score, in
/// descending score order (ties in store order), at most `final_limit` of them.
pub fn finish_recall(scored: Vec<Scored<MemoryItem>>, final_limit: usize) -> (r: Vec<Scored<MemoryItem>>)
    ensures
        exists|full: Seq<Scored<MemoryItem>>|
            is_ranking(scored@, full, true) && r@ == full.take(
                if final_limit < full.len() {
                    final_limit as int
                } else {
                    full.len() as int
                },
            ),
{
    select_ranked(scored, final_limit)
}

} // verus!
