//! The in-memory store of the single-process server: items keyed by id, in
//! the order they were first stored, and their queries.

use vstd::prelude::*;
use crate::kernel::Scored;
use crate::memory::{ItemView, MemoryItem, MemoryKind};
use crate::ranking::{is_ranking, lemma_ranking_map, map_items, rank_desc};
use crate::text::{same_text, views};
use crate::handlers::opt_views;

verus! {

/// A query over the store: the filters by kind and by tags (any of them)
/// apply when given; at most `limit` items (10 when none is given). The text
/// and offset are carried but not applied by this store.
#[derive(Debug, Clone)]
pub struct Query {
    pub text: Option<String>,
    pub tags: Option<Vec<String>>,
    pub kind: Option<MemoryKind>,
    pub limit: Option<usize>,
    pub offset: Option<usize>,
}

/// A stored item with the bits of its single-precision score.
pub type ScoredMemory = Scored<MemoryItem>;

/// No two items share an id.
pub open spec fn ids_distinct(s: Seq<ItemView>) -> bool {
    forall|i: int, j: int| 0 <= i < j < s.len() ==> (#[trigger] s[i]).id != (#[trigger] s[j]).id
}

/// Whether some item has the id `id`.
pub open spec fn has_id(s: Seq<ItemView>, id: Seq<char>) -> bool {
    exists|i: int| 0 <= i < s.len() && (#[trigger] s[i]).id == id
}

/// The position of the item with the id `id`.
pub open spec fn index_of(s: Seq<ItemView>, id: Seq<char>) -> int {
    choose|i: int| 0 <= i < s.len() && (#[trigger] s[i]).id == id
}

/// The item with the id `id`, if any.
pub open spec fn lookup(s: Seq<ItemView>, id: Seq<char>) -> Option<ItemView> {
    if has_id(s, id) {
        Some(s[index_of(s, id)])
    } else {
        None
    }
}

/// `s` after storing `item`: it replaces the item with its id in place, or
/// is appended.
pub open spec fn put_into(s: Seq<ItemView>, item: ItemView) -> Seq<ItemView> {
    if has_id(s, item.id) {
        s.update(index_of(s, item.id), item)
    } else {
        s.push(item)
    }
}

/// `s` after storing each of `items` in turn.
pub open spec fn put_all(s: Seq<ItemView>, items: Seq<ItemView>) -> Seq<ItemView>
    decreases items.len(),
{
    if items.len() == 0 {
        s
    } else {
        put_all(put_into(s, items[0]), items.drop_first())
    }
}

/// `s` after deleting the item with the id `id`, if any.
pub open spec fn remove_from(s: Seq<ItemView>, id: Seq<char>) -> Seq<ItemView> {
    if has_id(s, id) {
        s.remove(index_of(s, id))
    } else {
        s
    }
}

/// Whether an item passes a query's kind and tags filters.
pub open spec fn item_matches(
    it: ItemView,
    kind: Option<MemoryKind>,
    tags: Option<Seq<Seq<char>>>,
) -> bool {
    &&& match kind {
        Some(k) => it.kind == k,
        None => true,
    }
    &&& match tags {
        Some(ts) => exists|a: int, b: int|
            0 <= a < ts.len() && 0 <= b < it.tags.len() && #[trigger] ts[a] == #[trigger] it.tags[b],
        None => true,
    }
}

/// The items of `s` that pass the filters, in order, each scored by its
/// importance.
pub open spec fn candidates(
    s: Seq<ItemView>,
    kind: Option<MemoryKind>,
    tags: Option<Seq<Seq<char>>>,
) -> Seq<Scored<ItemView>>
    decreases s.len(),
{
    if s.len() == 0 {
        Seq::<Scored<ItemView>>::empty()
    } else {
        let c = candidates(s.drop_last(), kind, tags);
        if item_matches(s.last(), kind, tags) {
            c.push(Scored { score: s.last().importance, item: s.last() })
        } else {
            c
        }
    }
}

/// The views of stored items.
pub open spec fn item_views(s: Seq<MemoryItem>) -> Seq<ItemView> {
    s.map_values(|i: MemoryItem| i@)
}

/// The number of items a query returns.
pub open spec fn query_limit(limit: Option<usize>) -> int {
    match limit {
        Some(l) => l as int,
        None => 10,
    }
}

/// Every candidate is a stored item that passes the filters, scored by its
/// importance.
pub proof fn lemma_candidates_match(s: Seq<ItemView>, kind: Option<MemoryKind>, tags: Option<Seq<Seq<char>>>)
    ensures
        forall|k: int| 0 <= k < candidates(s, kind, tags).len() ==> {
            let c = #[trigger] candidates(s, kind, tags)[k];
            &&& item_matches(c.item, kind, tags)
            &&& c.score == c.item.importance
            &&& s.contains(c.item)
        },
    decreases s.len(),
{
    if s.len() > 0 {
        lemma_candidates_match(s.drop_last(), kind, tags);
        let c0 = candidates(s.drop_last(), kind, tags);
        let c = candidates(s, kind, tags);
        assert forall|k: int| 0 <= k < c.len() implies {
            let x = #[trigger] c[k];
            &&& item_matches(x.item, kind, tags)
            &&& x.score == x.item.importance
            &&& s.contains(x.item)
        } by {
            if k < c0.len() {
                assert(c[k] == c0[k]);
                let j = choose|j: int| 0 <= j < s.drop_last().len() && s.drop_last()[j] == c0[k].item;
                assert(s[j] == c[k].item);
            } else {
                assert(s[s.len() - 1] == c[k].item);
            }
        }
    }
}

/// An item passes the kind filter when it is of the requested kind, and the
/// tags filter when it carries at least one of the requested tags, whichever
/// of them it is.
pub proof fn lemma_filters_mean(it: ItemView, kind: Option<MemoryKind>, tags: Option<Seq<Seq<char>>>)
    ensures
        item_matches(it, kind, tags) == ((match kind {
            Some(k) => it.kind == k,
            None => true,
        }) && (match tags {
            Some(ts) => exists|t: Seq<char>| ts.contains(t) && it.tags.contains(t),
            None => true,
        })),
        forall|a: int|
            #![trigger tags->0[a]]
            tags is Some && 0 <= a < tags->0.len() && it.tags.contains(tags->0[a]) && (match kind {
                Some(k) => it.kind == k,
                None => true,
            }) ==> item_matches(it, kind, tags),
{
    if let Some(ts) = tags {
        if exists|t: Seq<char>| ts.contains(t) && it.tags.contains(t) {
            let t = choose|t: Seq<char>| ts.contains(t) && it.tags.contains(t);
            let a = choose|a: int| 0 <= a < ts.len() && ts[a] == t;
            let b = choose|b: int| 0 <= b < it.tags.len() && it.tags[b] == t;
            assert(ts[a] == it.tags[b]);
        }
        if exists|a: int, b: int| 0 <= a < ts.len() && 0 <= b < it.tags.len() && ts[a] == it.tags[b] {
            let (a, b) = choose|a: int, b: int| 0 <= a < ts.len() && 0 <= b < it.tags.len() && ts[a] == it.tags[b];
            assert(ts.contains(ts[a]) && it.tags.contains(ts[a]));
        }
        assert forall|a: int|
            #![trigger ts[a]]
            0 <= a < ts.len() && it.tags.contains(ts[a]) implies exists|a2: int, b: int|
                0 <= a2 < ts.len() && 0 <= b < it.tags.len() && #[trigger] ts[a2] == #[trigger] it.tags[b] by {
            let b = choose|b: int| 0 <= b < it.tags.len() && it.tags[b] == ts[a];
            assert(ts[a] == it.tags[b]);
        }
    }
}

/// Every stored item that passes the filters is a candidate, scored by its
/// importance.
pub proof fn lemma_candidates_complete(
    s: Seq<ItemView>,
    kind: Option<MemoryKind>,
    tags: Option<Seq<Seq<char>>>,
    i: int,
)
    requires
        0 <= i < s.len(),
        item_matches(s[i], kind, tags),
    ensures
        exists|k: int|
            0 <= k < candidates(s, kind, tags).len() && #[trigger] candidates(s, kind, tags)[k] == (Scored {
                score: s[i].importance,
                item: s[i],
            }),
    decreases s.len(),
{
    let c0 = candidates(s.drop_last(), kind, tags);
    let c = candidates(s, kind, tags);
    if i == s.len() - 1 {
        assert(c[c.len() - 1] == Scored { score: s[i].importance, item: s[i] });
    } else {
        assert(s.drop_last()[i] == s[i]);
        lemma_candidates_complete(s.drop_last(), kind, tags, i);
        let k = choose|k: int|
            0 <= k < c0.len() && #[trigger] c0[k] == (Scored { score: s[i].importance, item: s[i] });
        assert(c[k] == c0[k]);
    }
}

/// A query returns every stored item that passes its filters, up to its
/// limit: the full ranking that the query cuts holds each of them.
pub proof fn lemma_query_ranks_every_match(
    s: Seq<ItemView>,
    kind: Option<MemoryKind>,
    tags: Option<Seq<Seq<char>>>,
    full: Seq<Scored<ItemView>>,
    i: int,
)
    requires
        is_ranking(candidates(s, kind, tags), full, false),
        0 <= i < s.len(),
        item_matches(s[i], kind, tags),
    ensures
        exists|k: int| 0 <= k < full.len() && #[trigger] full[k].item == s[i],
{
    let c = candidates(s, kind, tags);
    lemma_candidates_complete(s, kind, tags, i);
    let j = choose|j: int| 0 <= j < c.len() && #[trigger] c[j] == (Scored { score: s[i].importance, item: s[i] });
    let pos = choose|pos: Seq<int>| crate::ranking::ranked_suffix(c, full, pos, 0, false);
    assert(crate::ranking::admitted(c[j], false));
    assert(0 <= j < c.len() && crate::ranking::admitted(c[j], false));
    assert(exists|k: int| 0 <= k < full.len() && pos[k] == j);
    let k = choose|k: int| 0 <= k < full.len() && pos[k] == j;
    assert(full[k] == c[pos[k]]);
    assert(full[k].item == s[i]);
}

/// A query returns at most the number it asks for, and at most 10 when it
/// asks for none.
pub proof fn lemma_query_limit_default(l: usize)
    ensures
        query_limit(Some(l)) == l,
        query_limit(None) == 10,
{
}

/// Every result of a query is a stored item that passes its filters, with its
/// importance as its score.
pub proof fn lemma_query_results_match(
    s: Seq<ItemView>,
    kind: Option<MemoryKind>,
    tags: Option<Seq<Seq<char>>>,
    full: Seq<Scored<ItemView>>,
)
    requires
        is_ranking(candidates(s, kind, tags), full, false),
    ensures
        forall|k: int| 0 <= k < full.len() ==> {
            let x = #[trigger] full[k];
            &&& item_matches(x.item, kind, tags)
            &&& x.score == x.item.importance
            &&& s.contains(x.item)
        },
{
    let c = candidates(s, kind, tags);
    lemma_candidates_match(s, kind, tags);
    let pos = choose|pos: Seq<int>| crate::ranking::ranked_suffix(c, full, pos, 0, false);
    assert forall|k: int| 0 <= k < full.len() implies {
        let x = #[trigger] full[k];
        &&& item_matches(x.item, kind, tags)
        &&& x.score == x.item.importance
        &&& s.contains(x.item)
    } by {
        assert(full[k] == c[pos[k]]);
    }
}

/// With distinct ids, the item with a given id is at exactly one position.
pub proof fn lemma_index_unique(s: Seq<ItemView>, id: Seq<char>, i: int)
    requires
        ids_distinct(s),
        0 <= i < s.len(),
        s[i].id == id,
    ensures
        has_id(s, id),
        index_of(s, id) == i,
{
    let k = index_of(s, id);
    assert(s[k].id == id);
    if k < i {
        assert(s[k].id != s[i].id);
    } else if k > i {
        assert(s[i].id != s[k].id);
    }
}

/// Storing keeps ids distinct.
pub proof fn lemma_put_keeps_ids_distinct(s: Seq<ItemView>, item: ItemView)
    requires
        ids_distinct(s),
    ensures
        ids_distinct(put_into(s, item)),
{
    let t = put_into(s, item);
    if has_id(s, item.id) {
        let k = index_of(s, item.id);
        assert forall|a: int, b: int| 0 <= a < b < t.len() implies (#[trigger] t[a]).id != (#[trigger] t[b]).id by {
            assert(s[a].id != s[b].id);
        }
    } else {
        assert forall|a: int, b: int| 0 <= a < b < t.len() implies (#[trigger] t[a]).id != (#[trigger] t[b]).id by {
            if b < s.len() {
                assert(s[a].id != s[b].id);
            } else {
                assert(s[a].id != item.id);
            }
        }
    }
}

/// Reading an id after storing an item under it gives the item; other ids
/// read as before.
pub proof fn lemma_lookup_after_put(s: Seq<ItemView>, item: ItemView, id: Seq<char>)
    requires
        ids_distinct(s),
    ensures
        lookup(put_into(s, item), item.id) == Some(item),
        id != item.id ==> lookup(put_into(s, item), id) == lookup(s, id),
{
    let t = put_into(s, item);
    lemma_put_keeps_ids_distinct(s, item);
    let k = if has_id(s, item.id) {
        index_of(s, item.id)
    } else {
        s.len() as int
    };
    assert(t[k] == item);
    lemma_index_unique(t, item.id, k);
    if id != item.id {
        if has_id(s, id) {
            let j = index_of(s, id);
            assert(j != k);
            assert(t[j] == s[j]);
            lemma_index_unique(t, id, j);
        } else {
            assert forall|j: int| 0 <= j < t.len() implies (#[trigger] t[j]).id != id by {
                if j != k {
                    assert(t[j] == s[j]);
                }
            }
        }
    }
}

/// Storing the same item twice is storing it once.
pub proof fn lemma_put_idempotent(s: Seq<ItemView>, item: ItemView)
    requires
        ids_distinct(s),
    ensures
        put_into(put_into(s, item), item) == put_into(s, item),
{
    let t = put_into(s, item);
    lemma_put_keeps_ids_distinct(s, item);
    let k = if has_id(s, item.id) {
        index_of(s, item.id)
    } else {
        s.len() as int
    };
    assert(t[k] == item);
    lemma_index_unique(t, item.id, k);
    assert(t.update(k, item) =~= t);
}

/// Deleting keeps ids distinct; afterwards the deleted id reads as absent and
/// other ids read as before.
pub proof fn lemma_lookup_after_delete(s: Seq<ItemView>, id: Seq<char>, other: Seq<char>)
    requires
        ids_distinct(s),
    ensures
        ids_distinct(remove_from(s, id)),
        lookup(remove_from(s, id), id) is None,
        other != id ==> lookup(remove_from(s, id), other) == lookup(s, other),
{
    let t = remove_from(s, id);
    if has_id(s, id) {
        let k = index_of(s, id);
        assert forall|a: int, b: int| 0 <= a < b < t.len() implies (#[trigger] t[a]).id != (#[trigger] t[b]).id by {
            let oa = if a < k { a } else { a + 1 };
            let ob = if b < k { b } else { b + 1 };
            assert(s[oa].id != s[ob].id);
        }
        assert forall|j: int| 0 <= j < t.len() implies (#[trigger] t[j]).id != id by {
            let oj = if j < k { j } else { j + 1 };
            assert(t[j] == s[oj]);
            assert(s[oj].id != s[k].id);
        }
        if other != id && has_id(s, other) {
            let j = index_of(s, other);
            let tj = if j < k { j } else { j - 1 };
            assert(t[tj] == s[j]);
            lemma_index_unique(t, other, tj);
        } else if other != id {
            assert forall|j: int| 0 <= j < t.len() implies (#[trigger] t[j]).id != other by {
                let oj = if j < k { j } else { j + 1 };
                assert(t[j] == s[oj]);
            }
        }
    }
}

/// The items of the single-process server, keyed by id.
///
/// They are held in a vector whose ids are distinct rather than in a
/// `HashMap` keyed by id: vstd specifies a `HashMap` only for keys that obey
/// its key model, which it grants to integers and booleans but not to
/// `String`, and the ids are strings. With a `String` key, Verus cannot even
/// show that a map holds one entry after one `insert` into an empty map. The
/// vector also keeps the items in the order they were first stored, which
/// settles the order of equal scores in a query.
pub struct InMemoryStore {
    items: Vec<MemoryItem>,
}

impl View for InMemoryStore {
    type V = Seq<ItemView>;

    closed spec fn view(&self) -> Seq<ItemView> {
        item_views(self.items@)
    }
}

impl Default for InMemoryStore {
    /// An empty store.
    fn default() -> (r: Self)
        ensures
            r.wf(),
            r@ == Seq::<ItemView>::empty(),
    {
        InMemoryStore::new()
    }
}

impl InMemoryStore {
    /// The store holds no two items with one id.
    pub open spec fn wf(&self) -> bool {
        ids_distinct(self@)
    }

    /// Every store holds no two items with one id.
    #[verifier::type_invariant]
    spec fn distinct_ids(self) -> bool {
        ids_distinct(item_views(self.items@))
    }

    /// An empty store.
    pub fn new() -> (r: Self)
        ensures
            r.wf(),
            r@ == Seq::<ItemView>::empty(),
    {
        let r = InMemoryStore { items: Vec::new() };
        assert(r@ =~= Seq::<ItemView>::empty());
        r
    }

    /// The position of the item with the id `id`.
    fn position(&self, id: &str) -> (r: Option<usize>)
        requires
            self.wf(),
        ensures
            match r {
                Some(i) => i < self@.len() && has_id(self@, id@) && index_of(self@, id@) == i,
                None => !has_id(self@, id@),
            },
    {
        let mut i: usize = 0;
        while i < self.items.len()
            invariant
                i <= self.items.len(),
                self.wf(),
                self@ == item_views(self.items@),
                forall|k: int| 0 <= k < i ==> (#[trigger] self@[k]).id != id@,
            decreases self.items.len() - i,
        {
            if same_text(self.items[i].id.as_str(), id) {
                proof {
                    lemma_index_unique(self@, id@, i as int);
                }
                return Some(i);
            }
            i = i + 1;
        }
        None
    }

    /// Stores a copy of `item`, replacing the item with its id.
    pub fn put(&mut self, item: &MemoryItem)
        ensures
            final(self).wf(),
            final(self)@ == put_into(old(self)@, item@),
    {
        proof {
            use_type_invariant(&*self);
        }
        let copy = item.duplicate();
        let pos = self.position(item.id.as_str());
        let ghost before = self@;
        let mut items: Vec<MemoryItem> = Vec::new();
        std::mem::swap(&mut items, &mut self.items);
        assert(item_views(items@) == before);
        match pos {
            Some(i) => {
                items.set(i, copy);
                assert(item_views(items@) =~= before.update(i as int, item@));
            },
            None => {
                items.push(copy);
                assert(item_views(items@) =~= before.push(item@));
            },
        }
        proof {
            lemma_put_keeps_ids_distinct(before, item@);
        }
        self.items = items;
    }

    /// Stores copies of `items` in turn.
    pub fn batch_put(&mut self, items: &[MemoryItem])
        ensures
            final(self).wf(),
            final(self)@ == put_all(old(self)@, item_views(items@)),
    {
        proof {
            use_type_invariant(&*self);
        }
        let ghost all = item_views(items@);
        let mut i: usize = 0;
        assert(all.skip(0) =~= all);
        while i < items.len()
            invariant
                i <= items.len(),
                all == item_views(items@),
                self.wf(),
                put_all(old(self)@, all) == put_all(self@, all.skip(i as int)),
            decreases items.len() - i,
        {
            let ghost before = self@;
            self.put(&items[i]);
            assert(all.skip(i as int)[0] == items@[i as int]@);
            assert(all.skip(i as int).drop_first() =~= all.skip(i + 1));
            i = i + 1;
        }
        assert(all.skip(items.len() as int) =~= Seq::<ItemView>::empty());
    }

    /// A copy of the item with the id `id`, if any.
    pub fn get(&self, id: &str) -> (r: Option<MemoryItem>)
        ensures
            match r {
                Some(item) => lookup(self@, id@) == Some(item@),
                None => lookup(self@, id@) is None,
            },
    {
        proof {
            use_type_invariant(&*self);
        }
        match self.position(id) {
            Some(i) => Some(self.items[i].duplicate()),
            None => None,
        }
    }

    /// Deletes the item with the id `id`, if any.
    pub fn delete(&mut self, id: &str)
        ensures
            final(self).wf(),
            final(self)@ == remove_from(old(self)@, id@),
    {
        proof {
            use_type_invariant(&*self);
        }
        match self.position(id) {
            Some(i) => {
                let ghost before = self@;
                let mut items: Vec<MemoryItem> = Vec::new();
                std::mem::swap(&mut items, &mut self.items);
                assert(item_views(items@) == before);
                let _ = items.remove(i);
                assert(item_views(items@) =~= before.remove(i as int));
                assert forall|a: int, b: int| 0 <= a < b < item_views(items@).len() implies (#[trigger] item_views(
                    items@,
                )[a]).id != (#[trigger] item_views(items@)[b]).id by {
                    let oa = if a < i { a } else { a + 1 };
                    let ob = if b < i { b } else { b + 1 };
                    assert(before[oa].id != before[ob].id);
                }
                self.items = items;
            },
            None => {},
        }
    }

    /// The items that pass the query's kind and tags filters, by importance,
    /// highest first (ties in storage order), at most the query's limit.
    pub fn query(&self, q: &Query) -> (r: Vec<ScoredMemory>)
        ensures
            exists|full: Seq<Scored<ItemView>>|
                is_ranking(candidates(self@, q.kind, opt_views(q.tags)), full, false) && map_items(
                    r@,
                    |i: MemoryItem| i@,
                ) == full.take(
                    if query_limit(q.limit) < full.len() {
                        query_limit(q.limit)
                    } else {
                        full.len() as int
                    },
                ),
    {
        proof {
            use_type_invariant(&*self);
        }
        let limit = match q.limit {
            Some(l) => l,
            None => 10,
        };
        let ghost tags = opt_views(q.tags);
        let mut cands: Vec<ScoredMemory> = Vec::new();
        let mut i: usize = 0;
        assert(self@.take(0) =~= Seq::<ItemView>::empty());
        while i < self.items.len()
            invariant
                i <= self.items.len(),
                self@ == item_views(self.items@),
                tags == opt_views(q.tags),
                map_items(cands@, |i: MemoryItem| i@) =~= candidates(self@.take(i as int), q.kind, tags),
            decreases self.items.len() - i,
        {
            let item = &self.items[i];
            let ghost iv = self@[i as int];
            assert(self@.take(i + 1).drop_last() =~= self@.take(i as int));
            assert(self@.take(i + 1).last() == iv);
            let kind_ok = match q.kind {
                Some(k) => item.kind == k,
                None => true,
            };
            let tags_ok = match &q.tags {
                Some(ts) => any_shared(ts, &item.tags),
                None => true,
            };
            assert(iv.tags == views(item.tags@));
            assert(tags_ok == (match tags {
                Some(ts) => exists|a: int, b: int|
                    0 <= a < ts.len() && 0 <= b < iv.tags.len() && #[trigger] ts[a] == #[trigger] iv.tags[b],
                None => true,
            }));
            assert(item_matches(iv, q.kind, tags) == (kind_ok && tags_ok));
            if kind_ok && tags_ok {
                let ghost before = cands@;
                cands.push(Scored { score: item.importance, item: item.duplicate() });
                assert(map_items(cands@, |i: MemoryItem| i@) =~= map_items(before, |i: MemoryItem| i@).push(
                    Scored { score: iv.importance, item: iv },
                ));
            }
            i = i + 1;
        }
        assert(self@.take(self.items.len() as int) =~= self@);
        let ghost cs = cands@;
        let mut ranked = rank_desc(cands, false);
        proof {
            lemma_ranking_map(cs, ranked@, |i: MemoryItem| i@, false);
        }
        let ghost full = map_items(ranked@, |i: MemoryItem| i@);
        ranked.truncate(limit);
        assert(map_items(ranked@, |i: MemoryItem| i@) =~= full.take(
            if query_limit(q.limit) < full.len() {
                query_limit(q.limit)
            } else {
                full.len() as int
            },
        ));
        ranked
    }
}

/// Whether some tag of `wanted` is one of `tags`.
fn any_shared(wanted: &Vec<String>, tags: &Vec<String>) -> (r: bool)
    ensures
        r == exists|a: int, b: int|
            0 <= a < wanted@.len() && 0 <= b < tags@.len() && #[trigger] views(wanted@)[a] == #[trigger] views(
                tags@,
            )[b],
{
    let mut a: usize = 0;
    while a < wanted.len()
        invariant
            a <= wanted.len(),
            forall|x: int, y: int|
                0 <= x < a && 0 <= y < tags@.len() ==> #[trigger] views(wanted@)[x] != #[trigger] views(
                    tags@,
                )[y],
        decreases wanted.len() - a,
    {
        let mut b: usize = 0;
        while b < tags.len()
            invariant
                a < wanted.len(),
                b <= tags.len(),
                forall|x: int, y: int|
                    0 <= x < a && 0 <= y < tags@.len() ==> #[trigger] views(wanted@)[x] != #[trigger] views(
                        tags@,
                    )[y],
                forall|y: int| 0 <= y < b ==> views(wanted@)[a as int] != #[trigger] views(tags@)[y],
            decreases tags.len() - b,
        {
            if same_text(wanted[a].as_str(), tags[b].as_str()) {
                assert(views(wanted@)[a as int] == views(tags@)[b as int]);
                return true;
            }
            b = b + 1;
        }
        a = a + 1;
    }
    false
}

} // verus!
