//! Ordering of scored items: single-precision scores held as bits are
//! compared by their numeric order, and a ranking keeps the admitted items in
//! descending score order, ties in the order they were given.

use vstd::prelude::*;
use crate::kernel::Scored;

verus! {

/// An integer that orders single-precision bit patterns as their values
/// order: -0 and +0 share a key; positive NaNs order above +inf and negative
/// NaNs below -inf.
pub open spec fn order_key(bits: u32) -> int {
    if bits == 0 || bits == 0x8000_0000 {
        0x8000_0000
    } else if bits < 0x8000_0000 {
        bits + 0x8000_0000
    } else {
        0xFFFF_FFFF - bits
    }
}

/// Executable form of [`order_key`].
pub fn order_key_of(bits: u32) -> (k: u32)
    ensures
        k == order_key(bits),
{
    if bits == 0 || bits == 0x8000_0000 {
        0x8000_0000
    } else if bits < 0x8000_0000 {
        bits + 0x8000_0000
    } else {
        0xFFFF_FFFF - bits
    }
}

/// Whether the bits stand for a single-precision value greater than zero
/// (NaNs are not).
pub open spec fn is_positive(bits: u32) -> bool {
    0 < bits <= 0x7F80_0000
}

/// Positive values order by their bits.
pub proof fn lemma_positive_key_is_bits(a: u32, b: u32)
    requires
        is_positive(a),
        is_positive(b),
    ensures
        order_key(a) <= order_key(b) <==> a <= b,
{
}

/// The sort key of a scored item.
pub open spec fn key<T>(x: Scored<T>) -> int {
    order_key(x.score)
}

/// Whether a ranking keeps `x`: every item, or only those with a positive score.
pub open spec fn admitted<T>(x: Scored<T>, positive_only: bool) -> bool {
    !positive_only || is_positive(x.score)
}

/// `r` holds the admitted members of `s[from..]`, `r[k]` being `s[pos[k]]`,
/// each once, in descending key order, equal keys in their order in `s`.
pub open spec fn ranked_suffix<T>(
    s: Seq<Scored<T>>,
    r: Seq<Scored<T>>,
    pos: Seq<int>,
    from: int,
    positive_only: bool,
) -> bool {
    &&& pos.len() == r.len()
    &&& forall|k: int|
        0 <= k < r.len() ==> from <= #[trigger] pos[k] < s.len() && r[k] == s[pos[k]] && admitted(
            s[pos[k]],
            positive_only,
        )
    &&& forall|a: int, b: int| #![trigger pos[a], pos[b]] 0 <= a < b < r.len() ==> pos[a] != pos[b]
    &&& forall|j: int|
        from <= j < s.len() && admitted(#[trigger] s[j], positive_only) ==> exists|k: int|
            0 <= k < r.len() && pos[k] == j
    &&& forall|a: int, b: int| #![trigger r[a], r[b]] 0 <= a < b < r.len() ==> key(r[a]) >= key(r[b])
    &&& forall|a: int, b: int|
        #![trigger r[a], r[b]]
        0 <= a < b < r.len() && key(r[a]) == key(r[b]) ==> pos[a] < pos[b]
}

/// `r` ranks `s`: it holds the admitted members of `s`, each once, in
/// descending score order, items of equal score in their order in `s`.
pub open spec fn is_ranking<T>(s: Seq<Scored<T>>, r: Seq<Scored<T>>, positive_only: bool) -> bool {
    exists|pos: Seq<int>| ranked_suffix(s, r, pos, 0, positive_only)
}

proof fn lemma_insert_ranked<T>(
    s: Seq<Scored<T>>,
    r: Seq<Scored<T>>,
    pos: Seq<int>,
    i: int,
    p: int,
    positive_only: bool,
)
    requires
        0 < i <= s.len(),
        ranked_suffix(s, r, pos, i, positive_only),
        admitted(s[i - 1], positive_only),
        0 <= p <= r.len(),
        forall|t: int| 0 <= t < p ==> key(#[trigger] r[t]) > key(s[i - 1]),
        p < r.len() ==> key(r[p]) <= key(s[i - 1]),
    ensures
        ranked_suffix(s, r.insert(p, s[i - 1]), pos.insert(p, i - 1), i - 1, positive_only),
{
    let x = s[i - 1];
    let r2 = r.insert(p, x);
    let pos2 = pos.insert(p, i - 1);
    assert forall|k: int| 0 <= k < r2.len() implies i - 1 <= #[trigger] pos2[k] < s.len() && r2[k]
        == s[pos2[k]] && admitted(s[pos2[k]], positive_only) by {
        if k < p {
            assert(pos2[k] == pos[k]);
        } else if k > p {
            assert(pos2[k] == pos[k - 1]);
        }
    }
    assert forall|a: int, b: int| #![trigger pos2[a], pos2[b]] 0 <= a < b < r2.len() implies pos2[a]
        != pos2[b] by {
        if a < p && b < p {
            assert(pos[a] != pos[b]);
        } else if a < p && b > p {
            assert(pos[a] != pos[b - 1]);
        } else if a > p && b > p {
            assert(pos[a - 1] != pos[b - 1]);
        } else if a == p {
            assert(pos2[b] == pos[b - 1]);
            assert(pos[b - 1] >= i);
        } else {
            assert(pos2[a] == pos[a]);
            assert(pos[a] >= i);
        }
    }
    assert forall|j: int| i - 1 <= j < s.len() && admitted(#[trigger] s[j], positive_only) implies exists|
        k: int,
    | 0 <= k < r2.len() && pos2[k] == j by {
        if j == i - 1 {
            assert(pos2[p] == j);
        } else {
            let k = choose|k: int| 0 <= k < r.len() && pos[k] == j;
            if k < p {
                assert(pos2[k] == j);
            } else {
                assert(pos2[k + 1] == j);
            }
        }
    }
    assert forall|a: int, b: int| #![trigger r2[a], r2[b]] 0 <= a < b < r2.len() implies key(r2[a])
        >= key(r2[b]) && (key(r2[a]) == key(r2[b]) ==> pos2[a] < pos2[b]) by {
        if b < p {
            assert(r2[a] == r[a] && r2[b] == r[b]);
        } else if b == p {
            assert(r2[a] == r[a]);
        } else if a > p {
            assert(r2[a] == r[a - 1] && r2[b] == r[b - 1]);
        } else if a == p {
            assert(r2[b] == r[b - 1]);
            assert(key(r[p]) >= key(r[b - 1]) || p == b - 1);
            assert(pos[b - 1] >= i);
        } else {
            assert(r2[a] == r[a] && r2[b] == r[b - 1]);
        }
    }
}

/// Ranks `items`: keeps the admitted ones (every item, or only those with a
/// positive score) in descending score order, items of equal score in their
/// given order.
pub fn rank_desc<T>(items: Vec<Scored<T>>, positive_only: bool) -> (r: Vec<Scored<T>>)
    ensures
        is_ranking(items@, r@, positive_only),
{
    let ghost s = items@;
    let mut items = items;
    let mut r: Vec<Scored<T>> = Vec::new();
    let ghost mut pos: Seq<int> = Seq::empty();
    while items.len() > 0
        invariant
            items@ == s.take(items.len() as int),
            items.len() <= s.len(),
            ranked_suffix(s, r@, pos, items.len() as int, positive_only),
        decreases items.len(),
    {
        let ghost i = items.len() as int;
        let x = items.pop().unwrap();
        assert(s.take(i).last() == s[i - 1]);
        assert(items@ =~= s.take(i - 1));
        let is_in = !positive_only || (0 < x.score && x.score <= 0x7F80_0000);
        if is_in {
            let kx = order_key_of(x.score);
            let mut p: usize = 0;
            while p < r.len() && order_key_of(r[p].score) > kx
                invariant
                    p <= r.len(),
                    kx == key(x),
                    forall|t: int| 0 <= t < p ==> key(#[trigger] r@[t]) > key(x),
                decreases r.len() - p,
            {
                p = p + 1;
            }
            proof {
                lemma_insert_ranked(s, r@, pos, i, p as int, positive_only);
                pos = pos.insert(p as int, i - 1);
            }
            r.insert(p, x);
        } else {
            assert forall|j: int| i - 1 <= j < s.len() && admitted(#[trigger] s[j], positive_only) implies exists|
                k: int,
            | 0 <= k < r@.len() && pos[k] == j by {
                assert(j != i - 1);
            }
        }
    }
    assert(ranked_suffix(s, r@, pos, 0, positive_only));
    r
}

/// Ranks `items` keeping only those with a positive score, then keeps the
/// first `limit` of the ranking.
pub fn select_ranked<T>(items: Vec<Scored<T>>, limit: usize) -> (r: Vec<Scored<T>>)
    ensures
        exists|full: Seq<Scored<T>>|
            is_ranking(items@, full, true) && r@ == full.take(
                if limit < full.len() {
                    limit as int
                } else {
                    full.len() as int
                },
            ),
{
    let mut ranked = rank_desc(items, true);
    let ghost full = ranked@;
    ranked.truncate(limit);
    assert(full.take(full.len() as int) =~= full);
    ranked
}


/// `s` with each item replaced by `f` of it, scores kept.
pub open spec fn map_items<T, U>(s: Seq<Scored<T>>, f: spec_fn(T) -> U) -> Seq<Scored<U>> {
    s.map_values(|x: Scored<T>| Scored { score: x.score, item: f(x.item) })
}

/// A ranking stays a ranking when every item is replaced by a function of
/// it, since rankings look at scores only.
pub proof fn lemma_ranking_map<T, U>(
    s: Seq<Scored<T>>,
    r: Seq<Scored<T>>,
    f: spec_fn(T) -> U,
    positive_only: bool,
)
    requires
        is_ranking(s, r, positive_only),
    ensures
        is_ranking(map_items(s, f), map_items(r, f), positive_only),
{
    let pos = choose|pos: Seq<int>| ranked_suffix(s, r, pos, 0, positive_only);
    let ms = map_items(s, f);
    let mr = map_items(r, f);
    assert forall|j: int| 0 <= j < ms.len() && admitted(#[trigger] ms[j], positive_only) implies exists|
        k: int,
    | 0 <= k < mr.len() && pos[k] == j by {
        assert(admitted(s[j], positive_only));
    }
    assert forall|a: int, b: int| #![trigger mr[a], mr[b]] 0 <= a < b < mr.len() implies key(mr[a])
        >= key(mr[b]) && (key(mr[a]) == key(mr[b]) ==> pos[a] < pos[b]) by {
        assert(key(r[a]) >= key(r[b]));
    }
    assert(ranked_suffix(ms, mr, pos, 0, positive_only));
}


/// Whether index `i` of `s` comes before index `j` in a ranking: a higher
/// key, or an equal key and an earlier index.
pub open spec fn precedes<T>(s: Seq<Scored<T>>, i: int, j: int) -> bool {
    key(s[i]) > key(s[j]) || (key(s[i]) == key(s[j]) && i < j)
}

/// `p` lists the set `m` of indices of `s` once each, in ranking order.
pub open spec fn lists<T>(s: Seq<Scored<T>>, p: Seq<int>, m: Set<int>) -> bool {
    &&& forall|k: int| 0 <= k < p.len() ==> m.contains(#[trigger] p[k])
    &&& forall|j: int| m.contains(j) ==> exists|k: int| 0 <= k < p.len() && #[trigger] p[k] == j
    &&& forall|a: int, b: int| #![trigger p[a], p[b]] 0 <= a < b < p.len() ==> precedes(s, p[a], p[b])
}

/// Two listings of one set in ranking order are the same listing.
proof fn lemma_listing_unique<T>(s: Seq<Scored<T>>, p: Seq<int>, q: Seq<int>, m: Set<int>)
    requires
        lists(s, p, m),
        lists(s, q, m),
    ensures
        p == q,
    decreases p.len(),
{
    if p.len() == 0 {
        if q.len() > 0 {
            assert(m.contains(q[0]));
            let k = choose|k: int| 0 <= k < p.len() && p[k] == q[0];
        }
        assert(p =~= q);
    } else {
        assert(m.contains(p[0]));
        let k = choose|k: int| 0 <= k < q.len() && q[k] == p[0];
        if k > 0 {
            assert(m.contains(q[0]));
            let l = choose|l: int| 0 <= l < p.len() && p[l] == q[0];
            assert(precedes(s, q[0], q[k]));
            if l == 0 {
                assert(precedes(s, q[0], q[0]));
            } else {
                assert(precedes(s, p[0], p[l]));
            }
        }
        assert(q.len() > 0 && q[0] == p[0]);
        let x = p[0];
        let m2 = m.remove(x);
        let p2 = p.drop_first();
        let q2 = q.drop_first();
        assert forall|k: int| 0 <= k < p2.len() implies m2.contains(#[trigger] p2[k]) by {
            assert(p2[k] == p[k + 1]);
            assert(precedes(s, p[0], p[k + 1]));
        }
        assert forall|k: int| 0 <= k < q2.len() implies m2.contains(#[trigger] q2[k]) by {
            assert(q2[k] == q[k + 1]);
            assert(precedes(s, q[0], q[k + 1]));
        }
        assert forall|j: int| m2.contains(j) implies exists|k: int| 0 <= k < p2.len() && #[trigger] p2[k] == j by {
            let k = choose|k: int| 0 <= k < p.len() && p[k] == j;
            assert(k != 0);
            assert(p2[k - 1] == j);
        }
        assert forall|j: int| m2.contains(j) implies exists|k: int| 0 <= k < q2.len() && #[trigger] q2[k] == j by {
            let k = choose|k: int| 0 <= k < q.len() && q[k] == j;
            assert(k != 0);
            assert(q2[k - 1] == j);
        }
        assert forall|a: int, b: int| #![trigger p2[a], p2[b]] 0 <= a < b < p2.len() implies precedes(
            s,
            p2[a],
            p2[b],
        ) by {
            assert(p2[a] == p[a + 1] && p2[b] == p[b + 1]);
        }
        assert forall|a: int, b: int| #![trigger q2[a], q2[b]] 0 <= a < b < q2.len() implies precedes(
            s,
            q2[a],
            q2[b],
        ) by {
            assert(q2[a] == q[a + 1] && q2[b] == q[b + 1]);
        }
        lemma_listing_unique(s, p2, q2, m2);
        assert(p =~= q) by {
            assert forall|k: int| 0 <= k < p.len() implies p[k] == q[k] by {
                if k > 0 {
                    assert(p[k] == p2[k - 1] && q[k] == q2[k - 1]);
                }
            }
        }
    }
}

/// The positions of a ranking list the admitted indices in ranking order.
proof fn lemma_ranking_lists<T>(s: Seq<Scored<T>>, r: Seq<Scored<T>>, pos: Seq<int>, positive_only: bool)
    requires
        ranked_suffix(s, r, pos, 0, positive_only),
    ensures
        lists(s, pos, Set::new(|j: int| 0 <= j < s.len() && admitted(s[j], positive_only))),
{
    let m = Set::new(|j: int| 0 <= j < s.len() && admitted(s[j], positive_only));
    assert forall|j: int| m.contains(j) implies exists|k: int| 0 <= k < pos.len() && #[trigger] pos[k] == j by {
        assert(admitted(s[j], positive_only));
    }
    assert forall|a: int, b: int| #![trigger pos[a], pos[b]] 0 <= a < b < pos.len() implies precedes(
        s,
        pos[a],
        pos[b],
    ) by {
        assert(key(r[a]) >= key(r[b]));
        assert(pos[a] != pos[b]);
    }
}

/// A ranking is determined by what it ranks: two rankings of the same items
/// are equal.
pub proof fn lemma_ranking_unique<T>(
    s: Seq<Scored<T>>,
    r1: Seq<Scored<T>>,
    r2: Seq<Scored<T>>,
    positive_only: bool,
)
    requires
        is_ranking(s, r1, positive_only),
        is_ranking(s, r2, positive_only),
    ensures
        r1 == r2,
{
    let p1 = choose|pos: Seq<int>| ranked_suffix(s, r1, pos, 0, positive_only);
    let p2 = choose|pos: Seq<int>| ranked_suffix(s, r2, pos, 0, positive_only);
    let m = Set::new(|j: int| 0 <= j < s.len() && admitted(s[j], positive_only));
    lemma_ranking_lists(s, r1, p1, positive_only);
    lemma_ranking_lists(s, r2, p2, positive_only);
    lemma_listing_unique(s, p1, p2, m);
    assert(r1 =~= r2) by {
        assert forall|k: int| 0 <= k < r1.len() implies r1[k] == r2[k] by {
            assert(r1[k] == s[p1[k]]);
            assert(r2[k] == s[p2[k]]);
        }
    }
}

} // verus!
