//! Character-level helpers on strings, each stated over `Seq<char>`.

use vstd::prelude::*;
use vstd::string::*;

verus! {

broadcast use vstd::string::group_string_axioms;

/// Appends one character to a string (`String::push`).
#[verifier::external_body]
pub(crate) fn push_char(s: &mut String, c: char)
    ensures
        final(s)@ == old(s)@.push(c),
{
    s.push(c);
}

/// The characters of `s`, in order.
pub fn chars_of(s: &str) -> (r: Vec<char>)
    ensures
        r@ == s@,
{
    let mut r: Vec<char> = Vec::new();
    for c in it: s.chars()
        invariant
            r@ == it.seq().take(it.index() as int),
    {
        r.push(c);
    }
    r
}

/// A string holding exactly the characters of `cs`.
pub fn string_of(cs: &Vec<char>) -> (r: String)
    ensures
        r@ == cs@,
{
    let mut r = String::new();
    let mut i: usize = 0;
    while i < cs.len()
        invariant
            i <= cs.len(),
            r@ == cs@.take(i as int),
        decreases cs.len() - i,
    {
        push_char(&mut r, cs[i]);
        assert(cs@.take(i as int).push(cs@[i as int]) =~= cs@.take(i + 1));
        i = i + 1;
    }
    assert(cs@.take(cs.len() as int) =~= cs@);
    r
}


/// Whether `c` has the Unicode `White_Space` property, which is what
/// `char::is_whitespace` (and so `str::trim`) tests.
pub open spec fn is_white_space(c: char) -> bool {
    let u = c as u32;
    ||| 0x09 <= u <= 0x0D
    ||| u == 0x20
    ||| u == 0x85
    ||| u == 0xA0
    ||| u == 0x1680
    ||| 0x2000 <= u <= 0x200A
    ||| u == 0x2028
    ||| u == 0x2029
    ||| u == 0x202F
    ||| u == 0x205F
    ||| u == 0x3000
}

/// Executable form of [`is_white_space`].
pub fn is_white_space_char(c: char) -> (b: bool)
    ensures
        b == is_white_space(c),
{
    let u = c as u32;
    (0x09 <= u && u <= 0x0D) || u == 0x20 || u == 0x85 || u == 0xA0 || u == 0x1680 || (0x2000
        <= u && u <= 0x200A) || u == 0x2028 || u == 0x2029 || u == 0x202F || u == 0x205F || u
        == 0x3000
}

/// `s` with leading and trailing white space removed (as `str::trim` does).
pub open spec fn trim(s: Seq<char>) -> Seq<char>
    decreases s.len(),
{
    if s.len() > 0 && is_white_space(s[0]) {
        trim(s.drop_first())
    } else if s.len() > 0 && is_white_space(s.last()) {
        trim(s.drop_last())
    } else {
        s
    }
}

/// The characters of `s[lo..hi]` after trimming white space at both ends.
pub fn trim_range(s: &Vec<char>, lo: usize, hi: usize) -> (r: Vec<char>)
    requires
        lo <= hi <= s.len(),
    ensures
        r@ == trim(s@.subrange(lo as int, hi as int)),
{
    let mut a = lo;
    let mut b = hi;
    while a < b
        invariant
            lo <= a <= b <= hi <= s.len(),
            trim(s@.subrange(a as int, b as int)) == trim(s@.subrange(lo as int, hi as int)),
        ensures
            lo <= a <= b <= hi <= s.len(),
            trim(s@.subrange(a as int, b as int)) == trim(s@.subrange(lo as int, hi as int)),
            a < b ==> !is_white_space(s@[a as int]) && !is_white_space(s@[b - 1]),
        decreases b - a,
    {
        let ghost cur = s@.subrange(a as int, b as int);
        if is_white_space_char(s[a]) {
            assert(cur.drop_first() =~= s@.subrange(a + 1, b as int));
            a = a + 1;
        } else if is_white_space_char(s[b - 1]) {
            assert(cur.drop_last() =~= s@.subrange(a as int, b - 1));
            b = b - 1;
        } else {
            break;
        }
    }
    let mut r: Vec<char> = Vec::new();
    let mut i = a;
    while i < b
        invariant
            a <= i <= b <= s.len(),
            r@ =~= s@.subrange(a as int, i as int),
        decreases b - i,
    {
        r.push(s[i]);
        i = i + 1;
    }
    proof {
        let cur = s@.subrange(a as int, b as int);
        if a < b {
            assert(cur[0] == s@[a as int]);
            assert(cur.last() == s@[b - 1]);
        }
    }
    r
}

/// The pieces of `s` between occurrences of `sep`, as `str::split` with a
/// character pattern yields them (`n` separators give `n + 1` pieces).
pub open spec fn split(s: Seq<char>, sep: char) -> Seq<Seq<char>>
    decreases s.len(),
{
    if s.len() == 0 {
        seq![Seq::<char>::empty()]
    } else {
        let pieces = split(s.drop_last(), sep);
        if s.last() == sep {
            pieces.push(Seq::<char>::empty())
        } else {
            pieces.update(pieces.len() - 1, pieces.last().push(s.last()))
        }
    }
}

/// `split` always yields at least one piece.
pub proof fn lemma_split_nonempty(s: Seq<char>, sep: char)
    ensures
        split(s, sep).len() >= 1,
    decreases s.len(),
{
    if s.len() > 0 {
        lemma_split_nonempty(s.drop_last(), sep);
    }
}


/// The pieces of `s` that the index ranges `ranges` delimit.
pub open spec fn pieces(s: Seq<char>, ranges: Seq<(usize, usize)>) -> Seq<Seq<char>> {
    Seq::new(ranges.len(), |k: int| s.subrange(ranges[k].0 as int, ranges[k].1 as int))
}

/// Index ranges of the pieces of `s` between occurrences of `sep`.
pub fn split_ranges(s: &Vec<char>, sep: char) -> (r: Vec<(usize, usize)>)
    ensures
        pieces(s@, r@) == split(s@, sep),
        forall|k: int| 0 <= k < r.len() ==> (#[trigger] r@[k]).0 <= r@[k].1 && r@[k].1 <= s.len(),
{
    let mut r: Vec<(usize, usize)> = Vec::new();
    let mut start: usize = 0;
    let mut i: usize = 0;
    assert(s@.take(0) =~= Seq::<char>::empty());
    assert(pieces(s@, r@).push(s@.subrange(0, 0)) =~= seq![Seq::<char>::empty()]);
    while i < s.len()
        invariant
            start <= i <= s.len(),
            forall|k: int| 0 <= k < r.len() ==> (#[trigger] r@[k]).0 <= r@[k].1 && r@[k].1 <= start,
            split(s@.take(i as int), sep) == pieces(s@, r@).push(s@.subrange(start as int, i as int)),
        decreases s.len() - i,
    {
        let ghost prev = s@.take(i as int);
        let ghost ps = pieces(s@, r@);
        assert(s@.take(i + 1).drop_last() =~= prev);
        assert(s@.take(i + 1).last() == s@[i as int]);
        if s[i] == sep {
            let ghost before = r@;
            r.push((start, i));
            assert forall|k: int| 0 <= k < r.len() implies (#[trigger] r@[k]).0 <= r@[k].1 && r@[k].1 <= i + 1 by {
                if k < before.len() {
                    assert(r@[k] == before[k]);
                }
            }
            assert(pieces(s@, r@) =~= ps.push(s@.subrange(start as int, i as int)));
            start = i + 1;
            assert(s@.subrange(start as int, start as int) =~= Seq::<char>::empty());
        } else {
            assert(s@.subrange(start as int, i + 1) =~= s@.subrange(start as int, i as int).push(
                s@[i as int],
            ));
            assert(ps.push(s@.subrange(start as int, i as int)).update(
                ps.len() as int,
                s@.subrange(start as int, i + 1),
            ) =~= ps.push(s@.subrange(start as int, i + 1)));
        }
        i = i + 1;
    }
    let ghost ps = pieces(s@, r@);
    let ghost before = r@;
    r.push((start, i));
    assert forall|k: int| 0 <= k < r.len() implies (#[trigger] r@[k]).0 <= r@[k].1 && r@[k].1 <= s.len() by {
        if k < before.len() {
            assert(r@[k] == before[k]);
        }
    }
    assert(pieces(s@, r@) =~= ps.push(s@.subrange(start as int, i as int)));
    assert(s@.take(s.len() as int) =~= s@);
    r
}

/// The pieces `ps` joined with `sep` between consecutive pieces.
pub open spec fn join(ps: Seq<Seq<char>>, sep: char) -> Seq<char>
    decreases ps.len(),
{
    if ps.len() == 0 {
        Seq::<char>::empty()
    } else if ps.len() == 1 {
        ps[0]
    } else {
        join(ps.drop_last(), sep).push(sep) + ps.last()
    }
}

/// Splitting on a separator yields pieces that hold no separator and that
/// join back into the string.
pub proof fn lemma_split_join(s: Seq<char>, sep: char)
    ensures
        join(split(s, sep), sep) == s,
        forall|k: int, i: int|
            0 <= k < split(s, sep).len() && 0 <= i < split(s, sep)[k].len() ==> #[trigger] split(
                s,
                sep,
            )[k][i] != sep,
    decreases s.len(),
{
    lemma_split_nonempty(s, sep);
    if s.len() == 0 {
        assert(join(split(s, sep), sep) =~= s);
    } else {
        let t = s.drop_last();
        let c = s.last();
        let p = split(t, sep);
        lemma_split_join(t, sep);
        lemma_split_nonempty(t, sep);
        let n = p.len() as int;
        if c == sep {
            let q = p.push(Seq::<char>::empty());
            assert(q.drop_last() =~= p);
            assert(join(q, sep) =~= join(p, sep).push(sep) + Seq::<char>::empty());
            assert(t.push(c) =~= s);
            assert(join(q, sep) =~= s);
        } else {
            let q = p.update(n - 1, p[n - 1].push(c));
            if n == 1 {
                assert(join(q, sep) == q[0]);
                assert(join(q, sep) =~= s);
            } else {
                assert(q.drop_last() =~= p.drop_last());
                assert(join(q, sep) =~= join(p.drop_last(), sep).push(sep) + p.last().push(c));
                assert(join(p, sep) == join(p.drop_last(), sep).push(sep) + p.last());
                assert(join(q, sep) =~= s);
            }
            assert forall|k: int, i: int|
                0 <= k < q.len() && 0 <= i < q[k].len() implies #[trigger] q[k][i] != sep by {
                if k < n - 1 {
                    assert(q[k] == p[k]);
                } else if i < p[n - 1].len() {
                    assert(q[k][i] == p[n - 1][i]);
                }
            }
        }
    }
}

/// A trimmed string is empty or starts and ends with a character that is
/// not white space.
pub proof fn lemma_trim_ends(s: Seq<char>)
    ensures
        trim(s).len() > 0 ==> !is_white_space(trim(s)[0]) && !is_white_space(trim(s).last()),
        forall|i: int| 0 <= i < trim(s).len() ==> exists|j: int| 0 <= j < s.len() && s[j] == #[trigger] trim(s)[i],
    decreases s.len(),
{
    if s.len() > 0 && is_white_space(s[0]) {
        lemma_trim_ends(s.drop_first());
        assert forall|i: int| 0 <= i < trim(s).len() implies exists|j: int| 0 <= j < s.len() && s[j]
            == #[trigger] trim(s)[i] by {
            let j = choose|j: int| 0 <= j < s.drop_first().len() && s.drop_first()[j] == trim(s)[i];
            assert(s[j + 1] == trim(s)[i]);
        }
    } else if s.len() > 0 && is_white_space(s.last()) {
        lemma_trim_ends(s.drop_last());
        assert forall|i: int| 0 <= i < trim(s).len() implies exists|j: int| 0 <= j < s.len() && s[j]
            == #[trigger] trim(s)[i] by {
            let j = choose|j: int| 0 <= j < s.drop_last().len() && s.drop_last()[j] == trim(s)[i];
            assert(s[j] == trim(s)[i]);
        }
    } else {
        assert forall|i: int| 0 <= i < trim(s).len() implies exists|j: int| 0 <= j < s.len() && s[j]
            == #[trigger] trim(s)[i] by {
            assert(s[i] == trim(s)[i]);
        }
    }
}

/// Trimming twice is trimming once.
pub proof fn lemma_trim_idempotent(s: Seq<char>)
    ensures
        trim(trim(s)) == trim(s),
{
    lemma_trim_ends(s);
}

/// `ts` without its empty members, in order.
pub open spec fn keep_nonempty(ts: Seq<Seq<char>>) -> Seq<Seq<char>>
    decreases ts.len(),
{
    if ts.len() == 0 {
        Seq::<Seq<char>>::empty()
    } else if ts.last().len() > 0 {
        keep_nonempty(ts.drop_last()).push(ts.last())
    } else {
        keep_nonempty(ts.drop_last())
    }
}

/// The members of `keep_nonempty(ts)` are non-empty members of `ts`.
pub proof fn lemma_keep_nonempty_members(ts: Seq<Seq<char>>)
    ensures
        forall|i: int| 0 <= i < keep_nonempty(ts).len() ==> (#[trigger] keep_nonempty(ts)[i]).len() > 0
            && exists|j: int| 0 <= j < ts.len() && ts[j] == keep_nonempty(ts)[i],
        (exists|j: int| 0 <= j < ts.len() && (#[trigger] ts[j]).len() > 0) ==> keep_nonempty(ts).len() > 0,
    decreases ts.len(),
{
    if ts.len() > 0 {
        lemma_keep_nonempty_members(ts.drop_last());
        if exists|j: int| 0 <= j < ts.len() && (#[trigger] ts[j]).len() > 0 {
            let j = choose|j: int| 0 <= j < ts.len() && (#[trigger] ts[j]).len() > 0;
            if j < ts.len() - 1 {
                assert(ts.drop_last()[j] == ts[j]);
            }
        }
        let k = keep_nonempty(ts);
        let k0 = keep_nonempty(ts.drop_last());
        assert forall|i: int| 0 <= i < k.len() implies (#[trigger] k[i]).len() > 0 && exists|j: int|
            0 <= j < ts.len() && ts[j] == k[i] by {
            if i < k0.len() {
                assert(k[i] == k0[i]);
                let j = choose|j: int| 0 <= j < ts.drop_last().len() && ts.drop_last()[j] == k0[i];
                assert(ts[j] == k[i]);
            } else {
                assert(k[i] == ts.last());
                assert(ts[ts.len() - 1] == k[i]);
            }
        }
    }
}

/// Dropping the empty members keeps exactly the non-empty ones, in order.
pub proof fn lemma_keep_nonempty_filters(ts: Seq<Seq<char>>)
    ensures
        keep_nonempty(ts) == ts.filter(|t: Seq<char>| t.len() > 0),
    decreases ts.len(),
{
    reveal(Seq::filter);
    if ts.len() > 0 {
        lemma_keep_nonempty_filters(ts.drop_last());
    }
}

/// `s[lo..hi]` is an unbroken run of `s` with only white space before and
/// after it, which neither starts nor ends with white space.
pub open spec fn is_inner_run(s: Seq<char>, lo: int, hi: int) -> bool {
    &&& 0 <= lo <= hi <= s.len()
    &&& forall|i: int| 0 <= i < lo ==> is_white_space(#[trigger] s[i])
    &&& forall|i: int| hi <= i < s.len() ==> is_white_space(#[trigger] s[i])
    &&& lo < hi ==> !is_white_space(s[lo]) && !is_white_space(s[hi - 1])
}

/// Trimming keeps the inner run of `s`: what remains once the white space
/// before and after it is removed, at the bounds this gives.
pub proof fn lemma_trim_is_inner_run(s: Seq<char>) -> (b: (int, int))
    ensures
        is_inner_run(s, b.0, b.1),
        trim(s) == s.subrange(b.0, b.1),
    decreases s.len(),
{
    if s.len() > 0 && is_white_space(s[0]) {
        let t = s.drop_first();
        let (lo, hi) = lemma_trim_is_inner_run(t);
        assert(trim(s) =~= s.subrange(lo + 1, hi + 1));
        assert forall|i: int| 0 <= i < lo + 1 implies is_white_space(#[trigger] s[i]) by {
            if i > 0 {
                assert(s[i] == t[i - 1]);
            }
        }
        assert forall|i: int| hi + 1 <= i < s.len() implies is_white_space(#[trigger] s[i]) by {
            assert(s[i] == t[i - 1]);
        }
        if lo < hi {
            assert(s[lo + 1] == t[lo]);
            assert(s[hi] == t[hi - 1]);
        }
        (lo + 1, hi + 1)
    } else if s.len() > 0 && is_white_space(s.last()) {
        let t = s.drop_last();
        let (lo, hi) = lemma_trim_is_inner_run(t);
        assert(trim(s) =~= s.subrange(lo, hi));
        assert forall|i: int| 0 <= i < lo implies is_white_space(#[trigger] s[i]) by {
            assert(s[i] == t[i]);
        }
        assert forall|i: int| hi <= i < s.len() implies is_white_space(#[trigger] s[i]) by {
            if i < s.len() - 1 {
                assert(s[i] == t[i]);
            }
        }
        if lo < hi {
            assert(s[lo] == t[lo]);
            assert(s[hi - 1] == t[hi - 1]);
        }
        (lo, hi)
    } else {
        assert(trim(s) =~= s.subrange(0, s.len() as int));
        (0, s.len() as int)
    }
}

/// Whether `a` comes before `b` in the order of `String`: at the first
/// character where they differ the smaller code point comes first (which is
/// the order of their UTF-8 bytes), and a proper prefix comes first.
pub open spec fn text_less(a: Seq<char>, b: Seq<char>) -> bool
    decreases a.len(),
{
    if a.len() == 0 {
        b.len() > 0
    } else if b.len() == 0 {
        false
    } else if a[0] != b[0] {
        (a[0] as u32) < (b[0] as u32)
    } else {
        text_less(a.drop_first(), b.drop_first())
    }
}

/// The views of a sequence of strings.
pub open spec fn views(v: Seq<String>) -> Seq<Seq<char>> {
    v.map_values(|x: String| x@)
}

/// The views of an optional string.
pub open spec fn opt_view(o: Option<String>) -> Option<Seq<char>> {
    match o {
        Some(x) => Some(x@),
        None => None,
    }
}


/// Whether two strings hold the same characters.
pub fn same_text(a: &str, b: &str) -> (r: bool)
    ensures
        r == (a@ == b@),
{
    let x = chars_of(a);
    let y = chars_of(b);
    if x.len() != y.len() {
        assert(x@.len() != y@.len());
        return false;
    }
    let mut i: usize = 0;
    while i < x.len()
        invariant
            x@ == a@,
            y@ == b@,
            x.len() == y.len(),
            i <= x.len(),
            forall|k: int| 0 <= k < i ==> x@[k] == y@[k],
        decreases x.len() - i,
    {
        if x[i] != y[i] {
            assert(x@[i as int] != y@[i as int]);
            return false;
        }
        i = i + 1;
    }
    assert(x@ =~= y@);
    true
}

/// What `str::to_lowercase` returns for a string with the characters `s`.
pub uninterp spec fn lowercase(s: Seq<char>) -> Seq<char>;

/// `str::to_lowercase`: the Unicode lower-case mapping of `s`.
#[verifier::external_body]
pub(crate) fn to_lowercase_string(s: &str) -> (r: String)
    ensures
        r@ == lowercase(s@),
{
    s.to_lowercase()
}

/// Whether `c` is an ASCII decimal digit.
pub open spec fn is_digit(c: char) -> bool {
    '0' <= c <= '9'
}

/// Whether every character of `d` is an ASCII decimal digit.
pub open spec fn all_digits(d: Seq<char>) -> bool {
    forall|i: int| 0 <= i < d.len() ==> is_digit(#[trigger] d[i])
}

/// The number that the decimal digits `d` spell.
pub open spec fn decimal_value(d: Seq<char>) -> nat
    decreases d.len(),
{
    if d.len() == 0 {
        0
    } else {
        decimal_value(d.drop_last()) * 10 + ((d.last() as nat) - ('0' as nat)) as nat
    }
}

/// The digits of an unsigned number: `s` without one leading `+`.
pub open spec fn unsigned_digits(s: Seq<char>) -> Seq<char> {
    if s.len() > 0 && s[0] == '+' {
        s.drop_first()
    } else {
        s
    }
}

/// What `s.parse::<usize>().ok()` gives: an optional `+` followed by at
/// least one decimal digit, with a value that fits.
pub open spec fn parsed_usize(s: Seq<char>) -> Option<usize> {
    let d = unsigned_digits(s);
    if d.len() > 0 && all_digits(d) && decimal_value(d) <= usize::MAX {
        Some(decimal_value(d) as usize)
    } else {
        None
    }
}

/// What `s.parse::<i64>().ok()` gives: an optional `+` or `-` followed by at
/// least one decimal digit, with a value that fits.
pub open spec fn parsed_i64(s: Seq<char>) -> Option<i64> {
    if s.len() > 0 && s[0] == '-' {
        let d = s.drop_first();
        if d.len() > 0 && all_digits(d) && decimal_value(d) <= 0x8000_0000_0000_0000 {
            Some((0 - decimal_value(d)) as i64)
        } else {
            None
        }
    } else {
        let d = unsigned_digits(s);
        if d.len() > 0 && all_digits(d) && decimal_value(d) <= i64::MAX {
            Some(decimal_value(d) as i64)
        } else {
            None
        }
    }
}

/// Digits never make a number smaller as more of them are read.
pub proof fn lemma_decimal_prefix_le(d: Seq<char>, i: int)
    requires
        0 <= i <= d.len(),
        all_digits(d),
    ensures
        decimal_value(d.take(i)) <= decimal_value(d),
    decreases d.len(),
{
    if i < d.len() {
        let p = d.drop_last();
        assert(all_digits(p)) by {
            assert forall|k: int| 0 <= k < p.len() implies is_digit(#[trigger] p[k]) by {
                assert(p[k] == d[k]);
            }
        }
        lemma_decimal_prefix_le(p, i);
        assert(p.take(i) =~= d.take(i));
    } else {
        assert(d.take(i) =~= d);
    }
}

/// The value of the digits `cs[from..]` when they are all digits, there is at
/// least one, and the value is at most `bound`.
fn digits_value(cs: &Vec<char>, from: usize, bound: u128) -> (r: Option<u128>)
    requires
        from <= cs.len(),
        bound <= 0x1_0000_0000_0000_0000,
    ensures
        ({
            let d = cs@.subrange(from as int, cs.len() as int);
            if d.len() > 0 && all_digits(d) && decimal_value(d) <= bound {
                r == Some(decimal_value(d) as u128)
            } else {
                r is None
            }
        }),
{
    let ghost d = cs@.subrange(from as int, cs.len() as int);
    if from == cs.len() {
        return None;
    }
    let mut i = from;
    while i < cs.len()
        invariant
            from <= i <= cs.len(),
            d == cs@.subrange(from as int, cs.len() as int),
            forall|k: int| from <= k < i ==> is_digit(#[trigger] cs@[k]),
        decreases cs.len() - i,
    {
        if cs[i] < '0' || cs[i] > '9' {
            assert(!is_digit(d[i - from]));
            return None;
        }
        i = i + 1;
    }
    assert(all_digits(d)) by {
        assert forall|k: int| 0 <= k < d.len() implies is_digit(#[trigger] d[k]) by {
            assert(d[k] == cs@[from + k]);
        }
    }
    let mut acc: u128 = 0;
    let mut j = from;
    assert(d.take(0) =~= Seq::<char>::empty());
    while j < cs.len()
        invariant
            from <= j <= cs.len(),
            d == cs@.subrange(from as int, cs.len() as int),
            all_digits(d),
            acc == decimal_value(d.take(j - from)),
            acc <= bound,
            bound <= 0x1_0000_0000_0000_0000,
        decreases cs.len() - j,
    {
        let c = cs[j];
        assert(d.take(j - from + 1).drop_last() =~= d.take(j - from));
        assert(d.take(j - from + 1).last() == c);
        assert(is_digit(d[j - from]));
        let dv = (c as u32 - '0' as u32) as u128;
        acc = acc * 10 + dv;
        if acc > bound {
            proof {
                lemma_decimal_prefix_le(d, j - from + 1);
            }
            return None;
        }
        j = j + 1;
    }
    assert(d.take(d.len() as int) =~= d);
    Some(acc)
}

/// `s.parse::<usize>().ok()`.
pub fn parse_usize(s: &str) -> (r: Option<usize>)
    ensures
        r == parsed_usize(s@),
{
    let cs = chars_of(s);
    let from: usize = if cs.len() > 0 && cs[0] == '+' { 1 } else { 0 };
    assert(cs@.subrange(from as int, cs.len() as int) =~= unsigned_digits(s@));
    match digits_value(&cs, from, usize::MAX as u128) {
        Some(v) => Some(v as usize),
        None => None,
    }
}

/// `s.parse::<i64>().ok()`.
pub fn parse_i64(s: &str) -> (r: Option<i64>)
    ensures
        r == parsed_i64(s@),
{
    let cs = chars_of(s);
    if cs.len() > 0 && cs[0] == '-' {
        assert(cs@.subrange(1, cs.len() as int) =~= s@.drop_first());
        match digits_value(&cs, 1, 0x8000_0000_0000_0000) {
            Some(v) => Some((0 - (v as i128)) as i64),
            None => None,
        }
    } else {
        let from: usize = if cs.len() > 0 && cs[0] == '+' { 1 } else { 0 };
        assert(cs@.subrange(from as int, cs.len() as int) =~= unsigned_digits(s@));
        match digits_value(&cs, from, 0x7FFF_FFFF_FFFF_FFFF) {
            Some(v) => Some(v as i64),
            None => None,
        }
    }
}


/// The decimal digit character for `d < 10`.
pub open spec fn digit_char(d: nat) -> char {
    (48 + d) as char
}

/// The decimal representation of `n`, as `Display` writes it.
pub open spec fn decimal(n: nat) -> Seq<char>
    decreases n,
{
    if n < 10 {
        seq![digit_char(n)]
    } else {
        decimal(n / 10).push(digit_char(n % 10))
    }
}

/// The decimal representation of the integer `n`, with a leading `-` when
/// it is negative.
pub open spec fn decimal_int(n: int) -> Seq<char> {
    if n < 0 {
        seq!['-'] + decimal((0 - n) as nat)
    } else {
        decimal(n as nat)
    }
}

/// Writes `n` in decimal.
pub fn format_u64(n: u64) -> (r: String)
    ensures
        r@ == decimal(n as nat),
    decreases n,
{
    let d = (n % 10) as u8;
    let c = (48u8 + d) as char;
    if n < 10 {
        let mut s = String::new();
        push_char(&mut s, c);
        assert(s@ =~= seq![digit_char(n as nat)]);
        s
    } else {
        let mut s = format_u64(n / 10);
        push_char(&mut s, c);
        s
    }
}

/// Writes `n` in decimal.
pub fn format_usize(n: usize) -> (r: String)
    ensures
        r@ == decimal(n as nat),
{
    format_u64(n as u64)
}

/// Writes `n` in decimal.
pub fn format_i64(n: i64) -> (r: String)
    ensures
        r@ == decimal_int(n as int),
{
    if n < 0 {
        let m = (0 - (n as i128)) as u64;
        let mut s = String::new();
        push_char(&mut s, '-');
        let digits = format_u64(m);
        s.append(digits.as_str());
        assert(s@ =~= seq!['-'] + decimal(m as nat));
        s
    } else {
        format_u64(n as u64)
    }
}

/// Every character of a decimal representation is a digit, the first one
/// is not a sign, and the digits spell the number back.
pub proof fn lemma_decimal_digits(n: nat)
    ensures
        decimal(n).len() > 0,
        all_digits(decimal(n)),
        decimal_value(decimal(n)) == n,
        decimal(n)[0] != '+' && decimal(n)[0] != '-',
    decreases n,
{
    assert((digit_char(n % 10) as nat) == 48 + n % 10);
    assert(('0' as nat) == 48);
    if n >= 10 {
        lemma_decimal_digits(n / 10);
        let d = decimal(n);
        assert(d.last() == digit_char(n % 10));
        assert(d.drop_last() =~= decimal(n / 10));
        assert forall|i: int| 0 <= i < d.len() implies is_digit(#[trigger] d[i]) by {
            if i < d.len() - 1 {
                assert(d[i] == decimal(n / 10)[i]);
            }
        }
        assert(d[0] == decimal(n / 10)[0]);
        assert(decimal_value(d) == decimal_value(decimal(n / 10)) * 10 + n % 10);
    } else {
        assert(decimal(n).drop_last() =~= Seq::<char>::empty());
        assert(decimal_value(decimal(n)) == decimal_value(Seq::<char>::empty()) * 10 + n % 10);
    }
}

/// Parsing the decimal representation of a number gives the number back.
pub proof fn lemma_format_then_parse(n: usize)
    ensures
        parsed_usize(decimal(n as nat)) == Some(n),
{
    lemma_decimal_digits(n as nat);
}

/// Parsing the decimal representation of a signed number gives the number
/// back, negative numbers included.
pub proof fn lemma_format_then_parse_i64(n: i64)
    ensures
        parsed_i64(decimal_int(n as int)) == Some(n),
{
    if n < 0 {
        let m = (0 - n) as nat;
        lemma_decimal_digits(m);
        let s = decimal_int(n as int);
        assert(s[0] == '-');
        assert(s.drop_first() =~= decimal(m));
    } else {
        lemma_decimal_digits(n as nat);
    }
}

} // verus!
