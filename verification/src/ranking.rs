//! Ordering rows of a table: a strict order on rows that tells any two rows
//! with different keys apart, and an insertion sort by it.
//!
//! Tables are keyed by strings (an email, a date, a path).  They are kept as
//! a `Vec` with distinct keys, found by a linear search and put in order by
//! insertion, rather than in a `BTreeMap`: with `String` keys, vstd's
//! specification of the map's methods proves nothing about what a lookup or
//! an insertion does, so no contract about the rows could rest on it.
use vstd::prelude::*;

verus! {

/// The views of a sequence.
pub open spec fn views<T: View>(s: Seq<T>) -> Seq<T::V> {
    s.map_values(|x: T| x@)
}

/// The sum of `f` over `s`.
pub open spec fn sum_by<T>(s: Seq<T>, f: spec_fn(T) -> nat) -> nat
    decreases s.len(),
{
    if s.len() == 0 {
        0
    } else {
        sum_by(s.drop_last(), f) + f(s.last())
    }
}

/// Appending one element adds its value to the sum.
pub proof fn lemma_sum_by_push<T>(s: Seq<T>, x: T, f: spec_fn(T) -> nat)
    ensures
        sum_by(s.push(x), f) == sum_by(s, f) + f(x),
{
    assert(s.push(x).drop_last() =~= s);
}

/// Inserting one element anywhere adds its value to the sum.
pub proof fn lemma_sum_by_insert<T>(s: Seq<T>, k: int, x: T, f: spec_fn(T) -> nat)
    requires
        0 <= k <= s.len(),
    ensures
        sum_by(s.insert(k, x), f) == sum_by(s, f) + f(x),
    decreases s.len(),
{
    if k == s.len() {
        assert(s.insert(k, x) =~= s.push(x));
        lemma_sum_by_push(s, x, f);
    } else {
        let t = s.drop_last();
        lemma_sum_by_insert(t, k, x, f);
        assert(s.insert(k, x) =~= t.insert(k, x).push(s.last()));
        lemma_sum_by_push(t.insert(k, x), s.last(), f);
    }
}

/// Replacing one element changes the sum by the difference of the values.
pub proof fn lemma_sum_by_update<T>(s: Seq<T>, k: int, x: T, f: spec_fn(T) -> nat)
    requires
        0 <= k < s.len(),
    ensures
        sum_by(s.update(k, x), f) + f(s[k]) == sum_by(s, f) + f(x),
    decreases s.len(),
{
    let t = s.drop_last();
    if k == s.len() - 1 {
        assert(s.update(k, x).drop_last() =~= t);
    } else {
        lemma_sum_by_update(t, k, x, f);
        assert(s.update(k, x).drop_last() =~= t.update(k, x));
    }
}

/// Rows that can be put in order.
pub trait Ranked: View + Sized {
    /// What tells two rows apart.
    spec fn rank_key(v: Self::V) -> Seq<char>;

    /// `a` goes strictly before `b`.
    spec fn ranks_before(a: Self::V, b: Self::V) -> bool;

    proof fn lemma_ranks_irreflexive(a: Self::V)
        ensures
            !Self::ranks_before(a, a),
    ;

    proof fn lemma_ranks_transitive(a: Self::V, b: Self::V, c: Self::V)
        requires
            Self::ranks_before(a, b),
            Self::ranks_before(b, c),
        ensures
            Self::ranks_before(a, c),
    ;

    proof fn lemma_ranks_total(a: Self::V, b: Self::V)
        requires
            Self::rank_key(a) != Self::rank_key(b),
        ensures
            Self::ranks_before(a, b) || Self::ranks_before(b, a),
    ;

    /// Whether `self` goes strictly before `other`.
    fn comes_before(&self, other: &Self) -> (res: bool)
        ensures
            res == Self::ranks_before(self@, other@),
    ;

    /// The key of `self`.
    fn key_of(&self) -> (res: &String)
        ensures
            res@ == Self::rank_key(self@),
    ;
}

/// The keys of the rows of `s`.
pub open spec fn keys<T: Ranked>(s: Seq<T::V>) -> Seq<Seq<char>> {
    s.map_values(|v: T::V| T::rank_key(v))
}

/// The position of the row of `table` whose key is `key`, if there is one.
pub fn find_by_key<T: Ranked>(table: &Vec<T>, key: &String) -> (res: Option<usize>)
    ensures
        match res {
            Some(k) => k < table@.len() && T::rank_key(table@[k as int]@) == key@,
            None => !keys::<T>(views(table@)).contains(key@),
        },
{
    let n = table.len();
    for k in 0..n
        invariant
            n == table@.len(),
            forall|b: int| 0 <= b < k ==> T::rank_key(#[trigger] table@[b]@) != key@,
    {
        if *table[k].key_of() == *key {
            return Some(k);
        }
    }
    assert forall|b: int| 0 <= b < keys::<T>(views(table@)).len() implies #[trigger] keys::<T>(
        views(table@),
    )[b] != key@ by {
        assert(keys::<T>(views(table@))[b] == T::rank_key(table@[b]@));
    }
    None
}

/// The rows of `s` stand in strictly increasing order.
pub open spec fn is_ranked<T: Ranked>(s: Seq<T::V>) -> bool {
    forall|i: int, j: int|
        0 <= i < j < s.len() ==> T::ranks_before(#[trigger] s[i], #[trigger] s[j])
}

/// Rows in strictly increasing order are fixed by what they hold: two
/// ordered sequences holding the same rows are equal.
pub proof fn lemma_ranked_unique<T: Ranked>(a: Seq<T::V>, b: Seq<T::V>)
    requires
        is_ranked::<T>(a),
        is_ranked::<T>(b),
        forall|x: T::V| #![trigger a.contains(x)] #![trigger b.contains(x)] a.contains(x) <==> b.contains(x),
    ensures
        a == b,
    decreases a.len(),
{
    if a.len() == 0 {
        if b.len() > 0 {
            assert(b[0] == b[0]);
            assert(b.contains(b[0]));
            assert(a.contains(b[0]));
        }
        assert(a =~= b);
    } else {
        assert(a.contains(a[0]));
        let j = choose|j: int| 0 <= j < b.len() && b[j] == a[0];
        assert(b.contains(b[0]));
        let i = choose|i: int| 0 <= i < a.len() && a[i] == b[0];
        if j > 0 {
            assert(T::ranks_before(b[0], b[j]));
            T::lemma_ranks_irreflexive(b[0]);
            if i > 0 {
                assert(T::ranks_before(a[0], a[i]));
                T::lemma_ranks_transitive(b[0], a[0], b[0]);
            }
            assert(false);
        }
        let ta = a.drop_first();
        let tb = b.drop_first();
        assert forall|x: T::V| #[trigger] ta.contains(x) implies tb.contains(x) by {
            let k = choose|k: int| 0 <= k < ta.len() && ta[k] == x;
            assert(a[k + 1] == x);
            assert(T::ranks_before(a[0], a[k + 1]));
            T::lemma_ranks_irreflexive(x);
            assert(b.contains(x));
            let m = choose|m: int| 0 <= m < b.len() && b[m] == x;
            assert(m != 0);
            assert(tb[m - 1] == x);
        }
        assert forall|x: T::V| #[trigger] tb.contains(x) implies ta.contains(x) by {
            let k = choose|k: int| 0 <= k < tb.len() && tb[k] == x;
            assert(b[k + 1] == x);
            assert(T::ranks_before(b[0], b[k + 1]));
            T::lemma_ranks_irreflexive(x);
            assert(a.contains(x));
            let m = choose|m: int| 0 <= m < a.len() && a[m] == x;
            assert(m != 0);
            assert(ta[m - 1] == x);
        }
        assert forall|i2: int, j2: int| 0 <= i2 < j2 < ta.len() implies T::ranks_before(
            #[trigger] ta[i2],
            #[trigger] ta[j2],
        ) by {
            assert(ta[i2] == a[i2 + 1] && ta[j2] == a[j2 + 1]);
        }
        assert forall|i2: int, j2: int| 0 <= i2 < j2 < tb.len() implies T::ranks_before(
            #[trigger] tb[i2],
            #[trigger] tb[j2],
        ) by {
            assert(tb[i2] == b[i2 + 1] && tb[j2] == b[j2 + 1]);
        }
        lemma_ranked_unique::<T>(ta, tb);
        assert(a =~= seq![a[0]] + ta);
        assert(b =~= seq![b[0]] + tb);
    }
}

/// No two rows of `s` share a key.
pub open spec fn keys_distinct<T: Ranked>(s: Seq<T::V>) -> bool {
    forall|i: int, j: int|
        0 <= i < j < s.len() ==> T::rank_key(#[trigger] s[i]) != T::rank_key(#[trigger] s[j])
}

/// Puts `x` into the ordered rows `res` at the place where it belongs, and
/// tells where that was.
fn insert_in_order<T: Ranked>(res: &mut Vec<T>, x: T) -> (k: usize)
    requires
        is_ranked::<T>(views(old(res)@)),
        forall|b: int|
            0 <= b < old(res)@.len() ==> T::rank_key(#[trigger] views(old(res)@)[b]) != T::rank_key(
                x@,
            ),
    ensures
        k <= old(res)@.len(),
        views(final(res)@) == views(old(res)@).insert(k as int, x@),
        is_ranked::<T>(views(final(res)@)),
{
    let ghost s = views(res@);
    let mut k: usize = 0;
    while k < res.len() && !x.comes_before(&res[k])
        invariant
            k <= res@.len(),
            s == views(res@),
            forall|b: int| 0 <= b < k ==> !T::ranks_before(x@, #[trigger] s[b]),
        decreases res@.len() - k,
    {
        k = k + 1;
    }
    let ghost xv = x@;
    assert(k < s.len() ==> T::ranks_before(xv, s[k as int]));
    res.insert(k, x);
    let ghost s2 = views(res@);
    assert(s2 =~= s.insert(k as int, xv));
    assert forall|p: int, q: int| 0 <= p < q < s2.len() implies T::ranks_before(
        #[trigger] s2[p],
        #[trigger] s2[q],
    ) by {
        if q < k {
            assert(s2[p] == s[p] && s2[q] == s[q]);
        } else if q == k {
            assert(s2[p] == s[p]);
            assert(!T::ranks_before(xv, s[p]));
            assert(T::rank_key(s[p]) != T::rank_key(xv));
            T::lemma_ranks_total(s[p], xv);
        } else if p == k {
            assert(s2[q] == s[q - 1]);
            if q - 1 > k {
                assert(T::ranks_before(s[k as int], s[q - 1]));
                T::lemma_ranks_transitive(xv, s[k as int], s[q - 1]);
            }
        } else if p < k {
            assert(s2[p] == s[p] && s2[q] == s[q - 1]);
        } else {
            assert(s2[p] == s[p - 1] && s2[q] == s[q - 1]);
        }
    }
    k
}

proof fn lemma_placed_from<T: Ranked>(orig: Seq<T::V>, s: Seq<T::V>, s2: Seq<T::V>, k: int, i: int)
    requires
        0 <= i < orig.len(),
        0 <= k <= s.len(),
        s2 == s.insert(k, orig[i]),
        forall|a: int| 0 <= a < s.len() ==> orig.take(i).contains(#[trigger] s[a]),
    ensures
        forall|a: int| 0 <= a < s2.len() ==> orig.take(i + 1).contains(#[trigger] s2[a]),
{
    assert forall|a: int| 0 <= a < s2.len() implies orig.take(i + 1).contains(#[trigger] s2[a]) by {
        let x = s2[a];
        if a == k {
            assert(orig.take(i + 1)[i] == x);
        } else {
            let b = if a < k {
                a
            } else {
                a - 1
            };
            assert(s2[a] == s[b]);
            assert(orig.take(i).contains(s[b]));
            let j = choose|j: int| 0 <= j < orig.take(i).len() && orig.take(i)[j] == s[b];
            assert(orig.take(i + 1)[j] == x);
        }
    }
}

proof fn lemma_placed_all<T: Ranked>(orig: Seq<T::V>, s: Seq<T::V>, s2: Seq<T::V>, k: int, i: int)
    requires
        0 <= i < orig.len(),
        0 <= k <= s.len(),
        s2 == s.insert(k, orig[i]),
        forall|j: int| 0 <= j < i ==> s.contains(#[trigger] orig[j]),
    ensures
        forall|j: int| 0 <= j < i + 1 ==> s2.contains(#[trigger] orig[j]),
{
    assert forall|j: int| 0 <= j < i + 1 implies s2.contains(#[trigger] orig[j]) by {
        if j == i {
            assert(s2[k] == orig[j]);
        } else {
            assert(s.contains(orig[j]));
            let a = choose|a: int| 0 <= a < s.len() && s[a] == orig[j];
            if a < k {
                assert(s2[a] == orig[j]);
            } else {
                assert(s2[a + 1] == orig[j]);
            }
        }
    }
}

proof fn lemma_placed_sums<T: Ranked>(orig: Seq<T::V>, s: Seq<T::V>, s2: Seq<T::V>, k: int, i: int)
    requires
        0 <= i < orig.len(),
        0 <= k <= s.len(),
        s2 == s.insert(k, orig[i]),
        forall|f: spec_fn(T::V) -> nat| #[trigger] sum_by(s, f) == sum_by(orig.take(i), f),
    ensures
        forall|f: spec_fn(T::V) -> nat| #[trigger] sum_by(s2, f) == sum_by(orig.take(i + 1), f),
{
    assert(orig.take(i + 1) =~= orig.take(i).push(orig[i]));
    assert forall|f: spec_fn(T::V) -> nat| #[trigger] sum_by(s2, f) == sum_by(orig.take(i + 1), f) by {
        lemma_sum_by_insert(s, k, orig[i], f);
        lemma_sum_by_push(orig.take(i), orig[i], f);
        assert(sum_by(s, f) == sum_by(orig.take(i), f));
    }
}

/// `s` holds, in order, the first `i` rows of `orig`.
#[verifier::opaque]
spec fn placed<T: Ranked>(orig: Seq<T::V>, s: Seq<T::V>, i: int) -> bool {
    &&& 0 <= i <= orig.len()
    &&& s.len() == i
    &&& is_ranked::<T>(s)
    &&& forall|a: int| 0 <= a < s.len() ==> orig.take(i).contains(#[trigger] s[a])
    &&& forall|j: int| 0 <= j < i ==> s.contains(#[trigger] orig[j])
    &&& forall|f: spec_fn(T::V) -> nat| #[trigger] sum_by(s, f) == sum_by(orig.take(i), f)
}

proof fn lemma_placed_start<T: Ranked>(orig: Seq<T::V>, s: Seq<T::V>)
    requires
        s.len() == 0,
    ensures
        placed::<T>(orig, s, 0),
{
    reveal(placed);
    assert(orig.take(0) =~= s);
}

proof fn lemma_placed_keys<T: Ranked>(orig: Seq<T::V>, s: Seq<T::V>, i: int)
    requires
        placed::<T>(orig, s, i),
        keys_distinct::<T>(orig),
        i < orig.len(),
    ensures
        is_ranked::<T>(s),
        s.len() == i,
        forall|b: int| 0 <= b < s.len() ==> T::rank_key(#[trigger] s[b]) != T::rank_key(orig[i]),
{
    reveal(placed);
    assert forall|b: int| 0 <= b < s.len() implies T::rank_key(#[trigger] s[b]) != T::rank_key(
        orig[i],
    ) by {
        assert(orig.take(i).contains(s[b]));
        let j = choose|j: int| 0 <= j < orig.take(i).len() && orig.take(i)[j] == s[b];
        assert(orig[j] == s[b]);
        assert(T::rank_key(orig[j]) != T::rank_key(orig[i]));
    }
}

proof fn lemma_placed_step<T: Ranked>(orig: Seq<T::V>, s: Seq<T::V>, s2: Seq<T::V>, k: int, i: int)
    requires
        placed::<T>(orig, s, i),
        i < orig.len(),
        0 <= k <= s.len(),
        s2 == s.insert(k, orig[i]),
        is_ranked::<T>(s2),
    ensures
        placed::<T>(orig, s2, i + 1),
{
    reveal(placed);
    lemma_placed_from::<T>(orig, s, s2, k, i);
    lemma_placed_all::<T>(orig, s, s2, k, i);
    lemma_placed_sums::<T>(orig, s, s2, k, i);
}

proof fn lemma_placed_end<T: Ranked>(orig: Seq<T::V>, s: Seq<T::V>)
    requires
        placed::<T>(orig, s, orig.len() as int),
    ensures
        s.len() == orig.len(),
        is_ranked::<T>(s),
        forall|i: int| 0 <= i < s.len() ==> orig.contains(#[trigger] s[i]),
        forall|j: int| 0 <= j < orig.len() ==> s.contains(#[trigger] orig[j]),
        forall|f: spec_fn(T::V) -> nat| #[trigger] sum_by(s, f) == sum_by(orig, f),
{
    reveal(placed);
    assert(orig.take(orig.len() as int) =~= orig);
}

/// The rows of `v` in increasing order: a rearrangement of `v` (each row of
/// the result is a row of `v` and the other way round, and every sum over the
/// rows is kept) in which every row goes before all later ones.
pub fn sort_rows<T: Ranked>(v: Vec<T>) -> (res: Vec<T>)
    requires
        keys_distinct::<T>(views(v@)),
    ensures
        res@.len() == v@.len(),
        is_ranked::<T>(views(res@)),
        forall|i: int| 0 <= i < res@.len() ==> views(v@).contains(#[trigger] views(res@)[i]),
        forall|j: int| 0 <= j < v@.len() ==> views(res@).contains(#[trigger] views(v@)[j]),
        forall|f: spec_fn(T::V) -> nat| #[trigger] sum_by(views(res@), f) == sum_by(views(v@), f),
{
    let ghost orig = views(v@);
    let mut rest = v;
    let mut res: Vec<T> = Vec::new();
    let n = rest.len();
    proof {
        lemma_placed_start::<T>(orig, views(res@));
    }
    assert(views(rest@) =~= orig.skip(0));
    let mut i: usize = 0;
    while i < n
        invariant
            i <= n,
            n == orig.len(),
            keys_distinct::<T>(orig),
            views(rest@) == orig.skip(i as int),
            placed::<T>(orig, views(res@), i as int),
        decreases n - i,
    {
        let ghost s = views(res@);
        let ghost rest_before = rest@;
        assert(rest_before.len() == views(rest_before).len());
        assert(views(rest_before)[0] == orig[i as int]);
        let x = rest.remove(0);
        assert(x@ == orig[i as int]);
        assert forall|k: int| 0 <= k < views(rest@).len() implies #[trigger] views(rest@)[k]
            == orig.skip(i + 1)[k] by {
            assert(rest@[k] == rest_before[k + 1]);
            assert(views(rest_before)[k + 1] == orig.skip(i as int)[k + 1]);
        }
        assert(views(rest@) =~= orig.skip(i + 1));
        proof {
            lemma_placed_keys::<T>(orig, s, i as int);
        }
        let k = insert_in_order(&mut res, x);
        proof {
            lemma_placed_step::<T>(orig, s, views(res@), k as int, i as int);
        }
        i = i + 1;
    }
    proof {
        lemma_placed_end::<T>(orig, views(res@));
    }
    res
}

} // verus!
