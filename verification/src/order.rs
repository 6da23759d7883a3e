//! Ranking and stable sorting.

use vstd::prelude::*;
use vstd::utf8::*;

verus! {

/// Dictionary order: whether `a` comes before `b`.
pub open spec fn before(a: Seq<int>, b: Seq<int>) -> bool
    decreases a.len(),
{
    if b.len() == 0 {
        false
    } else if a.len() == 0 {
        true
    } else {
        a[0] < b[0] || (a[0] == b[0] && before(a.drop_first(), b.drop_first()))
    }
}

/// The rank of a text among texts: its UTF-8 bytes.
pub open spec fn text_rank(s: Seq<char>) -> Seq<int> {
    encode_utf8(s).map_values(|b: u8| b as int)
}

/// Dictionary order is a strict total order.
pub proof fn lemma_order(a: Seq<int>, b: Seq<int>, c: Seq<int>)
    ensures
        !before(a, a),
        before(a, b) ==> !before(b, a),
        before(a, b) && before(b, c) ==> before(a, c),
        !before(a, b) && !before(b, a) ==> a == b,
    decreases a.len() + b.len() + c.len(),
{
    if a.len() > 0 && b.len() > 0 && c.len() > 0 {
        lemma_order(a.drop_first(), b.drop_first(), c.drop_first());
    } else if a.len() > 0 && b.len() > 0 {
        lemma_order(a.drop_first(), b.drop_first(), c);
    } else if a.len() > 0 {
        lemma_order(a.drop_first(), b, c);
    }
    if !before(a, b) && !before(b, a) {
        assert(a.len() == b.len());
        if a.len() > 0 {
            assert(a =~= seq![a[0]] + a.drop_first());
            assert(b =~= seq![b[0]] + b.drop_first());
        } else {
            assert(a =~= b);
        }
    }
}

/// Texts of one rank are the same.
pub proof fn lemma_text_rank_injective(a: Seq<char>, b: Seq<char>)
    requires
        text_rank(a) == text_rank(b),
    ensures
        a == b,
{
    let x = encode_utf8(a);
    let y = encode_utf8(b);
    assert(x.len() == text_rank(a).len());
    assert(y.len() == text_rank(b).len());
    assert forall|i: int| 0 <= i < x.len() implies x[i] == y[i] by {
        assert(text_rank(a)[i] == x[i]);
        assert(text_rank(b)[i] == y[i]);
    }
    assert(x =~= y);
    encode_utf8_decode_utf8(a);
    encode_utf8_decode_utf8(b);
}

/// Whether the text `a` comes before the text `b`.
pub fn text_before(a: &str, b: &str) -> (r: bool)
    ensures
        r == before(text_rank(a@), text_rank(b@)),
{
    let x = a.as_bytes();
    let y = b.as_bytes();
    let ghost p = text_rank(a@);
    let ghost q = text_rank(b@);
    let mut i: usize = 0;
    assert(p.skip(0) =~= p);
    assert(q.skip(0) =~= q);
    while i < x.len() && i < y.len()
        invariant
            p == text_rank(a@),
            q == text_rank(b@),
            x@ == encode_utf8(a@),
            y@ == encode_utf8(b@),
            i <= x@.len(),
            i <= y@.len(),
            before(p, q) == before(p.skip(i as int), q.skip(i as int)),
        decreases x@.len() - i,
    {
        assert(p.skip(i as int)[0] == x@[i as int]);
        assert(q.skip(i as int)[0] == y@[i as int]);
        if x[i] < y[i] {
            return true;
        }
        if y[i] < x[i] {
            return false;
        }
        assert(p.skip(i as int).drop_first() =~= p.skip(i + 1));
        assert(q.skip(i as int).drop_first() =~= q.skip(i + 1));
        i = i + 1;
    }
    i < y.len()
}

/// Items that have a rank by which they are sorted.
pub trait Ranked: View + Sized {
    /// The rank of an item, by what it holds.
    spec fn rank(v: Self::V) -> Seq<int>;

    /// Whether this item comes before `other`.
    fn comes_before(&self, other: &Self) -> (r: bool)
        ensures
            r == before(Self::rank(self@), Self::rank(other@)),
    ;
}

/// What each item holds.
pub open spec fn views<T: View>(s: Seq<T>) -> Seq<T::V> {
    s.map_values(|x: T| x@)
}

/// The ranks that items of a type have.
pub open spec fn ranks<T: Ranked>() -> spec_fn(T::V) -> Seq<int> {
    |v: T::V| T::rank(v)
}

/// No item comes before one that stands ahead of it.
pub open spec fn is_sorted<V>(rank: spec_fn(V) -> Seq<int>, s: Seq<V>) -> bool {
    forall|i: int, j: int|
        0 <= i < j < s.len() ==> !before(rank(#[trigger] s[j]), rank(#[trigger] s[i]))
}

/// Having the rank `k`.
pub open spec fn has_rank<V>(rank: spec_fn(V) -> Seq<int>, k: Seq<int>) -> spec_fn(V) -> bool {
    |x: V| rank(x) == k
}

/// The items of rank `k`, in order.
pub open spec fn with_rank<V>(rank: spec_fn(V) -> Seq<int>, s: Seq<V>, k: Seq<int>) -> Seq<V> {
    s.filter(has_rank(rank, k))
}

/// `out` holds the items of `items` in order of rank, and items of one rank in the order that they
/// had.
pub open spec fn is_stable_sort<V>(
    rank: spec_fn(V) -> Seq<int>,
    items: Seq<V>,
    out: Seq<V>,
) -> bool {
    &&& is_sorted(rank, out)
    &&& out.to_multiset() == items.to_multiset()
    &&& forall|k: Seq<int>| #[trigger] with_rank(rank, out, k) == with_rank(rank, items, k)
}

/// Filtering out every item leaves none.
proof fn lemma_filter_none<V>(s: Seq<V>, p: spec_fn(V) -> bool)
    requires
        forall|j: int| 0 <= j < s.len() ==> !p(#[trigger] s[j]),
    ensures
        s.filter(p) == Seq::<V>::empty(),
    decreases s.len(),
{
    reveal(Seq::filter);
    if s.len() > 0 {
        lemma_filter_none(s.drop_last(), p);
    }
}

/// Inserting an item behind the items that do not come after it keeps the order.
proof fn lemma_insert<V>(rank: spec_fn(V) -> Seq<int>, items: Seq<V>, out: Seq<V>, x: V, pos: int)
    requires
        is_stable_sort(rank, items, out),
        0 <= pos <= out.len(),
        forall|j: int| 0 <= j < pos ==> !before(rank(x), rank(#[trigger] out[j])),
        forall|j: int| pos <= j < out.len() ==> before(rank(x), rank(#[trigger] out[j])),
    ensures
        is_stable_sort(rank, items.push(x), out.insert(pos, x)),
{
    let new = out.insert(pos, x);
    assert forall|i: int, j: int| 0 <= i < j < new.len() implies !before(
        rank(#[trigger] new[j]),
        rank(#[trigger] new[i]),
    ) by {
        lemma_order(rank(new[i]), rank(new[j]), rank(x));
        lemma_order(rank(new[j]), rank(new[i]), rank(x));
        if i < pos && j > pos {
            assert(new[i] == out[i]);
            assert(new[j] == out[j - 1]);
        } else if i < pos && j < pos {
            assert(new[i] == out[i]);
            assert(new[j] == out[j]);
        } else if i > pos {
            assert(new[i] == out[i - 1]);
            assert(new[j] == out[j - 1]);
        } else if i == pos {
            assert(new[j] == out[j - 1]);
        } else {
            assert(new[i] == out[i]);
        }
    }
    broadcast use vstd::seq_lib::group_to_multiset_ensures;

    assert(new.to_multiset() == items.push(x).to_multiset()) by {
        out.to_multiset_ensures();
        items.to_multiset_ensures();
        assert(out.insert(pos, x).to_multiset() == out.to_multiset().insert(x));
    }
    assert forall|k: Seq<int>| #[trigger]
        with_rank(rank, new, k) == with_rank(rank, items.push(x), k) by {
        let p = has_rank(rank, k);
        let head = out.take(pos);
        let tail = out.skip(pos);
        assert(new =~= head + seq![x] + tail);
        assert(out =~= head + tail);
        Seq::filter_distributes_over_add(head + seq![x], tail, p);
        Seq::filter_distributes_over_add(head, seq![x], p);
        Seq::filter_distributes_over_add(head, tail, p);
        Seq::filter_distributes_over_add(items, seq![x], p);
        assert(items.push(x) =~= items + seq![x]);
        assert(with_rank(rank, out, k) == with_rank(rank, items, k));
        if rank(x) == k {
            assert(tail.filter(p) =~= seq![]) by {
                assert forall|j: int| 0 <= j < tail.len() implies !p(#[trigger] tail[j]) by {
                    assert(tail[j] == out[pos + j]);
                    lemma_order(rank(x), rank(x), rank(x));
                }
                lemma_filter_none(tail, p);
            }
            assert(head.filter(p) + seq![] =~= head.filter(p));
            assert((head + seq![x]).filter(p) + seq![] =~= (head + seq![x]).filter(p));
        } else {
            assert(seq![x].filter(p) =~= seq![]) by {
                reveal_with_fuel(Seq::filter, 2);
                assert(seq![x].drop_last() =~= seq![]);
            }
            assert(head.filter(p) + seq![] =~= head.filter(p));
            assert(items.filter(p) + seq![] =~= items.filter(p));
        }
    }
}

/// The items in order of rank. Items of one rank keep the order that they had.
pub fn stable_sort<T: Ranked>(items: Vec<T>) -> (r: Vec<T>)
    ensures
        is_stable_sort(ranks::<T>(), views(items@), views(r@)),
        r@.len() == items@.len(),
{
    let ghost rank = ranks::<T>();
    let ghost all = views(items@);
    let mut out: Vec<T> = Vec::new();
    assert(all.take(0) =~= views(out@));
    for x in it: items.into_iter()
        invariant
            rank == ranks::<T>(),
            all == views(it.seq()),
            is_stable_sort(rank, all.take(it.index()), views(out@)),
            out@.len() == it.index(),
    {
        let ghost i = it.index();
        let ghost held = views(out@);
        let mut pos: usize = out.len();
        while pos > 0 && x.comes_before(&out[pos - 1])
            invariant
                pos <= out@.len(),
                held == views(out@),
                rank == ranks::<T>(),
                forall|j: int| pos <= j < held.len() ==> before(rank(x@), rank(#[trigger] held[j])),
            decreases pos,
        {
            pos = pos - 1;
            assert(held[pos as int] == out@[pos as int]@);
        }
        proof {
            assert forall|j: int| 0 <= j < pos implies !before(
                rank(x@),
                rank(#[trigger] held[j]),
            ) by {
                let last = held[pos - 1];
                assert(last == out@[pos - 1]@);
                lemma_order(rank(x@), rank(held[j]), rank(last));
                lemma_order(rank(last), rank(held[j]), rank(x@));
                lemma_order(rank(held[j]), rank(last), rank(x@));
            }
            lemma_insert(rank, all.take(i), held, x@, pos as int);
            assert(all.take(i + 1) =~= all.take(i).push(x@));
            assert(views(out@.insert(pos as int, x)) =~= held.insert(pos as int, x@));
        }
        out.insert(pos, x);
    }
    assert(all.take(all.len() as int) =~= all);
    out
}

/// Splitting the first item off the items of a rank.
proof fn lemma_with_rank_first<V>(rank: spec_fn(V) -> Seq<int>, s: Seq<V>, k: Seq<int>)
    requires
        s.len() > 0,
    ensures
        with_rank(rank, s, k) == if rank(s[0]) == k {
            seq![s[0]] + with_rank(rank, s.drop_first(), k)
        } else {
            with_rank(rank, s.drop_first(), k)
        },
{
    let p = has_rank(rank, k);
    let one = seq![s[0]];
    assert(s =~= one + s.drop_first());
    Seq::filter_distributes_over_add(one, s.drop_first(), p);
    assert(one.filter(p) =~= if p(s[0]) {
        one
    } else {
        seq![]
    }) by {
        reveal_with_fuel(Seq::filter, 2);
        assert(one.drop_last() =~= seq![]);
        assert(seq![].push(s[0]) =~= one);
    }
    assert(seq![] + with_rank(rank, s.drop_first(), k) =~= with_rank(rank, s.drop_first(), k));
}

/// No item of a sorted sequence comes before its first one, so a rank that comes before has none.
proof fn lemma_first_is_least<V>(rank: spec_fn(V) -> Seq<int>, s: Seq<V>, k: Seq<int>)
    requires
        is_sorted(rank, s),
        s.len() > 0,
        before(k, rank(s[0])),
    ensures
        with_rank(rank, s, k).len() == 0,
{
    let p = has_rank(rank, k);
    assert forall|j: int| 0 <= j < s.len() implies !p(#[trigger] s[j]) by {
        lemma_order(k, rank(s[0]), rank(s[j]));
        if j > 0 {
            assert(!before(rank(s[j]), rank(s[0])));
        }
    }
    lemma_filter_none(s, p);
}

/// Two sorted sequences with the same items of each rank are the same.
proof fn lemma_sorted_unique<V>(rank: spec_fn(V) -> Seq<int>, a: Seq<V>, b: Seq<V>)
    requires
        is_sorted(rank, a),
        is_sorted(rank, b),
        forall|k: Seq<int>| #[trigger] with_rank(rank, a, k) == with_rank(rank, b, k),
    ensures
        a == b,
    decreases a.len() + b.len(),
{
    if a.len() == 0 || b.len() == 0 {
        if a.len() > 0 {
            let k = rank(a[0]);
            lemma_with_rank_first(rank, a, k);
            assert(with_rank(rank, a, k) == with_rank(rank, b, k));
            lemma_filter_none(b, has_rank(rank, k));
        } else if b.len() > 0 {
            let k = rank(b[0]);
            lemma_with_rank_first(rank, b, k);
            assert(with_rank(rank, a, k) == with_rank(rank, b, k));
            lemma_filter_none(a, has_rank(rank, k));
        }
        assert(a =~= b);
    } else {
        let ka = rank(a[0]);
        let kb = rank(b[0]);
        lemma_with_rank_first(rank, a, ka);
        lemma_with_rank_first(rank, b, kb);
        assert(with_rank(rank, a, ka) == with_rank(rank, b, ka));
        assert(with_rank(rank, a, kb) == with_rank(rank, b, kb));
        lemma_order(ka, kb, ka);
        if before(ka, kb) {
            lemma_first_is_least(rank, b, ka);
        }
        if before(kb, ka) {
            lemma_first_is_least(rank, a, kb);
        }
        assert(ka == kb);
        assert(with_rank(rank, a, ka)[0] == a[0]);
        assert(with_rank(rank, b, ka)[0] == b[0]);
        let ta = a.drop_first();
        let tb = b.drop_first();
        assert(is_sorted(rank, ta)) by {
            assert forall|i: int, j: int| 0 <= i < j < ta.len() implies !before(
                rank(#[trigger] ta[j]),
                rank(#[trigger] ta[i]),
            ) by {
                assert(ta[i] == a[i + 1]);
                assert(ta[j] == a[j + 1]);
            }
        }
        assert(is_sorted(rank, tb)) by {
            assert forall|i: int, j: int| 0 <= i < j < tb.len() implies !before(
                rank(#[trigger] tb[j]),
                rank(#[trigger] tb[i]),
            ) by {
                assert(tb[i] == b[i + 1]);
                assert(tb[j] == b[j + 1]);
            }
        }
        assert forall|k: Seq<int>| #[trigger] with_rank(rank, ta, k) == with_rank(rank, tb, k) by {
            lemma_with_rank_first(rank, a, k);
            lemma_with_rank_first(rank, b, k);
            assert(with_rank(rank, a, k) == with_rank(rank, b, k));
            if ka == k {
                assert(with_rank(rank, ta, k) =~= with_rank(rank, a, k).drop_first());
                assert(with_rank(rank, tb, k) =~= with_rank(rank, b, k).drop_first());
            }
        }
        lemma_sorted_unique(rank, ta, tb);
        assert(a =~= seq![a[0]] + ta);
        assert(b =~= seq![b[0]] + tb);
    }
}

/// A list has one stable sort only.
pub proof fn law_stable_sort_is_unique<V>(
    rank: spec_fn(V) -> Seq<int>,
    items: Seq<V>,
    a: Seq<V>,
    b: Seq<V>,
)
    requires
        is_stable_sort(rank, items, a),
        is_stable_sort(rank, items, b),
    ensures
        a == b,
{
    assert forall|k: Seq<int>| #[trigger] with_rank(rank, a, k) == with_rank(rank, b, k) by {
        assert(with_rank(rank, a, k) == with_rank(rank, items, k));
        assert(with_rank(rank, b, k) == with_rank(rank, items, k));
    }
    lemma_sorted_unique(rank, a, b);
}

// --------------------------------------------------------------------- laws

/// Dictionary order is decided at the first place where two sequences differ; where one is the
/// beginning of the other, the shorter comes first.
pub proof fn law_dictionary_order(common: Seq<int>, x: int, y: int, a: Seq<int>, b: Seq<int>)
    ensures
        x < y ==> before(common + (seq![x] + a), common + (seq![y] + b)) && !before(
            common + (seq![y] + b),
            common + (seq![x] + a),
        ),
        before(common, common + (seq![x] + a)),
        !before(common + (seq![x] + a), common),
        !before(common, common),
    decreases common.len(),
{
    let p = common + (seq![x] + a);
    let q = common + (seq![y] + b);
    if common.len() == 0 {
        assert(p[0] == x && q[0] == y);
    } else {
        let rest = common.drop_first();
        law_dictionary_order(rest, x, y, a, b);
        assert(p.drop_first() =~= rest + (seq![x] + a));
        assert(q.drop_first() =~= rest + (seq![y] + b));
        assert(p[0] == common[0] && q[0] == common[0]);
    }
}

/// A text's rank is its bytes.
pub proof fn law_text_rank(s: Seq<char>, i: int)
    requires
        0 <= i < encode_utf8(s).len(),
    ensures
        text_rank(s).len() == encode_utf8(s).len(),
        text_rank(s)[i] == encode_utf8(s)[i],
{
}

/// A stable sort holds the same items in order, and items of one rank in the order that they had.
pub proof fn law_stable_sort<V>(
    rank: spec_fn(V) -> Seq<int>,
    items: Seq<V>,
    out: Seq<V>,
    k: Seq<int>,
    i: int,
    j: int,
)
    requires
        is_stable_sort(rank, items, out),
    ensures
        0 <= i < j < out.len() ==> !before(rank(out[j]), rank(out[i])),
        out.len() == items.len(),
        out.to_multiset() == items.to_multiset(),
        out.filter(|x: V| rank(x) == k) == items.filter(|x: V| rank(x) == k),
{
    items.to_multiset_ensures();
    out.to_multiset_ensures();
    assert(has_rank(rank, k) =~= (|x: V| rank(x) == k));
    assert(with_rank(rank, out, k) == with_rank(rank, items, k));
}

/// What a list holds is what its items hold, one for one.
pub proof fn law_views<T: Ranked>(s: Seq<T>, i: int)
    requires
        0 <= i < s.len(),
    ensures
        views(s).len() == s.len(),
        views(s)[i] == s[i]@,
        ranks::<T>()(s[i]@) == T::rank(s[i]@),
{
}

} // verus!
