//! Putting things in order by a number.
use crate::text;
use vstd::prelude::*;

verus! {

/// Whether a thing with key `a` has to stand before one with key `b`.
pub open spec fn precedes(a: int, b: int, falling: bool) -> bool {
    if falling {
        a > b
    } else {
        a < b
    }
}

/// `order` with index `x` put where its key belongs: behind everything that it need not precede.
pub open spec fn placed(order: Seq<int>, keys: Seq<int>, x: int, falling: bool) -> Seq<int>
    decreases order.len(),
{
    if order.len() == 0 || !precedes(keys[x], keys[order.last()], falling) {
        order.push(x)
    } else {
        placed(order.drop_last(), keys, x, falling).push(order.last())
    }
}

/// The first `n` indices in the order of their keys; equal keys stay in the order of the indices.
pub open spec fn ordering(keys: Seq<int>, n: nat, falling: bool) -> Seq<int>
    decreases n,
{
    if n == 0 {
        Seq::empty()
    } else {
        placed(ordering(keys, (n - 1) as nat, falling), keys, n - 1, falling)
    }
}

/// The items of `s` in the order of their keys.
pub open spec fn arranged<T>(s: Seq<T>, keys: Seq<int>, falling: bool) -> Seq<T> {
    let o = ordering(keys, s.len(), falling);
    Seq::new(o.len(), |i: int| s[o[i]])
}

proof fn placed_meaning(order: Seq<int>, keys: Seq<int>, x: int, falling: bool)
    requires
        forall|i: int, j: int|
            0 <= i < j < order.len() ==> !precedes(
                keys[#[trigger] order[j]],
                keys[#[trigger] order[i]],
                falling,
            ),
    ensures
        placed(order, keys, x, falling).len() == order.len() + 1,
        placed(order, keys, x, falling).to_multiset() == order.to_multiset().insert(x),
        forall|i: int, j: int|
            0 <= i < j < placed(order, keys, x, falling).len() ==> !precedes(
                keys[#[trigger] placed(order, keys, x, falling)[j]],
                keys[#[trigger] placed(order, keys, x, falling)[i]],
                falling,
            ),
        forall|i: int|
            0 <= i < placed(order, keys, x, falling).len() ==> #[trigger] placed(
                order,
                keys,
                x,
                falling,
            )[i] == x || order.contains(placed(order, keys, x, falling)[i]),
    decreases order.len(),
{
    broadcast use vstd::seq_lib::group_to_multiset_ensures;

    let p = placed(order, keys, x, falling);
    if order.len() == 0 || !precedes(keys[x], keys[order.last()], falling) {
        assert forall|i: int, j: int| 0 <= i < j < p.len() implies !precedes(
            keys[#[trigger] p[j]],
            keys[#[trigger] p[i]],
            falling,
        ) by {
            if j == order.len() {
                if i < order.len() - 1 {
                    assert(!precedes(keys[order[order.len() - 1]], keys[order[i]], falling));
                }
            }
        }
        assert forall|i: int| 0 <= i < p.len() implies #[trigger] p[i] == x || order.contains(
            p[i],
        ) by {
            if i < order.len() {
                assert(order[i] == p[i]);
            }
        }
    } else {
        let init = order.drop_last();
        let q = placed(init, keys, x, falling);
        placed_meaning(init, keys, x, falling);
        assert(order =~= init.push(order.last()));
        assert(p =~= q.push(order.last()));
        assert(p.to_multiset() =~= order.to_multiset().insert(x));
        assert forall|i: int, j: int| 0 <= i < j < p.len() implies !precedes(
            keys[#[trigger] p[j]],
            keys[#[trigger] p[i]],
            falling,
        ) by {
            if j < q.len() {
                assert(p[j] == q[j] && p[i] == q[i]);
            } else {
                assert(p[i] == q[i]);
                if q[i] != x {
                    assert(init.contains(q[i]));
                    let k = choose|k: int| 0 <= k < init.len() && init[k] == q[i];
                    assert(order[k] == q[i]);
                    assert(!precedes(keys[order[order.len() - 1]], keys[order[k]], falling));
                }
            }
        }
        assert forall|i: int| 0 <= i < p.len() implies #[trigger] p[i] == x || order.contains(
            p[i],
        ) by {
            if i < q.len() {
                assert(p[i] == q[i]);
                if q[i] != x {
                    let k = choose|k: int| 0 <= k < init.len() && init[k] == q[i];
                    assert(order[k] == q[i]);
                }
            } else {
                assert(order[order.len() - 1] == p[i]);
            }
        }
    }
}

/// The indices `0..n`.
pub open spec fn indices(n: nat) -> Seq<int> {
    Seq::new(n, |i: int| i)
}

/// An ordering holds each index once, and no key has to stand before one that stands before it.
pub proof fn ordering_is_sorted(keys: Seq<int>, n: nat, falling: bool)
    ensures
        ordering(keys, n, falling).len() == n,
        ordering(keys, n, falling).to_multiset() == indices(n).to_multiset(),
        forall|i: int| 0 <= i < n ==> 0 <= #[trigger] ordering(keys, n, falling)[i] < n,
        forall|i: int, j: int|
            0 <= i < j < n ==> !precedes(
                keys[#[trigger] ordering(keys, n, falling)[j]],
                keys[#[trigger] ordering(keys, n, falling)[i]],
                falling,
            ),
    decreases n,
{
    if n == 0 {
        assert(indices(0) =~= ordering(keys, 0, falling));
    } else {
        let m = (n - 1) as nat;
        let o = ordering(keys, m, falling);
        ordering_is_sorted(keys, m, falling);
        placed_meaning(o, keys, n - 1, falling);
        vstd::seq_lib::to_multiset_build(indices(m), n - 1);
        assert(indices(m).push(n - 1) =~= indices(n));
        let p = ordering(keys, n, falling);
        assert forall|i: int| 0 <= i < n implies 0 <= #[trigger] p[i] < n by {
            if p[i] != n - 1 {
                let k = choose|k: int| 0 <= k < o.len() && o[k] == p[i];
                assert(0 <= o[k] < m);
            }
        }
    }
}

/// The model of a list of keys.
pub open spec fn key_model(keys: Seq<i128>) -> Seq<int> {
    Seq::new(keys.len(), |i: int| keys[i] as int)
}

/// The model of a list of indices.
pub open spec fn index_model(v: Seq<usize>) -> Seq<int> {
    Seq::new(v.len(), |i: int| v[i] as int)
}

fn goes_first(a: i128, b: i128, falling: bool) -> (r: bool)
    ensures
        r == precedes(a as int, b as int, falling),
{
    if falling {
        a > b
    } else {
        a < b
    }
}

/// The indices of `keys` in the order of the keys.
pub fn order_by(keys: &Vec<i128>, falling: bool) -> (r: Vec<usize>)
    ensures
        index_model(r@) == ordering(key_model(keys@), keys@.len(), falling),
        r@.len() == keys@.len(),
        forall|i: int| 0 <= i < r@.len() ==> #[trigger] r@[i] < keys@.len(),
{
    let ghost km = key_model(keys@);
    let mut r: Vec<usize> = Vec::new();
    let mut n: usize = 0;
    assert(index_model(r@) =~= ordering(km, 0, falling));
    while n < keys.len()
        invariant
            n <= keys@.len(),
            km == key_model(keys@),
            r@.len() == n,
            forall|i: int| 0 <= i < r@.len() ==> #[trigger] r@[i] < keys@.len(),
            index_model(r@) == ordering(km, n as nat, falling),
        decreases keys@.len() - n,
    {
        let ghost o = index_model(r@);
        let x = keys[n];
        let mut i: usize = r.len();
        assert(o.take(i as int) =~= o);
        assert(o.skip(i as int) =~= Seq::<int>::empty());
        assert(placed(o, km, n as int, falling) + Seq::<int>::empty() =~= placed(
            o,
            km,
            n as int,
            falling,
        ));
        while i > 0 && goes_first(x, keys[r[i - 1]], falling)
            invariant
                i <= r@.len(),
                n < keys@.len(),
                x == keys@[n as int],
                km == key_model(keys@),
                o == index_model(r@),
                forall|k: int| 0 <= k < r@.len() ==> #[trigger] r@[k] < keys@.len(),
                placed(o, km, n as int, falling) == placed(
                    o.take(i as int),
                    km,
                    n as int,
                    falling,
                ) + o.skip(i as int),
            decreases i,
        {
            proof {
                let t = o.take(i as int);
                assert(t.last() == r@[i - 1]);
                assert(precedes(km[n as int], km[t.last()], falling));
                assert(t.drop_last() =~= o.take(i - 1));
                assert(placed(o.take(i - 1), km, n as int, falling).push(t.last()) + o.skip(i as int)
                    =~= placed(o.take(i - 1), km, n as int, falling) + o.skip(i - 1));
            }
            i -= 1;
        }
        proof {
            let t = o.take(i as int);
            if i > 0 {
                assert(t.last() == r@[i - 1]);
                assert(!precedes(km[n as int], km[t.last()], falling));
            }
            assert(placed(t, km, n as int, falling) == t.push(n as int));
        }
        r.insert(i, n);
        assert(index_model(r@) =~= o.take(i as int).push(n as int) + o.skip(i as int));
        n += 1;
    }
    r
}

/// Arranging loses nothing and adds nothing.
pub proof fn arranged_keeps<T>(s: Seq<T>, keys: Seq<int>, falling: bool, x: T)
    ensures
        arranged(s, keys, falling).len() == s.len(),
        arranged(s, keys, falling).contains(x) <==> s.contains(x),
{
    let o = ordering(keys, s.len(), falling);
    let a = arranged(s, keys, falling);
    ordering_is_sorted(keys, s.len(), falling);
    if a.contains(x) {
        let i = choose|i: int| 0 <= i < a.len() && a[i] == x;
        assert(s[o[i]] == x);
    }
    if s.contains(x) {
        let i = choose|i: int| 0 <= i < s.len() && s[i] == x;
        broadcast use vstd::seq_lib::group_to_multiset_ensures;

        assert(indices(s.len())[i] == i);
        assert(indices(s.len()).contains(i));
        assert(indices(s.len()).to_multiset().count(i) > 0);
        assert(o.contains(i));
        let j = choose|j: int| 0 <= j < o.len() && o[j] == i;
        assert(a[j] == x);
    }
}

/// Behind arranging, no item has to stand before one that stands before it.
pub proof fn arranged_is_sorted<T>(s: Seq<T>, keys: Seq<int>, falling: bool, i: int, j: int)
    requires
        0 <= i < j < s.len(),
    ensures
        ({
            let o = ordering(keys, s.len(), falling);
            &&& 0 <= o[i] < s.len()
            &&& 0 <= o[j] < s.len()
            &&& arranged(s, keys, falling)[i] == s[o[i]]
            &&& arranged(s, keys, falling)[j] == s[o[j]]
            &&& !precedes(keys[o[j]], keys[o[i]], falling)
        }),
{
    ordering_is_sorted(keys, s.len(), falling);
}

// ── Names ───────────────────────────────────────────────────────────────────
/// The names stand in the order of strings, and none stands twice.
pub open spec fn in_order(v: Seq<Seq<char>>) -> bool {
    forall|i: int, j: int|
        0 <= i < j < v.len() ==> text::before(#[trigger] v[i], #[trigger] v[j])
}

fn insert_name(v: &mut Vec<String>, x: &str)
    requires
        in_order(text::texts(old(v)@)),
    ensures
        in_order(text::texts(final(v)@)),
        forall|y: Seq<char>| #[trigger]
            text::texts(final(v)@).contains(y) <==> text::texts(old(v)@).contains(y) || y == x@,
{
    let ghost a = text::texts(v@);
    let mut i: usize = 0;
    while i < v.len() && text::less(v[i].as_str(), x)
        invariant
            i <= v@.len(),
            a == text::texts(v@),
            v == old(v),
            forall|k: int| 0 <= k < i ==> text::before(#[trigger] a[k], x@),
        decreases v@.len() - i,
    {
        i += 1;
    }
    if i < v.len() && text::same(v[i].as_str(), x) {
        assert(a[i as int] == x@);
        return ;
    }
    let ghost before = v@;
    v.insert(i, x.to_owned());
    proof {
        let b = text::texts(v@);
        assert(b =~= a.insert(i as int, x@));
        assert forall|k: int| i <= k < a.len() implies text::before(x@, #[trigger] a[k]) by {
            text::before_is_total(a[i as int], x@);
            if k > i {
                text::before_is_transitive(x@, a[i as int], a[k]);
            }
        }
        assert forall|m: int, n: int| 0 <= m < n < b.len() implies text::before(
            #[trigger] b[m],
            #[trigger] b[n],
        ) by {
            if m < i {
                assert(b[m] == a[m]);
                if n < i {
                    assert(b[n] == a[n]);
                } else if n > i {
                    assert(b[n] == a[n - 1]);
                }
            } else if m == i {
                assert(b[n] == a[n - 1]);
            } else {
                assert(b[m] == a[m - 1]);
                assert(b[n] == a[n - 1]);
            }
        }
        assert forall|y: Seq<char>| #[trigger] b.contains(y) <==> a.contains(y) || y == x@ by {
            if b.contains(y) {
                let k = choose|k: int| 0 <= k < b.len() && b[k] == y;
                if k < i {
                    assert(a[k] == y);
                } else if k > i {
                    assert(a[k - 1] == y);
                }
            }
            if a.contains(y) {
                let k = choose|k: int| 0 <= k < a.len() && a[k] == y;
                if k < i {
                    assert(b[k] == y);
                } else {
                    assert(b[k + 1] == y);
                }
            }
            assert(b[i as int] == x@);
        }
    }
}

/// The names in the order of strings, each once.
pub fn sorted_names(names: &Vec<String>) -> (r: Vec<String>)
    ensures
        in_order(text::texts(r@)),
        forall|y: Seq<char>| #[trigger]
            text::texts(r@).contains(y) <==> text::texts(names@).contains(y),
{
    let ghost all = text::texts(names@);
    let mut r: Vec<String> = Vec::new();
    let mut i: usize = 0;
    assert forall|y: Seq<char>| #[trigger] text::texts(r@).contains(y) <==> all.take(0).contains(
        y,
    ) by {
        assert(all.take(0).len() == 0);
    }
    while i < names.len()
        invariant
            i <= names@.len(),
            all == text::texts(names@),
            in_order(text::texts(r@)),
            forall|y: Seq<char>| #[trigger]
                text::texts(r@).contains(y) <==> all.take(i as int).contains(y),
        decreases names@.len() - i,
    {
        let ghost was = text::texts(r@);
        insert_name(&mut r, names[i].as_str());
        proof {
            let t = all.take(i as int);
            let u = all.take(i + 1);
            assert(u =~= t.push(names@[i as int]@));
            assert forall|y: Seq<char>| #[trigger] text::texts(r@).contains(y) <==> u.contains(
                y,
            ) by {
                assert(was.contains(y) <==> t.contains(y));
                if t.contains(y) {
                    let k = choose|k: int| 0 <= k < t.len() && t[k] == y;
                    assert(u[k] == y);
                }
                if u.contains(y) {
                    let k = choose|k: int| 0 <= k < u.len() && u[k] == y;
                    if k < t.len() {
                        assert(t[k] == y);
                    }
                }
                assert(u[i as int] == names@[i as int]@);
            }
        }
        i += 1;
    }
    assert(all.take(i as int) =~= all);
    r
}

proof fn placed_is_stable(order: Seq<int>, keys: Seq<int>, x: int, falling: bool)
    requires
        forall|i: int| 0 <= i < order.len() ==> (#[trigger] order[i]) < x,
        forall|i: int, j: int|
            0 <= i < j < order.len() && keys[#[trigger] order[i]] == keys[#[trigger] order[j]]
                ==> order[i] < order[j],
    ensures
        forall|i: int|
            0 <= i < placed(order, keys, x, falling).len() ==> (#[trigger] placed(
                order,
                keys,
                x,
                falling,
            )[i]) <= x,
        forall|i: int, j: int|
            0 <= i < j < placed(order, keys, x, falling).len() && keys[#[trigger] placed(
                order,
                keys,
                x,
                falling,
            )[i]] == keys[#[trigger] placed(order, keys, x, falling)[j]] ==> placed(
                order,
                keys,
                x,
                falling,
            )[i] < placed(order, keys, x, falling)[j],
        forall|i: int|
            0 <= i < placed(order, keys, x, falling).len() ==> #[trigger] placed(
                order,
                keys,
                x,
                falling,
            )[i] == x || order.contains(placed(order, keys, x, falling)[i]),
    decreases order.len(),
{
    let p = placed(order, keys, x, falling);
    if order.len() == 0 || !precedes(keys[x], keys[order.last()], falling) {
        assert forall|i: int| 0 <= i < p.len() implies #[trigger] p[i] == x || order.contains(
            p[i],
        ) by {
            if i < order.len() {
                assert(p[i] == order[i]);
            }
        }
    } else {
        let init = order.drop_last();
        let q = placed(init, keys, x, falling);
        let n = order.len() - 1;
        assert forall|i: int| 0 <= i < init.len() implies #[trigger] init[i] == order[i] by {}
        placed_is_stable(init, keys, x, falling);
        assert(order[n] == order.last());
        assert forall|i: int| 0 <= i < p.len() implies #[trigger] p[i] == x || order.contains(
            p[i],
        ) by {
            if i < q.len() {
                assert(p[i] == q[i]);
                if q[i] != x {
                    let k = choose|k: int| 0 <= k < init.len() && init[k] == q[i];
                    assert(order[k] == q[i]);
                }
            }
        }
        assert forall|i: int| 0 <= i < p.len() implies (#[trigger] p[i]) <= x by {
            if i < q.len() {
                assert(p[i] == q[i]);
            }
        }
        assert forall|i: int, j: int|
            0 <= i < j < p.len() && keys[#[trigger] p[i]] == keys[#[trigger] p[j]] implies p[i]
            < p[j] by {
            assert(p[i] == q[i]);
            if j < q.len() {
                assert(p[j] == q[j]);
            } else if q[i] != x {
                let k = choose|k: int| 0 <= k < init.len() && init[k] == q[i];
                assert(order[k] == p[i]);
                assert(order[n] == p[j]);
            }
        }
    }
}

proof fn ordering_is_stable(keys: Seq<int>, n: nat, falling: bool)
    ensures
        forall|i: int|
            0 <= i < ordering(keys, n, falling).len() ==> (#[trigger] ordering(keys, n, falling)[i])
                < n,
        forall|i: int, j: int|
            0 <= i < j < ordering(keys, n, falling).len() && keys[#[trigger] ordering(
                keys,
                n,
                falling,
            )[i]] == keys[#[trigger] ordering(keys, n, falling)[j]] ==> ordering(
                keys,
                n,
                falling,
            )[i] < ordering(keys, n, falling)[j],
    decreases n,
{
    if n > 0 {
        ordering_is_stable(keys, (n - 1) as nat, falling);
        placed_is_stable(ordering(keys, (n - 1) as nat, falling), keys, n - 1, falling);
    }
}

/// What is sorted comes in the order of its keys, rising or falling, and what has the same key stays
/// in the order it had.
pub proof fn sorting_is_stable<T>(s: Seq<T>, keys: Seq<int>, falling: bool, i: int, j: int)
    requires
        0 <= i < j < s.len(),
    ensures
        ({
            let o = ordering(keys, s.len(), falling);
            let a = arranged(s, keys, falling);
            &&& a[i] == s[o[i]] && a[j] == s[o[j]]
            &&& falling ==> keys[o[i]] >= keys[o[j]]
            &&& !falling ==> keys[o[i]] <= keys[o[j]]
            &&& keys[o[i]] == keys[o[j]] ==> o[i] < o[j]
        }),
{
    arranged_is_sorted(s, keys, falling, i, j);
    ordering_is_sorted(keys, s.len(), falling);
    ordering_is_stable(keys, s.len(), falling);
}

} // verus!
