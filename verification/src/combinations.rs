//! The cartesian product of a list of lists.

use vstd::prelude::*;

verus! {

/// Each of the lists in `acc`, extended by each of the entries of `xs` in turn.
pub open spec fn extend_each<T>(acc: Seq<Seq<T>>, xs: Seq<T>) -> Seq<Seq<T>>
    decreases acc.len(),
{
    if acc.len() == 0 {
        Seq::empty()
    } else {
        extend_each(acc.drop_last(), xs) + xs.map_values(|x: T| acc.last().push(x))
    }
}

/// All ways to pick one entry from each list, in lexicographic order (the
/// entry of the last list changes fastest).
pub open spec fn product<T>(lists: Seq<Seq<T>>) -> Seq<Seq<T>>
    decreases lists.len(),
{
    if lists.len() == 0 {
        seq![Seq::empty()]
    } else {
        extend_each(product(lists.drop_last()), lists.last())
    }
}

/// Every combination of `extend_each` extends one of the given lists by one of the entries.
pub proof fn lemma_extend_each_members<T>(acc: Seq<Seq<T>>, xs: Seq<T>, m: int)
    requires
        0 <= m < extend_each(acc, xs).len(),
    ensures
        extend_each(acc, xs).len() == acc.len() * xs.len(),
        exists|a: int, b: int|
            0 <= a < acc.len() && 0 <= b < xs.len() && extend_each(acc, xs)[m] == acc[a].push(
                xs[b],
            ),
    decreases acc.len(),
{
    lemma_extend_each_len(acc, xs);
    let prev = extend_each(acc.drop_last(), xs);
    lemma_extend_each_len(acc.drop_last(), xs);
    if m < prev.len() {
        lemma_extend_each_members(acc.drop_last(), xs, m);
        let (a, b) = choose|a: int, b: int|
            0 <= a < acc.drop_last().len() && 0 <= b < xs.len() && prev[m] == acc.drop_last()[a].push(
                xs[b],
            );
        assert(extend_each(acc, xs)[m] == acc[a].push(xs[b]));
    } else {
        let b = m - prev.len();
        assert(extend_each(acc, xs)[m] == acc[acc.len() - 1].push(xs[b]));
    }
}

proof fn lemma_extend_each_len<T>(acc: Seq<Seq<T>>, xs: Seq<T>)
    ensures
        extend_each(acc, xs).len() == acc.len() * xs.len(),
    decreases acc.len(),
{
    if acc.len() > 0 {
        lemma_extend_each_len(acc.drop_last(), xs);
        assert((acc.len() - 1) * xs.len() + xs.len() == acc.len() * xs.len()) by (nonlinear_arith);
    }
}

/// Every combination picks, at each position, an entry of the list at that position.
pub proof fn lemma_product_members<T>(lists: Seq<Seq<T>>, m: int)
    requires
        0 <= m < product(lists).len(),
    ensures
        product(lists)[m].len() == lists.len(),
        forall|k: int| 0 <= k < lists.len() ==> lists[k].contains(#[trigger] product(lists)[m][k]),
    decreases lists.len(),
{
    if lists.len() == 0 {
    } else {
        let prev = product(lists.drop_last());
        lemma_extend_each_members(prev, lists.last(), m);
        let (a, b) = choose|a: int, b: int|
            0 <= a < prev.len() && 0 <= b < lists.last().len() && product(lists)[m] == prev[a].push(
                lists.last()[b],
            );
        lemma_product_members(lists.drop_last(), a);
        let p = product(lists)[m];
        assert forall|k: int| 0 <= k < lists.len() implies lists[k].contains(#[trigger] p[k]) by {
            if k < lists.len() - 1 {
                assert(lists.drop_last()[k].contains(prev[a][k]));
            } else {
                assert(p[k] == lists.last()[b]);
            }
        }
    }
}

/// Extending lists whose keys differ by entries whose keys differ gives
/// lists whose keys differ.
proof fn lemma_extend_each_keys_distinct<T, K>(acc: Seq<Seq<T>>, xs: Seq<T>, key: spec_fn(T) -> K, n: nat)
    requires
        forall|a: int| 0 <= a < acc.len() ==> (#[trigger] acc[a]).len() == n,
        forall|a: int, b: int|
            0 <= a < b < acc.len() ==> (#[trigger] acc[a]).map_values(key) != (#[trigger] acc[b]).map_values(key),
        forall|a: int, b: int| 0 <= a < b < xs.len() ==> key(#[trigger] xs[a]) != key(#[trigger] xs[b]),
    ensures
        forall|a: int, b: int|
            0 <= a < b < extend_each(acc, xs).len() ==> (#[trigger] extend_each(acc, xs)[a]).map_values(key)
                != (#[trigger] extend_each(acc, xs)[b]).map_values(key),
    decreases acc.len(),
{
    if acc.len() > 0 {
        let init = acc.drop_last();
        let prev = extend_each(init, xs);
        let last = acc.last();
        let tail = xs.map_values(|x: T| last.push(x));
        lemma_extend_each_keys_distinct(init, xs, key, n);
        lemma_extend_each_len(init, xs);
        let e = extend_each(acc, xs);
        assert(e == prev + tail);
        assert forall|a: int, b: int| 0 <= a < b < e.len() implies (#[trigger] e[a]).map_values(key) != (
        #[trigger] e[b]).map_values(key) by {
            if b < prev.len() {
                assert(e[a] == prev[a] && e[b] == prev[b]);
            } else if a >= prev.len() {
                let x = xs[a - prev.len()];
                let y = xs[b - prev.len()];
                assert(e[a] == last.push(x) && e[b] == last.push(y));
                if e[a].map_values(key) == e[b].map_values(key) {
                    assert(e[a].map_values(key)[n as int] == key(x));
                    assert(e[b].map_values(key)[n as int] == key(y));
                }
            } else {
                lemma_extend_each_members(init, xs, a);
                let (i, j) = choose|i: int, j: int|
                    0 <= i < init.len() && 0 <= j < xs.len() && prev[a] == init[i].push(xs[j]);
                let y = xs[b - prev.len()];
                assert(e[a] == init[i].push(xs[j]) && e[b] == last.push(y));
                assert(init[i] == acc[i]);
                if e[a].map_values(key) == e[b].map_values(key) {
                    assert(acc[i].map_values(key) =~= e[a].map_values(key).drop_last());
                    assert(last.map_values(key) =~= e[b].map_values(key).drop_last());
                    assert(acc[acc.len() - 1] == last);
                }
            }
        }
    }
}

/// When the entries of each list have different keys, the combinations have
/// different keys.
pub proof fn lemma_product_keys_distinct<T, K>(lists: Seq<Seq<T>>, key: spec_fn(T) -> K)
    requires
        forall|l: int, a: int, b: int|
            0 <= l < lists.len() && 0 <= a < b < lists[l].len() ==> key(#[trigger] lists[l][a]) != key(
                #[trigger] lists[l][b],
            ),
    ensures
        forall|a: int, b: int|
            0 <= a < b < product(lists).len() ==> (#[trigger] product(lists)[a]).map_values(key) != (
            #[trigger] product(lists)[b]).map_values(key),
    decreases lists.len(),
{
    if lists.len() > 0 {
        let init = lists.drop_last();
        assert forall|l: int, a: int, b: int|
            0 <= l < init.len() && 0 <= a < b < init[l].len() implies key(#[trigger] init[l][a]) != key(
            #[trigger] init[l][b],
        ) by {
            assert(init[l] == lists[l]);
        }
        lemma_product_keys_distinct(init, key);
        let prev = product(init);
        assert forall|a: int| 0 <= a < prev.len() implies (#[trigger] prev[a]).len() == init.len() by {
            lemma_product_members(init, a);
        }
        let xs = lists.last();
        assert forall|a: int, b: int| 0 <= a < b < xs.len() implies key(#[trigger] xs[a]) != key(
        #[trigger] xs[b]) by {
            assert(xs == lists[lists.len() - 1]);
        }
        lemma_extend_each_keys_distinct(prev, xs, key, init.len());
    }
}

/// A copy of `v` with `x` appended.
fn pushed<T: Copy>(v: &Vec<T>, x: T) -> (r: Vec<T>)
    ensures
        r@ == v@.push(x),
{
    let mut r: Vec<T> = Vec::new();
    let mut i: usize = 0;
    while i < v.len()
        invariant
            i <= v.len(),
            r@ == v@.take(i as int),
        decreases v.len() - i,
    {
        r.push(v[i]);
        i = i + 1;
        assert(r@ =~= v@.take(i as int));
    }
    r.push(x);
    assert(r@ =~= v@.push(x));
    r
}

/// All ways to pick one entry from each list, in lexicographic order.
pub fn cartesian_product<T: Copy>(lists: &Vec<Vec<T>>) -> (r: Vec<Vec<T>>)
    ensures
        r@.len() == product(lists@.map_values(|l: Vec<T>| l@)).len(),
        forall|m: int|
            0 <= m < r@.len() ==> (#[trigger] r@[m])@ == product(lists@.map_values(|l: Vec<T>| l@))[m],
{
    let ghost views = lists@.map_values(|l: Vec<T>| l@);
    let mut acc: Vec<Vec<T>> = Vec::new();
    acc.push(Vec::new());
    proof {
        assert(views.take(0) =~= Seq::<Seq<T>>::empty());
        assert(acc@[0]@ =~= Seq::<T>::empty());
    }
    let mut i: usize = 0;
    while i < lists.len()
        invariant
            i <= lists.len(),
            views == lists@.map_values(|l: Vec<T>| l@),
            acc@.len() == product(views.take(i as int)).len(),
            forall|m: int| 0 <= m < acc@.len() ==> (#[trigger] acc@[m])@ == product(views.take(i as int))[m],
        decreases lists.len() - i,
    {
        let xs = &lists[i];
        let ghost prev = product(views.take(i as int));
        let mut next: Vec<Vec<T>> = Vec::new();
        let mut a: usize = 0;
        while a < acc.len()
            invariant
                a <= acc.len(),
                i < lists.len(),
                views == lists@.map_values(|l: Vec<T>| l@),
                xs@ == views[i as int],
                prev == product(views.take(i as int)),
                acc@.len() == prev.len(),
                forall|m: int| 0 <= m < acc@.len() ==> (#[trigger] acc@[m])@ == prev[m],
                next@.len() == extend_each(prev.take(a as int), xs@).len(),
                forall|m: int|
                    0 <= m < next@.len() ==> (#[trigger] next@[m])@ == extend_each(prev.take(a as int), xs@)[m],
            decreases acc.len() - a,
        {
            let ghost before = next@;
            let mut b: usize = 0;
            while b < xs.len()
                invariant
                    b <= xs.len(),
                    a < acc.len(),
                    acc@.len() == prev.len(),
                    forall|m: int| 0 <= m < acc@.len() ==> (#[trigger] acc@[m])@ == prev[m],
                    next@.len() == before.len() + b,
                    forall|m: int| 0 <= m < before.len() ==> #[trigger] next@[m] == before[m],
                    forall|m: int|
                        0 <= m < b ==> (#[trigger] next@[before.len() + m])@ == prev[a as int].push(
                            xs@[m],
                        ),
                decreases xs.len() - b,
            {
                let combo = pushed(&acc[a], xs[b]);
                next.push(combo);
                b = b + 1;
            }
            proof {
                let pa = prev.take(a + 1);
                assert(pa.drop_last() =~= prev.take(a as int));
                assert(pa.last() == prev[a as int]);
                let e = extend_each(pa, xs@);
                assert(e == extend_each(prev.take(a as int), xs@) + xs@.map_values(
                    |x: T| prev[a as int].push(x),
                ));
                assert forall|m: int| 0 <= m < next@.len() implies (#[trigger] next@[m])@ == e[m] by {
                    if m >= before.len() {
                        assert(next@[before.len() + (m - before.len())] == next@[m]);
                    }
                }
            }
            a = a + 1;
        }
        proof {
            assert(prev.take(acc@.len() as int) =~= prev);
            let t = views.take(i + 1);
            assert(t.drop_last() =~= views.take(i as int));
            assert(t.last() == views[i as int]);
        }
        acc = next;
        i = i + 1;
    }
    proof {
        assert(views.take(lists@.len() as int) =~= views);
    }
    acc
}

} // verus!
