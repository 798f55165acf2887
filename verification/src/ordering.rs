//! A stable ordering of `0..n` under a "comes strictly before" relation: the
//! positions that a stable sort moves each item to.
use vstd::prelude::*;
use vstd::seq_lib::seq_to_set_is_finite;
use vstd::set_lib::{lemma_int_range, lemma_subset_equality, set_int_range};

verus! {

/// `order` lists each of `0..n` exactly once.
pub open spec fn is_permutation(order: Seq<usize>, n: int) -> bool {
    &&& order.len() == n
    &&& forall|k: int| 0 <= k < n ==> #[trigger] order[k] < n
    &&& forall|p: int, q: int| 0 <= p < q < n ==> #[trigger] order[p] != #[trigger] order[q]
}

/// No item in `order` comes strictly before the item just ahead of it.
pub open spec fn locally_ordered(order: Seq<usize>, before: spec_fn(int, int) -> bool) -> bool {
    forall|k: int|
        0 <= k < order.len() - 1 ==> !before(#[trigger] order[k + 1] as int, order[k] as int)
}

/// Two items appear in the opposite of their order in `0..n` only where the
/// one now ahead comes strictly before the other: items that tie keep their
/// order in `0..n`.
pub open spec fn inversions_justified(order: Seq<usize>, before: spec_fn(int, int) -> bool) -> bool {
    forall|p: int, q: int|
        0 <= p < q < order.len() && order[q] < order[p] ==> before(
            #[trigger] order[p] as int,
            #[trigger] order[q] as int,
        )
}

/// `order` is what a stable sort by `before` yields for `0..n`.
pub open spec fn stably_ordered(order: Seq<usize>, n: int, before: spec_fn(int, int) -> bool) -> bool {
    &&& is_permutation(order, n)
    &&& locally_ordered(order, before)
    &&& inversions_justified(order, before)
}

/// `before` never holds both ways between two of `0..n`.
pub open spec fn asymmetric(n: int, before: spec_fn(int, int) -> bool) -> bool {
    forall|a: int, b: int| 0 <= a < n && 0 <= b < n && #[trigger] before(a, b) ==> !before(b, a)
}

/// "Does not come strictly before" is transitive on `0..n`: the relation
/// orders `0..n` totally, up to ties.
pub open spec fn negatively_transitive(n: int, before: spec_fn(int, int) -> bool) -> bool {
    forall|a: int, b: int, c: int|
        0 <= a < n && 0 <= b < n && 0 <= c < n && !#[trigger] before(b, a) && !#[trigger] before(
            c,
            b,
        ) ==> !#[trigger] before(c, a)
}

/// When `before` orders the items totally up to ties, an order in which no
/// neighbour comes before the one ahead of it is sorted throughout.
pub proof fn lemma_locally_ordered_is_sorted(
    order: Seq<usize>,
    n: int,
    before: spec_fn(int, int) -> bool,
)
    requires
        is_permutation(order, n),
        locally_ordered(order, before),
        negatively_transitive(n, before),
    ensures
        forall|p: int, q: int|
            0 <= p < q < n ==> !before(#[trigger] order[q] as int, #[trigger] order[p] as int),
{
    assert forall|p: int, q: int| 0 <= p < q < n implies !before(
        #[trigger] order[q] as int,
        #[trigger] order[p] as int,
    ) by {
        lemma_sorted_from(order, n, before, p, q);
    }
}

proof fn lemma_sorted_from(
    order: Seq<usize>,
    n: int,
    before: spec_fn(int, int) -> bool,
    p: int,
    q: int,
)
    requires
        is_permutation(order, n),
        locally_ordered(order, before),
        negatively_transitive(n, before),
        0 <= p < q < n,
    ensures
        !before(order[q] as int, order[p] as int),
    decreases q - p,
{
    if q == p + 1 {
        assert(!before(order[p + 1] as int, order[p] as int));
    } else {
        lemma_sorted_from(order, n, before, p, q - 1);
        let k = q - 1;
        assert(order[k + 1] == order[q]);
        assert(!before(order[q] as int, order[q - 1] as int));
        let a = order[p] as int;
        let b = order[q - 1] as int;
        let c = order[q] as int;
        assert(0 <= a < n && 0 <= b < n && 0 <= c < n);
        assert(!before(b, a) && !before(c, b));
    }
}

/// `dst` holds the items of `src`, each exactly once, in some order.
pub open spec fn is_rearrangement<A>(src: Seq<A>, dst: Seq<A>) -> bool {
    exists|order: Seq<usize>| #[trigger] is_permutation(order, src.len() as int) && arranged_by(src, dst, order)
}

/// `dst` lists the items of `src` at the positions that `order` names.
pub open spec fn arranged_by<A>(src: Seq<A>, dst: Seq<A>, order: Seq<usize>) -> bool {
    &&& dst.len() == order.len()
    &&& forall|k: int| 0 <= k < order.len() ==> #[trigger] dst[k] == src[order[k] as int]
}

/// A permutation of `0..n` takes every value of `0..n` somewhere.
pub proof fn lemma_permutation_onto(order: Seq<usize>, n: int, v: int)
    requires
        is_permutation(order, n),
        0 <= v < n,
    ensures
        exists|k: int| 0 <= k < n && order[k] == v,
{
    let ints = order.map_values(|x: usize| x as int);
    assert(ints.no_duplicates()) by {
        assert forall|p: int, q: int| 0 <= p < ints.len() && 0 <= q < ints.len() && p != q implies ints[p]
            != ints[q] by {
            if p < q {
                assert(order[p] != order[q]);
            } else {
                assert(order[q] != order[p]);
            }
        }
    }
    ints.unique_seq_to_set();
    lemma_int_range(0, n);
    assert(ints.to_set().subset_of(set_int_range(0, n))) by {
        assert forall|x: int| ints.to_set().contains(x) implies set_int_range(0, n).contains(x) by {
            assert(ints.contains(x));
            let k = choose|k: int| 0 <= k < ints.len() && ints[k] == x;
            assert(order[k] < n);
        }
    }
    seq_to_set_is_finite(ints);
    lemma_subset_equality(ints.to_set(), set_int_range(0, n));
    assert(set_int_range(0, n).contains(v));
    assert(ints.to_set().contains(v));
    assert(ints.contains(v));
    let k = choose|k: int| 0 <= k < ints.len() && ints[k] == v;
    assert(order[k] == v);
}

proof fn lemma_increasing_at_least(s: Seq<int>, k: int)
    requires
        0 <= k < s.len(),
        forall|i: int| 0 <= i < s.len() ==> 0 <= #[trigger] s[i],
        forall|p: int, q: int| 0 <= p < q < s.len() ==> #[trigger] s[p] < #[trigger] s[q],
    ensures
        s[k] >= k,
    decreases k,
{
    if k > 0 {
        lemma_increasing_at_least(s, k - 1);
        assert(s[k - 1] < s[k]);
    }
}

proof fn lemma_increasing_at_most(s: Seq<int>, n: int, k: int)
    requires
        s.len() == n,
        0 <= k < n,
        forall|i: int| 0 <= i < n ==> #[trigger] s[i] < n,
        forall|p: int, q: int| 0 <= p < q < n ==> #[trigger] s[p] < #[trigger] s[q],
    ensures
        s[k] <= k,
    decreases n - k,
{
    if k < n - 1 {
        lemma_increasing_at_most(s, n, k + 1);
        assert(s[k] < s[k + 1]);
    }
}

/// A strictly increasing sequence of `n` values in `0..n` is `0, 1, .., n-1`.
pub proof fn lemma_increasing_is_identity(s: Seq<int>, n: int)
    requires
        s.len() == n,
        forall|i: int| 0 <= i < n ==> 0 <= #[trigger] s[i] < n,
        forall|p: int, q: int| 0 <= p < q < n ==> #[trigger] s[p] < #[trigger] s[q],
    ensures
        forall|k: int| 0 <= k < n ==> #[trigger] s[k] == k,
{
    assert forall|k: int| 0 <= k < n implies #[trigger] s[k] == k by {
        lemma_increasing_at_least(s, k);
        lemma_increasing_at_most(s, n, k);
    }
}

/// Two permutations of `0..n` that are both strictly increasing under an
/// asymmetric relation are the same.
pub proof fn lemma_strict_chains_equal(
    a: Seq<usize>,
    b: Seq<usize>,
    n: int,
    before: spec_fn(int, int) -> bool,
)
    requires
        is_permutation(a, n),
        is_permutation(b, n),
        asymmetric(n, before),
        forall|p: int, q: int| 0 <= p < q < n ==> before(#[trigger] a[p] as int, #[trigger] a[q] as int),
        forall|p: int, q: int| 0 <= p < q < n ==> before(#[trigger] b[p] as int, #[trigger] b[q] as int),
    ensures
        a == b,
{
    let pos = Seq::new(
        n as nat,
        |k: int| choose|j: int| 0 <= j < n && b[j] == a[k],
    );
    assert forall|k: int| 0 <= k < n implies 0 <= #[trigger] pos[k] < n && b[pos[k]] == a[k] by {
        lemma_permutation_onto(b, n, a[k] as int);
    }
    assert forall|p: int, q: int| 0 <= p < q < n implies #[trigger] pos[p] < #[trigger] pos[q] by {
        let (i, j) = (pos[p], pos[q]);
        assert(before(a[p] as int, a[q] as int));
        assert(0 <= i < n && 0 <= j < n);
        if j < i {
            assert(before(b[j] as int, b[i] as int));
        } else if i == j {
            assert(a[p] != a[q]);
        }
    }
    lemma_increasing_is_identity(pos, n);
    assert forall|k: int| 0 <= k < n implies a[k] == b[k] by {
        assert(pos[k] == k);
    }
    assert(a =~= b);
}

/// The identity order of `0..n`.
fn identity_order(n: usize) -> (order: Vec<usize>)
    ensures
        order@.len() == n,
        forall|k: int| 0 <= k < n ==> #[trigger] order@[k] == k,
{
    let mut order: Vec<usize> = Vec::new();
    let mut k: usize = 0;
    while k < n
        invariant
            k <= n,
            order@.len() == k,
            forall|i: int| 0 <= i < k ==> #[trigger] order@[i] == i,
        decreases n - k,
    {
        order.push(k);
        k = k + 1;
    }
    order
}

/// Orders `0..n` by insertion sort under `before`: each item moves ahead only
/// past items that it comes strictly before, so ties keep their order.
pub fn stable_order<F: Fn(usize, usize) -> bool>(
    n: usize,
    before: F,
    Ghost(lt): Ghost<spec_fn(int, int) -> bool>,
) -> (order: Vec<usize>)
    requires
        forall|a: usize, b: usize| a < n && b < n ==> #[trigger] before.requires((a, b)),
        forall|a: usize, b: usize, r: bool|
            a < n && b < n && #[trigger] before.ensures((a, b), r) ==> r == lt(a as int, b as int),
        asymmetric(n as int, lt),
    ensures
        stably_ordered(order@, n as int, lt),
{
    let mut order = identity_order(n);
    let mut i: usize = 0;
    while i < n
        invariant
            i <= n,
            order@.len() == n,
            forall|a: usize, b: usize| a < n && b < n ==> #[trigger] before.requires((a, b)),
            forall|a: usize, b: usize, r: bool|
                a < n && b < n && #[trigger] before.ensures((a, b), r) ==> r == lt(
                    a as int,
                    b as int,
                ),
            asymmetric(n as int, lt),
            forall|k: int| i <= k < n ==> #[trigger] order@[k] == k,
            forall|k: int| 0 <= k < i ==> #[trigger] order@[k] < i,
            forall|p: int, q: int| 0 <= p < q < n ==> #[trigger] order@[p] != #[trigger] order@[q],
            forall|k: int|
                0 <= k < i - 1 ==> !lt(#[trigger] order@[k + 1] as int, order@[k] as int),
            inversions_justified(order@, lt),
        decreases n - i,
    {
        let mut j: usize = i;
        while j > 0 && before(order[j], order[j - 1])
            invariant
                j <= i < n,
                order@.len() == n,
                forall|a: usize, b: usize| a < n && b < n ==> #[trigger] before.requires((a, b)),
                forall|a: usize, b: usize, r: bool|
                    a < n && b < n && #[trigger] before.ensures((a, b), r) ==> r == lt(
                        a as int,
                        b as int,
                    ),
                asymmetric(n as int, lt),
                order@[j as int] == i,
                forall|k: int| i < k < n ==> #[trigger] order@[k] == k,
                forall|k: int| 0 <= k <= i && k != j ==> #[trigger] order@[k] < i,
                forall|p: int, q: int|
                    0 <= p < q < n ==> #[trigger] order@[p] != #[trigger] order@[q],
                forall|k: int|
                    0 <= k < j - 1 ==> !lt(#[trigger] order@[k + 1] as int, order@[k] as int),
                forall|k: int|
                    j < k < i ==> !lt(#[trigger] order@[k + 1] as int, order@[k] as int),
                0 < j < i ==> !lt(order@[j + 1] as int, order@[j - 1] as int),
                forall|k: int| j < k <= i ==> lt(i as int, #[trigger] order@[k] as int),
                forall|p: int, q: int|
                    0 <= p < q < n && p != j && q != j && order@[q] < order@[p] ==> lt(
                        #[trigger] order@[p] as int,
                        #[trigger] order@[q] as int,
                    ),
            decreases j,
        {
            let ghost prev = order@;
            let x = order[j - 1];
            order.set(j - 1, i);
            order.set(j, x);
            proof {
                assert(lt(i as int, x as int));
                assert forall|p: int, q: int| 0 <= p < q < n implies #[trigger] order@[p]
                    != #[trigger] order@[q] by {
                    let pp = if p == j - 1 {
                        j as int
                    } else if p == j {
                        j - 1
                    } else {
                        p
                    };
                    let qq = if q == j - 1 {
                        j as int
                    } else if q == j {
                        j - 1
                    } else {
                        q
                    };
                    assert(order@[p] == prev[pp]);
                    assert(order@[q] == prev[qq]);
                    if pp < qq {
                        assert(prev[pp] != prev[qq]);
                    } else {
                        assert(prev[qq] != prev[pp]);
                    }
                }
                assert forall|p: int, q: int|
                    0 <= p < q < n && p != j - 1 && q != j - 1 && order@[q] < order@[p] implies lt(
                    #[trigger] order@[p] as int,
                    #[trigger] order@[q] as int,
                ) by {
                    let pp = if p == j {
                        j - 1
                    } else {
                        p
                    };
                    let qq = if q == j {
                        j - 1
                    } else {
                        q
                    };
                    assert(order@[p] == prev[pp]);
                    assert(order@[q] == prev[qq]);
                }
                assert forall|k: int| j - 1 < k <= i implies lt(
                    i as int,
                    #[trigger] order@[k] as int,
                ) by {
                    if k > j {
                        assert(order@[k] == prev[k]);
                    }
                }
                assert forall|k: int| j - 1 < k < i implies !lt(
                    #[trigger] order@[k + 1] as int,
                    order@[k] as int,
                ) by {
                    if k > j {
                        assert(order@[k] == prev[k]);
                        assert(order@[k + 1] == prev[k + 1]);
                    } else {
                        assert(order@[k + 1] == prev[k + 1]);
                    }
                }
                assert forall|k: int| 0 <= k < j - 2 implies !lt(
                    #[trigger] order@[k + 1] as int,
                    order@[k] as int,
                ) by {
                    assert(order@[k] == prev[k]);
                    assert(order@[k + 1] == prev[k + 1]);
                }
                if 0 < j - 1 {
                    assert(order@[j - 2] == prev[j - 2]);
                    let k = j - 2;
                    assert(prev[k + 1] == prev[j - 1]);
                    assert(!lt(prev[j - 1] as int, prev[j - 2] as int));
                }
            }
            j = j - 1;
        }
        proof {
            assert forall|k: int| 0 <= k < i implies !lt(
                #[trigger] order@[k + 1] as int,
                order@[k] as int,
            ) by {
                if k == j {
                    assert(lt(i as int, order@[k + 1] as int));
                    assert(order@[k] == i);
                    assert(order@[k + 1] < n);
                }
            }
            assert forall|p: int, q: int|
                0 <= p < q < n && order@[q] < order@[p] implies lt(
                #[trigger] order@[p] as int,
                #[trigger] order@[q] as int,
            ) by {
                if q > i {
                    assert(order@[q] == q);
                    if p > i {
                        assert(order@[p] == p);
                    } else if p != j {
                        assert(order@[p] < i);
                    }
                } else if p == j {
                } else if q == j {
                    assert(order@[p] < i);
                }
            }
        }
        i = i + 1;
    }
    order
}

} // verus!
