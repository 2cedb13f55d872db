//! Stable sorting by integer keys.

use vstd::prelude::*;

verus! {

/// A sort key: four numbers, the first of which decides first.
#[derive(Debug, Clone, Copy, PartialEq, Eq, Structural)]
pub struct SortKey {
    pub first: i128,
    pub second: i128,
    pub third: i128,
    pub fourth: i128,
}

/// One key orders before another.
pub open spec fn key_less(a: SortKey, b: SortKey) -> bool {
    if a.first != b.first {
        a.first < b.first
    } else if a.second != b.second {
        a.second < b.second
    } else if a.third != b.third {
        a.third < b.third
    } else {
        a.fourth < b.fourth
    }
}

/// Item `i` comes before item `j`: its key is less, or the keys are equal and
/// it stood first.
pub open spec fn comes_before(keys: Seq<SortKey>, i: int, j: int) -> bool {
    key_less(keys[i], keys[j]) || keys[i] == keys[j] && i < j
}

/// `order` lists the first `n` items, each once, in the order of their keys.
pub open spec fn orders(keys: Seq<SortKey>, order: Seq<usize>, n: int) -> bool {
    &&& order.len() == n
    &&& forall|i: int| 0 <= i < order.len() ==> (#[trigger] order[i]) < n
    &&& forall|i: int, j: int|
        0 <= i < j < order.len() ==> comes_before(
            keys,
            #[trigger] order[i] as int,
            #[trigger] order[j] as int,
        )
}

/// Item `k` is in the order.
pub open spec fn lists_item(order: Seq<usize>, k: int) -> bool {
    exists|i: int| 0 <= i < order.len() && #[trigger] order[i] == k
}

fn less(a: SortKey, b: SortKey) -> (r: bool)
    ensures
        r == key_less(a, b),
{
    if a.first != b.first {
        a.first < b.first
    } else if a.second != b.second {
        a.second < b.second
    } else if a.third != b.third {
        a.third < b.third
    } else {
        a.fourth < b.fourth
    }
}

/// The items in the order of their keys; equal keys keep their order.
pub fn stable_order(keys: &Vec<SortKey>) -> (r: Vec<usize>)
    ensures
        orders(keys@, r@, keys@.len() as int),
{
    let mut order: Vec<usize> = Vec::new();
    let mut k: usize = 0;
    while k < keys.len()
        invariant
            k <= keys@.len(),
            orders(keys@, order@, k as int),
        decreases keys@.len() - k,
    {
        let mut p: usize = order.len();
        while p > 0 && less(keys[k], keys[order[p - 1]])
            invariant
                k < keys@.len(),
                p <= order@.len(),
                orders(keys@, order@, k as int),
                forall|i: int|
                    p <= i < order@.len() ==> key_less(
                        keys@[k as int],
                        keys@[#[trigger] order@[i] as int],
                    ),
            decreases p,
        {
            p -= 1;
        }
        let ghost before = order@;
        assert(forall|i: int|
            0 <= i < p ==> comes_before(keys@, #[trigger] before[i] as int, k as int)) by {
            assert forall|i: int| 0 <= i < p implies comes_before(
                keys@,
                #[trigger] before[i] as int,
                k as int,
            ) by {
                assert(!key_less(keys@[k as int], keys@[before[p - 1] as int]));
                if i < p - 1 {
                    assert(comes_before(keys@, before[i] as int, before[p - 1] as int));
                }
            }
        }
        order.insert(p, k);
        assert(order@ == before.insert(p as int, k));
        assert forall|i: int, j: int| 0 <= i < j < order@.len() implies comes_before(
            keys@,
            #[trigger] order@[i] as int,
            #[trigger] order@[j] as int,
        ) by {
            if i < p {
                assert(order@[i] == before[i]);
            } else if i > p {
                assert(order@[i] == before[i - 1]);
            }
            if j < p {
                assert(order@[j] == before[j]);
            } else if j > p {
                assert(order@[j] == before[j - 1]);
            }
        }
        assert forall|i: int| 0 <= i < order@.len() implies (#[trigger] order@[i]) < k + 1 by {
            if i < p {
                assert(order@[i] == before[i]);
            } else if i > p {
                assert(order@[i] == before[i - 1]);
            }
        }
        k += 1;
    }
    order
}

/// An order lists every item, none of them twice.
pub proof fn an_order_is_a_permutation(keys: Seq<SortKey>, order: Seq<usize>)
    requires
        orders(keys, order, keys.len() as int),
    ensures
        forall|i: int, j: int|
            0 <= i < j < order.len() ==> (#[trigger] order[i]) != (#[trigger] order[j]),
        forall|k: int| 0 <= k < keys.len() ==> #[trigger] lists_item(order, k),
{
    assert forall|i: int, j: int| 0 <= i < j < order.len() implies (#[trigger] order[i]) != (
    #[trigger] order[j]) by {
        assert(comes_before(keys, order[i] as int, order[j] as int));
    }
    let image = order.map_values(|x: usize| x as int);
    assert(image.no_duplicates());
    image.unique_seq_to_set();
    let all = vstd::set_lib::set_int_range(0, keys.len() as int);
    vstd::set_lib::lemma_int_range(0, keys.len() as int);
    assert(image.to_set().subset_of(all));
    vstd::set_lib::lemma_subset_equality(image.to_set(), all);
    assert forall|k: int| 0 <= k < keys.len() implies #[trigger] lists_item(order, k) by {
        assert(all.contains(k));
        assert(image.to_set().contains(k));
        let i = choose|i: int| 0 <= i < image.len() && image[i] == k;
        assert(order[i] == k);
    }
}

/// Equal keys leave no choice: there is only one order.
pub proof fn an_order_is_unique(keys: Seq<SortKey>, a: Seq<usize>, b: Seq<usize>, n: int)
    requires
        0 <= n <= keys.len(),
        orders(keys, a, keys.len() as int),
        orders(keys, b, keys.len() as int),
    ensures
        a.take(n) == b.take(n),
    decreases n,
{
    if n > 0 {
        an_order_is_unique(keys, a, b, n - 1);
        an_order_is_a_permutation(keys, a);
        an_order_is_a_permutation(keys, b);
        let x = a[n - 1];
        let y = b[n - 1];
        if x != y {
            assert(lists_item(b, x as int) && lists_item(a, y as int));
            let i = choose|i: int| 0 <= i < b.len() && #[trigger] b[i] == x;
            let j = choose|j: int| 0 <= j < a.len() && #[trigger] a[j] == y;
            assert(a.take(n - 1) =~= b.take(n - 1));
            if i < n - 1 {
                assert(a.take(n - 1)[i] == b.take(n - 1)[i]);
                assert(a[i] == a[n - 1]);
            }
            if j < n - 1 {
                assert(a.take(n - 1)[j] == b.take(n - 1)[j]);
                assert(b[j] == b[n - 1]);
            }
            assert(comes_before(keys, b[n - 1] as int, b[i] as int));
            assert(comes_before(keys, a[n - 1] as int, a[j] as int));
        }
        assert(a.take(n) =~= a.take(n - 1).push(x));
        assert(b.take(n) =~= b.take(n - 1).push(y));
    }
}

} // verus!
