//! Stable sorting by a binary32 key, sorted sets of indices, and sums.
use crate::float::F32;
use vstd::prelude::*;

verus! {

/// `x` comes strictly before `y` in the chosen direction. A NaN comes before
/// nothing and nothing comes before it.
pub open spec fn comes_before(x: F32, y: F32, descending: bool) -> bool {
    if descending {
        y < x
    } else {
        x < y
    }
}

/// Where a new key goes among the first `p` entries of `order`: behind the
/// last entry that it does not come before.
pub open spec fn place(keys: Seq<F32>, order: Seq<usize>, x: F32, descending: bool, p: int) -> int
    decreases p,
{
    if p <= 0 {
        0
    } else if comes_before(x, keys[order[p - 1] as int], descending) {
        place(keys, order, x, descending, p - 1)
    } else {
        p
    }
}

/// Two rows hold the same numbers at the same places. Zeros of both signs are the
/// same number.
pub open spec fn same_numbers(a: Seq<F32>, b: Seq<F32>) -> bool {
    a.len() == b.len() && forall|i: int| 0 <= i < a.len() ==> (#[trigger] a[i]).same_number(b[i])
}

/// The indices of the first `n` keys in sorted order; equal keys keep their order.
pub open spec fn sorted_order(keys: Seq<F32>, descending: bool, n: nat) -> Seq<usize>
    decreases n,
{
    if n == 0 {
        Seq::empty()
    } else {
        let rest = sorted_order(keys, descending, (n - 1) as nat);
        rest.insert(
            place(keys, rest, keys[n - 1], descending, rest.len() as int),
            (n - 1) as usize,
        )
    }
}

/// `order` lists every index below `n` once.
pub open spec fn lists_indices(order: Seq<usize>, n: nat) -> bool {
    &&& order.len() == n
    &&& forall|i: int| 0 <= i < n ==> (#[trigger] order[i]) < n
    &&& forall|i: int, j: int| 0 <= i < j < n ==> order[i] != order[j]
}

/// The items of `s` in the given order.
pub open spec fn arranged<T>(s: Seq<T>, order: Seq<usize>) -> Seq<T> {
    Seq::new(order.len(), |i: int| s[order[i] as int])
}

proof fn lemma_place_in_range(keys: Seq<F32>, order: Seq<usize>, x: F32, descending: bool, p: int)
    requires
        0 <= p <= order.len(),
    ensures
        0 <= place(keys, order, x, descending, p) <= p,
        forall|i: int|
            place(keys, order, x, descending, p) <= i < p ==> comes_before(
                x,
                keys[#[trigger] order[i] as int],
                descending,
            ),
        place(keys, order, x, descending, p) > 0 ==> !comes_before(
            x,
            keys[order[place(keys, order, x, descending, p) - 1] as int],
            descending,
        ),
    decreases p,
{
    if p > 0 && comes_before(x, keys[order[p - 1] as int], descending) {
        lemma_place_in_range(keys, order, x, descending, p - 1);
    }
}

/// Sorting loses no index and repeats none.
pub proof fn lemma_sorted_order_lists_indices(keys: Seq<F32>, descending: bool, n: nat)
    requires
        n <= keys.len(),
        n <= usize::MAX,
    ensures
        lists_indices(sorted_order(keys, descending, n), n),
    decreases n,
{
    if n > 0 {
        let rest = sorted_order(keys, descending, (n - 1) as nat);
        lemma_sorted_order_lists_indices(keys, descending, (n - 1) as nat);
        lemma_place_in_range(keys, rest, keys[n - 1], descending, rest.len() as int);
        let p = place(keys, rest, keys[n - 1], descending, rest.len() as int);
        let s = rest.insert(p, (n - 1) as usize);
        assert forall|i: int| 0 <= i < n implies (#[trigger] s[i]) < n by {
            if i < p {
                assert(s[i] == rest[i]);
            } else if i > p {
                assert(s[i] == rest[i - 1]);
            }
        }
        assert forall|i: int, j: int| 0 <= i < j < n implies s[i] != s[j] by {
            if i < p {
                assert(s[i] == rest[i]);
            } else if i > p {
                assert(s[i] == rest[i - 1]);
            }
            if j < p {
                assert(s[j] == rest[j]);
            } else if j > p {
                assert(s[j] == rest[j - 1]);
            }
        }
    }
}

/// Every index has a place in the sorted order.
pub proof fn lemma_sorted_order_finds(keys: Seq<F32>, descending: bool, n: nat, k: usize) -> (i: int)
    requires
        n <= keys.len(),
        n <= usize::MAX,
        k < n,
    ensures
        0 <= i < n,
        sorted_order(keys, descending, n)[i] == k,
    decreases n,
{
    let rest = sorted_order(keys, descending, (n - 1) as nat);
    lemma_sorted_order_lists_indices(keys, descending, (n - 1) as nat);
    lemma_place_in_range(keys, rest, keys[n - 1], descending, rest.len() as int);
    let p = place(keys, rest, keys[n - 1], descending, rest.len() as int);
    if k == n - 1 {
        p
    } else {
        let i = lemma_sorted_order_finds(keys, descending, (n - 1) as nat, k);
        if i < p {
            i
        } else {
            i + 1
        }
    }
}

/// Without NaN keys the result is sorted: no later key comes before an earlier
/// one, and of keys that tie the one with the lower index stands first.
pub proof fn lemma_sorted_order_is_stable(keys: Seq<F32>, descending: bool, n: nat)
    requires
        n <= keys.len(),
        n <= usize::MAX,
        forall|i: int| 0 <= i < n ==> !(#[trigger] keys[i]).is_nan(),
    ensures
        ({
            let order = sorted_order(keys, descending, n);
            forall|i: int, j: int|
                #![trigger order[i], order[j]]
                0 <= i < j < n ==> {
                    &&& !comes_before(keys[order[j] as int], keys[order[i] as int], descending)
                    &&& comes_before(keys[order[i] as int], keys[order[j] as int], descending)
                        || order[i] < order[j]
                }
        }),
    decreases n,
{
    if n > 0 {
        let rest = sorted_order(keys, descending, (n - 1) as nat);
        lemma_sorted_order_is_stable(keys, descending, (n - 1) as nat);
        lemma_sorted_order_lists_indices(keys, descending, (n - 1) as nat);
        lemma_place_in_range(keys, rest, keys[n - 1], descending, rest.len() as int);
        let p = place(keys, rest, keys[n - 1], descending, rest.len() as int);
        let s = rest.insert(p, (n - 1) as usize);
        assert forall|i: int, j: int|
            #![trigger s[i], s[j]]
            0 <= i < j < n implies {
            &&& !comes_before(keys[s[j] as int], keys[s[i] as int], descending)
            &&& comes_before(keys[s[i] as int], keys[s[j] as int], descending) || s[i] < s[j]
        } by {
            if j < p {
                assert(s[i] == rest[i] && s[j] == rest[j]);
            } else if j == p {
                assert(s[i] == rest[i]);
                assert(rest[p - 1] < n - 1);
                if i < p - 1 {
                    assert(rest[i] < n - 1);
                    assert(!comes_before(keys[rest[p - 1] as int], keys[rest[i] as int], descending));
                }
            } else {
                assert(s[j] == rest[j - 1]);
                if i < p {
                    assert(s[i] == rest[i]);
                } else if i > p {
                    assert(s[i] == rest[i - 1]);
                }
            }
        }
    }
}

/// Everything in sorted order was there before.
pub proof fn lemma_arranged_from<T>(s: Seq<T>, keys: Seq<F32>, descending: bool, i: int) -> (k: int)
    requires
        keys.len() == s.len(),
        s.len() <= usize::MAX,
        0 <= i < arranged(s, sorted_order(keys, descending, s.len())).len(),
    ensures
        0 <= k < s.len(),
        arranged(s, sorted_order(keys, descending, s.len()))[i] == s[k],
{
    lemma_sorted_order_lists_indices(keys, descending, s.len());
    sorted_order(keys, descending, s.len())[i] as int
}

/// Without NaN keys, no key in sorted order comes before an earlier one.
pub proof fn lemma_arranged_in_order<T>(s: Seq<T>, keys: Seq<F32>, descending: bool, i: int, j: int) -> (r: (
    int,
    int,
))
    requires
        keys.len() == s.len(),
        s.len() <= usize::MAX,
        forall|k: int| 0 <= k < keys.len() ==> !(#[trigger] keys[k]).is_nan(),
        0 <= i < j < s.len(),
    ensures
        0 <= r.0 < s.len(),
        0 <= r.1 < s.len(),
        arranged(s, sorted_order(keys, descending, s.len()))[i] == s[r.0],
        arranged(s, sorted_order(keys, descending, s.len()))[j] == s[r.1],
        !comes_before(keys[r.1], keys[r.0], descending),
{
    lemma_sorted_order_lists_indices(keys, descending, s.len());
    lemma_sorted_order_is_stable(keys, descending, s.len());
    let order = sorted_order(keys, descending, s.len());
    (order[i] as int, order[j] as int)
}

fn precedes(x: F32, y: F32, descending: bool) -> (r: bool)
    ensures
        r == comes_before(x, y, descending),
{
    if descending {
        y < x
    } else {
        x < y
    }
}

/// The indices of `keys` in sorted order.
pub fn sort_order(keys: &[F32], descending: bool) -> (order: Vec<usize>)
    ensures
        order@ == sorted_order(keys@, descending, keys@.len()),
        lists_indices(order@, keys@.len()),
{
    let mut order: Vec<usize> = Vec::new();
    let mut n: usize = 0;
    while n < keys.len()
        invariant
            n <= keys.len(),
            order@ == sorted_order(keys@, descending, n as nat),
            lists_indices(order@, n as nat),
        decreases keys.len() - n,
    {
        let x = keys[n];
        let mut p: usize = order.len();
        while p > 0 && precedes(x, keys[order[p - 1]], descending)
            invariant
                n < keys.len(),
                p <= order.len(),
                x == keys@[n as int],
                lists_indices(order@, n as nat),
                place(keys@, order@, x, descending, order@.len() as int) == place(
                    keys@,
                    order@,
                    x,
                    descending,
                    p as int,
                ),
            ensures
                p <= order.len(),
                place(keys@, order@, x, descending, order@.len() as int) == p,
            decreases p,
        {
            p = p - 1;
        }
        order.insert(p, n);
        n = n + 1;
        proof {
            lemma_sorted_order_lists_indices(keys@, descending, n as nat);
        }
    }
    order
}

/// The items of `s` in the given order.
pub fn arrange<T: Copy>(s: &[T], order: &[usize]) -> (r: Vec<T>)
    requires
        forall|i: int| 0 <= i < order@.len() ==> (#[trigger] order@[i]) < s@.len(),
    ensures
        r@ == arranged(s@, order@),
{
    let mut r: Vec<T> = Vec::new();
    let mut i: usize = 0;
    while i < order.len()
        invariant
            i <= order.len(),
            forall|k: int| 0 <= k < order@.len() ==> (#[trigger] order@[k]) < s@.len(),
            r@.len() == i,
            forall|k: int| 0 <= k < i ==> r@[k] == s@[order@[k] as int],
        decreases order.len() - i,
    {
        r.push(s[order[i]]);
        i = i + 1;
    }
    assert(r@ =~= arranged(s@, order@));
    r
}

/// `r` holds the values of `s`, each once, in increasing order.
pub open spec fn sorted_set_of(r: Seq<usize>, s: Seq<usize>) -> bool {
    &&& forall|i: int, j: int| 0 <= i < j < r.len() ==> r[i] < r[j]
    &&& forall|x: usize| r.contains(x) <==> s.contains(x)
}

/// Only one sequence holds given values once each in increasing order.
pub proof fn lemma_sorted_set_is_unique(a: Seq<usize>, b: Seq<usize>, s: Seq<usize>)
    requires
        sorted_set_of(a, s),
        sorted_set_of(b, s),
    ensures
        a == b,
    decreases a.len(),
{
    if a.len() == 0 {
        if b.len() > 0 {
            assert(b.contains(b[0]));
            assert(a.contains(b[0]));
        }
        assert(a =~= b);
    } else {
        assert(a.contains(a.last()));
        assert(b.contains(a.last()));
        assert(b.len() > 0);
        assert(b.contains(b.last()));
        assert(a.contains(b.last()));
        let i = choose|i: int| 0 <= i < b.len() && b[i] == a.last();
        let j = choose|j: int| 0 <= j < a.len() && a[j] == b.last();
        assert(a.last() == b.last());
        let a1 = a.drop_last();
        let b1 = b.drop_last();
        let s1 = a1;
        assert forall|x: usize| b1.contains(x) <==> s1.contains(x) by {
            if b1.contains(x) {
                let k = choose|k: int| 0 <= k < b1.len() && b1[k] == x;
                assert(b[k] == x);
                assert(b.contains(x));
                assert(a.contains(x));
                let l = choose|l: int| 0 <= l < a.len() && a[l] == x;
                assert(x < b.last());
                assert(a1[l] == x);
            }
            if s1.contains(x) {
                let k = choose|k: int| 0 <= k < a1.len() && a1[k] == x;
                assert(a[k] == x);
                assert(a.contains(x));
                assert(b.contains(x));
                let l = choose|l: int| 0 <= l < b.len() && b[l] == x;
                assert(x < a.last());
                assert(b1[l] == x);
            }
        }
        lemma_sorted_set_is_unique(a1, b1, s1);
        assert(a =~= a1.push(a.last()));
        assert(b =~= b1.push(b.last()));
    }
}

/// The values of `s`, each once, in increasing order.
pub open spec fn sorted_set(s: Seq<usize>) -> Seq<usize> {
    choose|r: Seq<usize>| sorted_set_of(r, s)
}

/// Sorts indices and drops repeats.
pub fn sort_dedup(s: &[usize]) -> (r: Vec<usize>)
    ensures
        r@ == sorted_set(s@),
        sorted_set_of(r@, s@),
{
    let mut r: Vec<usize> = Vec::new();
    let mut n: usize = 0;
    while n < s.len()
        invariant
            n <= s.len(),
            r@.len() <= n,
            sorted_set_of(r@, s@.take(n as int)),
        decreases s.len() - n,
    {
        let x: usize = s[n];
        let mut p: usize = r.len();
        while p > 0 && r[p - 1] > x
            invariant
                p <= r.len(),
                forall|k: int| p <= k < r@.len() ==> r@[k] > x,
            decreases p,
        {
            p = p - 1;
        }
        let ghost before: Seq<usize> = r@;
        let ghost old_take: Seq<usize> = s@.take(n as int);
        let ghost new_take: Seq<usize> = s@.take(n + 1);
        assert(new_take =~= old_take.push(x));
        if p == 0 || r[p - 1] < x {
            r.insert(p, x);
            assert forall|y: usize| r@.contains(y) <==> new_take.contains(y) by {
                if r@.contains(y) {
                    let k = choose|k: int| 0 <= k < r@.len() && r@[k] == y;
                    if k == p {
                        assert(new_take[n as int] == y);
                    } else {
                        let k2 = if k < p { k } else { k - 1 };
                        assert(before[k2] == y);
                        assert(before.contains(y));
                        let l = choose|l: int| 0 <= l < old_take.len() && old_take[l] == y;
                        assert(new_take[l] == y);
                    }
                }
                if new_take.contains(y) {
                    let l = choose|l: int| 0 <= l < new_take.len() && new_take[l] == y;
                    if l == n {
                        assert(r@[p as int] == y);
                    } else {
                        assert(old_take[l] == y);
                        assert(before.contains(y));
                        let k = choose|k: int| 0 <= k < before.len() && before[k] == y;
                        if k < p {
                            assert(r@[k] == y);
                        } else {
                            assert(r@[k + 1] == y);
                        }
                    }
                }
            }
        } else {
            assert forall|y: usize| r@.contains(y) <==> new_take.contains(y) by {
                if r@.contains(y) {
                    let l = choose|l: int| 0 <= l < old_take.len() && old_take[l] == y;
                    assert(new_take[l] == y);
                }
                if new_take.contains(y) {
                    let l = choose|l: int| 0 <= l < new_take.len() && new_take[l] == y;
                    if l == n {
                        assert(r@[p - 1] == y);
                    } else {
                        assert(old_take[l] == y);
                    }
                }
            }
        }
        n = n + 1;
    }
    assert(s@.take(s@.len() as int) =~= s@);
    proof {
        lemma_sorted_set_is_unique(r@, sorted_set(s@), s@);
    }
    r
}

/// What adding up nothing gives: a zero with its sign set.
#[verifier::allow_in_spec]
pub fn empty_sum() -> F32
    returns
        (F32 { bits: 0x8000_0000 }),
{
    F32 { bits: 0x8000_0000 }
}

/// The sum of the items, added up from the left.
pub open spec fn sum_of(s: Seq<F32>) -> F32
    decreases s.len(),
{
    if s.len() == 0 {
        empty_sum()
    } else {
        sum_of(s.drop_last()) + s.last()
    }
}

pub fn sum(s: &[F32]) -> (r: F32)
    ensures
        r == sum_of(s@),
{
    let mut acc = empty_sum();
    let mut i: usize = 0;
    while i < s.len()
        invariant
            i <= s.len(),
            acc == sum_of(s@.take(i as int)),
        decreases s.len() - i,
    {
        acc = acc + s[i];
        assert(s@.take(i + 1).drop_last() =~= s@.take(i as int));
        i = i + 1;
    }
    assert(s@.take(s@.len() as int) =~= s@);
    acc
}

/// Sorting keeps every item.
pub proof fn lemma_arranged_keeps_items<T>(s: Seq<T>, keys: Seq<F32>, descending: bool, n: nat)
    requires
        keys.len() == s.len(),
        n <= s.len() <= usize::MAX,
    ensures
        arranged(s, sorted_order(keys, descending, n)).to_multiset() == s.take(n as int).to_multiset(),
    decreases n,
{
    broadcast use vstd::seq_lib::group_to_multiset_ensures;

    if n == 0 {
        assert(s.take(0) =~= Seq::<T>::empty());
        assert(arranged(s, sorted_order(keys, descending, 0)) =~= Seq::<T>::empty());
    } else {
        lemma_arranged_keeps_items(s, keys, descending, (n - 1) as nat);
        let rest = sorted_order(keys, descending, (n - 1) as nat);
        lemma_place_in_range(keys, rest, keys[n - 1], descending, rest.len() as int);
        let p = place(keys, rest, keys[n - 1], descending, rest.len() as int);
        let before = arranged(s, rest);
        assert(arranged(s, sorted_order(keys, descending, n)) =~= before.insert(p, s[n - 1]));
        before.to_multiset_ensures();
        assert(s.take(n as int) =~= s.take(n - 1).push(s[n - 1]));
    }
}

proof fn lemma_place_forgets_signs(
    a: Seq<F32>,
    b: Seq<F32>,
    order: Seq<usize>,
    n: nat,
    k: int,
    descending: bool,
    p: int,
)
    requires
        same_numbers(a, b),
        lists_indices(order, n),
        n <= a.len(),
        0 <= k < a.len(),
        0 <= p <= order.len(),
    ensures
        place(a, order, a[k], descending, p) == place(b, order, b[k], descending, p),
    decreases p,
{
    if p > 0 {
        lemma_place_forgets_signs(a, b, order, n, k, descending, p - 1);
        let j = order[p - 1] as int;
        assert(a[j].same_number(b[j]));
        assert(a[k].same_number(b[k]));
    }
}

/// Keys that are the same numbers have the same sorted order.
pub proof fn lemma_sorted_order_forgets_signs(a: Seq<F32>, b: Seq<F32>, descending: bool, n: nat)
    requires
        same_numbers(a, b),
        n <= a.len(),
        n <= usize::MAX,
    ensures
        sorted_order(a, descending, n) == sorted_order(b, descending, n),
    decreases n,
{
    if n > 0 {
        let rest = sorted_order(a, descending, (n - 1) as nat);
        lemma_sorted_order_forgets_signs(a, b, descending, (n - 1) as nat);
        lemma_sorted_order_lists_indices(a, descending, (n - 1) as nat);
        lemma_place_forgets_signs(
            a,
            b,
            rest,
            (n - 1) as nat,
            n - 1,
            descending,
            rest.len() as int,
        );
    }
}

} // verus!
