use vstd::multiset::Multiset;
use vstd::prelude::*;

verus! {

/// A sort key: compared by its first component, then by its second.
pub type SortKey = (u64, u64);

/// `a` orders strictly before `b`.
pub open spec fn key_lt(a: SortKey, b: SortKey) -> bool {
    a.0 < b.0 || (a.0 == b.0 && a.1 < b.1)
}

/// The item with key `k1` at input position `i1` comes before the one with key `k2` at
/// input position `i2` in a stable sort: by key, and by input position among equal keys.
pub open spec fn rank_lt(k1: SortKey, i1: int, k2: SortKey, i2: int) -> bool {
    key_lt(k1, k2) || (k1 == k2 && i1 < i2)
}

/// `p` lists each of `0..n` exactly once.
pub open spec fn is_permutation(p: Seq<int>, n: nat) -> bool {
    &&& p.len() == n
    &&& forall|k: int| 0 <= k < p.len() ==> 0 <= #[trigger] p[k] < n
    &&& forall|k: int, l: int| 0 <= k < l < p.len() ==> p[k] != p[l]
}

/// `out` is `inp` rearranged so that its `k`-th item is `inp[p[k]]`.
pub open spec fn arranged_by<T>(out: Seq<T>, inp: Seq<T>, p: Seq<int>) -> bool {
    &&& out.len() == p.len()
    &&& forall|k: int| 0 <= k < out.len() ==> out[k] == inp[#[trigger] p[k]]
}

/// Taking the input positions in the order `p`, the items come by increasing key, and
/// items with equal keys keep their input order.
pub open spec fn ranks_increase(p: Seq<int>, keys: Seq<SortKey>) -> bool {
    forall|k: int, l: int|
        0 <= k < l < p.len() ==> rank_lt(keys[#[trigger] p[k]], p[k], keys[#[trigger] p[l]], p[l])
}

/// `out` is what a stable sort of `inp` by `keys` (the key of `inp[i]` is `keys[i]`) gives.
pub open spec fn is_stable_sort_of<T>(out: Seq<T>, inp: Seq<T>, keys: Seq<SortKey>) -> bool {
    exists|p: Seq<int>|
        #![trigger arranged_by(out, inp, p)]
        is_permutation(p, inp.len()) && arranged_by(out, inp, p) && ranks_increase(p, keys)
}

/// Position of the first smallest key.
fn first_min(keys: &Vec<SortKey>) -> (m: usize)
    requires
        keys.len() > 0,
    ensures
        m < keys.len(),
        forall|j: int| 0 <= j < keys.len() ==> !key_lt(#[trigger] keys@[j], keys@[m as int]),
        forall|j: int| 0 <= j < m ==> key_lt(keys@[m as int], #[trigger] keys@[j]),
{
    let mut m: usize = 0;
    let mut j: usize = 1;
    while j < keys.len()
        invariant
            1 <= j <= keys.len(),
            m < j,
            forall|i: int| 0 <= i < j ==> !key_lt(#[trigger] keys@[i], keys@[m as int]),
            forall|i: int| 0 <= i < m ==> key_lt(keys@[m as int], #[trigger] keys@[i]),
        decreases keys.len() - j,
    {
        let a = keys[j];
        let b = keys[m];
        if a.0 < b.0 || (a.0 == b.0 && a.1 < b.1) {
            m = j;
        }
        j = j + 1;
    }
    m
}

/// Sorts `items` by `keys` (the key of `items[i]` is `keys[i]`), keeping the order of items
/// with equal keys.
pub fn stable_sort_by_keys<T>(items: &mut Vec<T>, keys: &Vec<SortKey>)
    requires
        old(items).len() == keys.len(),
    ensures
        is_stable_sort_of(final(items)@, old(items)@, keys@),
        final(items)@.to_multiset() == old(items)@.to_multiset(),
{
    let ghost inp = old(items)@;
    let ghost n = inp.len();
    let mut rest: Vec<T> = Vec::new();
    std::mem::swap(items, &mut rest);
    let mut rest_keys: Vec<SortKey> = Vec::new();
    for i in 0..keys.len()
        invariant
            rest_keys@ == keys@.take(i as int),
    {
        rest_keys.push(keys[i]);
    }
    proof {
        assert(rest_keys@ =~= keys@);
    }
    let ghost mut idx: Seq<int> = Seq::new(n, |i: int| i);
    assert(rest@ == inp);
    proof {
        broadcast use vstd::multiset::group_multiset_axioms;
        assert(items@ =~= Seq::<T>::empty());
        assert(items@.to_multiset() =~= Multiset::empty()) by {
            broadcast use vstd::seq_lib::to_multiset_len, vstd::multiset::lemma_multiset_empty_len;
            assert(items@.to_multiset().len() == 0);
        }
        assert(items@.to_multiset().add(rest@.to_multiset()) =~= inp.to_multiset());
    }
    let ghost mut perm: Seq<int> = Seq::empty();
    while rest.len() > 0
        invariant
            rest@.len() == rest_keys@.len(),
            rest@.len() == idx.len(),
            perm.len() + idx.len() == n,
            n == inp.len(),
            n == keys@.len(),
            items@.len() == perm.len(),
            forall|k: int| 0 <= k < perm.len() ==> items@[k] == inp[#[trigger] perm[k]],
            forall|j: int|
                0 <= j < idx.len() ==> rest@[j] == inp[#[trigger] idx[j]] && rest_keys@[j]
                    == keys@[idx[j]],
            forall|j: int| 0 <= j < idx.len() ==> 0 <= #[trigger] idx[j] < n,
            forall|k: int| 0 <= k < perm.len() ==> 0 <= #[trigger] perm[k] < n,
            forall|j1: int, j2: int| 0 <= j1 < j2 < idx.len() ==> idx[j1] < idx[j2],
            forall|k: int, l: int| 0 <= k < l < perm.len() ==> perm[k] != perm[l],
            forall|k: int, j: int|
                0 <= k < perm.len() && 0 <= j < idx.len() ==> #[trigger] perm[k] != #[trigger] idx[j],
            ranks_increase(perm, keys@),
            items@.to_multiset().add(rest@.to_multiset()) == inp.to_multiset(),
            forall|k: int, j: int|
                0 <= k < perm.len() && 0 <= j < idx.len() ==> rank_lt(
                    keys@[#[trigger] perm[k]],
                    perm[k],
                    keys@[#[trigger] idx[j]],
                    idx[j],
                ),
        decreases rest@.len(),
    {
        let m = first_min(&rest_keys);
        let ghost prev_keys = rest_keys@;
        let ghost prev_rest = rest@;
        let ghost prev_items = items@;
        let ghost prev_perm = perm;
        let ghost prev_idx = idx;
        let ghost x = idx[m as int];
        proof {
            assert forall|j: int| 0 <= j < idx.len() && j != m implies rank_lt(
                keys@[x],
                x,
                keys@[#[trigger] idx[j]],
                idx[j],
            ) by {
                assert(prev_keys[j] == keys@[idx[j]]);
                assert(prev_keys[m as int] == keys@[x]);
                if j < m {
                    assert(key_lt(prev_keys[m as int], prev_keys[j]));
                } else {
                    assert(!key_lt(prev_keys[j], prev_keys[m as int]));
                    assert(x < idx[j]);
                }
            }
        }
        let item = rest.remove(m);
        let _k = rest_keys.remove(m);
        items.push(item);
        proof {
            broadcast use vstd::seq_lib::to_multiset_remove, vstd::seq_lib::to_multiset_build;
            broadcast use vstd::multiset::group_multiset_axioms;
            assert(rest@ == prev_rest.remove(m as int));
            assert(items@ == prev_items.push(prev_rest[m as int]));
            let y = prev_rest[m as int];
            assert(prev_rest.contains(y));
            vstd::seq_lib::to_multiset_contains(prev_rest, y);
            assert(prev_rest.to_multiset().count(y) > 0);
            assert(items@.to_multiset() == prev_items.to_multiset().insert(y));
            assert(rest@.to_multiset() == prev_rest.to_multiset().remove(y));
            assert(items@.to_multiset().add(rest@.to_multiset()) =~= prev_items.to_multiset().add(prev_rest.to_multiset()));
            perm = perm.push(x);
            idx = idx.remove(m as int);
            assert forall|k: int, l: int| 0 <= k < l < perm.len() implies rank_lt(
                keys@[#[trigger] perm[k]],
                perm[k],
                keys@[#[trigger] perm[l]],
                perm[l],
            ) by {
                if l < prev_perm.len() {
                    assert(perm[k] == prev_perm[k] && perm[l] == prev_perm[l]);
                } else {
                    assert(perm[k] == prev_perm[k] && perm[l] == x);
                    assert(prev_idx[m as int] == x);
                }
            }
            assert forall|k: int, j: int| 0 <= k < perm.len() && 0 <= j < idx.len() implies rank_lt(
                keys@[#[trigger] perm[k]],
                perm[k],
                keys@[#[trigger] idx[j]],
                idx[j],
            ) by {
                let jj = if j < m { j } else { j + 1 };
                assert(idx[j] == prev_idx[jj]);
                if k < prev_perm.len() {
                    assert(perm[k] == prev_perm[k]);
                } else {
                    assert(perm[k] == x);
                }
            }
            assert forall|k: int, j: int| 0 <= k < perm.len() && 0 <= j < idx.len() implies #[trigger] perm[k] != #[trigger] idx[j] by {
                let jj = if j < m { j } else { j + 1 };
                assert(idx[j] == prev_idx[jj]);
                if k < prev_perm.len() {
                    assert(perm[k] == prev_perm[k]);
                } else {
                    assert(perm[k] == x);
                }
            }
            assert forall|k: int, l: int| 0 <= k < l < perm.len() implies perm[k] != perm[l] by {
                if l == prev_perm.len() {
                    assert(perm[k] == prev_perm[k]);
                    assert(perm[l] == prev_idx[m as int]);
                }
            }
            assert forall|j: int| 0 <= j < idx.len() implies rest@[j] == inp[#[trigger] idx[j]] && rest_keys@[j]
                    == keys@[idx[j]] by {
                let jj = if j < m { j } else { j + 1 };
                assert(idx[j] == prev_idx[jj]);
                assert(rest@[j] == prev_rest[jj]);
                assert(rest_keys@[j] == prev_keys[jj]);
            }
            assert forall|k: int| 0 <= k < perm.len() implies items@[k] == inp[#[trigger] perm[k]] by {
                if k < prev_perm.len() {
                    assert(items@[k] == prev_items[k]);
                }
            }
            assert forall|j1: int, j2: int| 0 <= j1 < j2 < idx.len() implies idx[j1] < idx[j2] by {
                let a = if j1 < m { j1 } else { j1 + 1 };
                let b = if j2 < m { j2 } else { j2 + 1 };
                assert(idx[j1] == prev_idx[a]);
                assert(idx[j2] == prev_idx[b]);
            }
        }
    }
    proof {
        broadcast use vstd::multiset::group_multiset_axioms;
        assert(rest@.to_multiset() =~= Multiset::empty()) by {
            broadcast use vstd::seq_lib::to_multiset_len, vstd::multiset::lemma_multiset_empty_len;
            assert(rest@.to_multiset().len() == 0);
        }
        assert(items@.to_multiset() =~= items@.to_multiset().add(rest@.to_multiset()));
        assert(arranged_by(items@, inp, perm));
        assert(is_permutation(perm, n));
    }
}

/// The keys of `s` under `key`.
pub open spec fn keys_of<T>(s: Seq<T>, key: spec_fn(T) -> SortKey) -> Seq<SortKey> {
    Seq::new(s.len(), |i: int| key(s[i]))
}

/// A stable sort by `key` lists the items by non-decreasing key, and it keeps the number of
/// items.
pub proof fn stable_sort_ascends<T>(out: Seq<T>, inp: Seq<T>, key: spec_fn(T) -> SortKey)
    requires
        is_stable_sort_of(out, inp, keys_of(inp, key)),
    ensures
        out.len() == inp.len(),
        forall|k: int, l: int| 0 <= k < l < out.len() ==> !key_lt(key(out[l]), key(out[k])),
{
    let p = choose|p: Seq<int>|
        #![trigger arranged_by(out, inp, p)]
        is_permutation(p, inp.len()) && arranged_by(out, inp, p) && ranks_increase(
            p,
            keys_of(inp, key),
        );
    assert forall|k: int, l: int| 0 <= k < l < out.len() implies !key_lt(key(out[l]), key(out[k])) by {
        assert(out[k] == inp[p[k]]);
        assert(out[l] == inp[p[l]]);
        assert(rank_lt(keys_of(inp, key)[p[k]], p[k], keys_of(inp, key)[p[l]], p[l]));
    }
}

/// A permutation of `0..n` lists every number below `n`.
pub proof fn lemma_permutation_covers(p: Seq<int>, n: nat, x: int)
    requires
        is_permutation(p, n),
        0 <= x < n,
    ensures
        p.contains(x),
{
    broadcast use vstd::seq_lib::group_seq_properties, vstd::set::group_set_axioms;

    assert(p.no_duplicates()) by {
        assert forall|i: int, j: int| 0 <= i < p.len() && 0 <= j < p.len() && i != j implies p[i]
            != p[j] by {
            if i < j {
            } else {
            }
        }
    }
    p.unique_seq_to_set();
    vstd::set_lib::lemma_int_range(0, n as int);
    let range = vstd::set_lib::set_int_range(0, n as int);
    assert(p.to_set().subset_of(range)) by {
        assert forall|y: int| p.to_set().contains(y) implies range.contains(y) by {
            let k = choose|k: int| 0 <= k < p.len() && p[k] == y;
            assert(0 <= p[k] < n);
        }
    }
    vstd::set_lib::lemma_subset_equality(p.to_set(), range);
    assert(range.contains(x));
    assert(p.to_set().contains(x));
}

proof fn lemma_same_order_prefix(p1: Seq<int>, p2: Seq<int>, n: nat, keys: Seq<SortKey>, k: int)
    requires
        is_permutation(p1, n),
        is_permutation(p2, n),
        ranks_increase(p1, keys),
        ranks_increase(p2, keys),
        0 <= k < n,
    ensures
        forall|j: int| 0 <= j <= k ==> p1[j] == p2[j],
    decreases k,
{
    if k > 0 {
        lemma_same_order_prefix(p1, p2, n, keys, k - 1);
    }
    let a = p1[k];
    let b = p2[k];
    if a != b {
        lemma_permutation_covers(p2, n, a);
        lemma_permutation_covers(p1, n, b);
        let j = choose|j: int| 0 <= j < p2.len() && p2[j] == a;
        let i = choose|i: int| 0 <= i < p1.len() && p1[i] == b;
        if j < k {
            assert(p1[j] == p2[j]);
        }
        if i < k {
            assert(p1[i] == p2[i]);
        }
        assert(j > k);
        assert(i > k);
        assert(rank_lt(keys[p2[k]], p2[k], keys[p2[j]], p2[j]));
        assert(rank_lt(keys[p1[k]], p1[k], keys[p1[i]], p1[i]));
    }
}

/// A stable sort is fully determined: two stable sorts of the same items by the same keys
/// are equal.
pub proof fn stable_sort_is_unique<T>(out1: Seq<T>, out2: Seq<T>, inp: Seq<T>, keys: Seq<SortKey>)
    requires
        is_stable_sort_of(out1, inp, keys),
        is_stable_sort_of(out2, inp, keys),
    ensures
        out1 == out2,
{
    let p1 = choose|p: Seq<int>|
        #![trigger arranged_by(out1, inp, p)]
        is_permutation(p, inp.len()) && arranged_by(out1, inp, p) && ranks_increase(p, keys);
    let p2 = choose|p: Seq<int>|
        #![trigger arranged_by(out2, inp, p)]
        is_permutation(p, inp.len()) && arranged_by(out2, inp, p) && ranks_increase(p, keys);
    if inp.len() > 0 {
        lemma_same_order_prefix(p1, p2, inp.len(), keys, inp.len() - 1);
    }
    assert forall|k: int| 0 <= k < out1.len() implies out1[k] == out2[k] by {
        assert(p1[k] == p2[k]);
    }
    assert(out1 =~= out2);
}

/// Two key lists that order the same items in opposite ways, with no two keys equal under
/// `down`: the stable sort by `up` is the stable sort by `down` read backwards.
pub proof fn opposite_keys_give_reversed_sorts<T>(
    by_up: Seq<T>,
    by_down: Seq<T>,
    inp: Seq<T>,
    up: Seq<SortKey>,
    down: Seq<SortKey>,
)
    requires
        up.len() == inp.len(),
        down.len() == inp.len(),
        forall|i: int, j: int| 0 <= i < j < inp.len() ==> down[i] != down[j],
        forall|i: int, j: int|
            0 <= i < inp.len() && 0 <= j < inp.len() && key_lt(#[trigger] down[i], #[trigger] down[j])
                ==> key_lt(up[j], up[i]),
        is_stable_sort_of(by_up, inp, up),
        is_stable_sort_of(by_down, inp, down),
    ensures
        by_up == by_down.reverse(),
{
    let n = inp.len();
    let pd = choose|p: Seq<int>|
        #![trigger arranged_by(by_down, inp, p)]
        is_permutation(p, n) && arranged_by(by_down, inp, p) && ranks_increase(p, down);
    let pr = pd.reverse();
    let back = by_down.reverse();
    assert(is_permutation(pr, n)) by {
        assert forall|k: int, l: int| 0 <= k < l < pr.len() implies pr[k] != pr[l] by {
            assert(pr[k] == pd[n - 1 - k]);
            assert(pr[l] == pd[n - 1 - l]);
        }
        assert forall|k: int| 0 <= k < pr.len() implies 0 <= #[trigger] pr[k] < n by {
            assert(pr[k] == pd[n - 1 - k]);
        }
    }
    assert(arranged_by(back, inp, pr)) by {
        assert forall|k: int| 0 <= k < back.len() implies back[k] == inp[#[trigger] pr[k]] by {
            assert(back[k] == by_down[n - 1 - k]);
            assert(pr[k] == pd[n - 1 - k]);
        }
    }
    assert(ranks_increase(pr, up)) by {
        assert forall|k: int, l: int| 0 <= k < l < pr.len() implies rank_lt(
            up[#[trigger] pr[k]],
            pr[k],
            up[#[trigger] pr[l]],
            pr[l],
        ) by {
            let a = pd[n - 1 - l];
            let b = pd[n - 1 - k];
            assert(pr[k] == b);
            assert(pr[l] == a);
            assert(rank_lt(down[pd[n - 1 - l]], pd[n - 1 - l], down[pd[n - 1 - k]], pd[n - 1 - k]));
            assert(a != b);
            if a < b {
                assert(down[a] != down[b]);
            } else {
                assert(down[b] != down[a]);
            }
            assert(key_lt(down[a], down[b]));
        }
    }
    assert(is_stable_sort_of(back, inp, up));
    stable_sort_is_unique(by_up, back, inp, up);
}

/// Sorting again what a stable sort by `key` gave changes nothing.
pub proof fn stable_sort_is_idempotent<T>(
    once: Seq<T>,
    twice: Seq<T>,
    inp: Seq<T>,
    key: spec_fn(T) -> SortKey,
)
    requires
        is_stable_sort_of(once, inp, keys_of(inp, key)),
        is_stable_sort_of(twice, once, keys_of(once, key)),
    ensures
        twice == once,
{
    stable_sort_ascends(once, inp, key);
    let id = Seq::new(once.len(), |i: int| i);
    assert(is_permutation(id, once.len()));
    assert(arranged_by(once, once, id));
    assert forall|k: int, l: int| 0 <= k < l < id.len() implies rank_lt(
        keys_of(once, key)[#[trigger] id[k]],
        id[k],
        keys_of(once, key)[#[trigger] id[l]],
        id[l],
    ) by {
        assert(!key_lt(key(once[l]), key(once[k])));
    }
    assert(is_stable_sort_of(once, once, keys_of(once, key)));
    stable_sort_is_unique(twice, once, once, keys_of(once, key));
}

} // verus!
