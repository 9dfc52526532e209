//! Stable ordering by a key, largest key first.

use vstd::prelude::*;

verus! {

/// The number of items at the front whose key is at least `k`.
pub open spec fn rank(keys: Seq<u64>, k: u64) -> int
    decreases keys.len(),
{
    if keys.len() == 0 {
        0
    } else if keys[0] >= k {
        1 + rank(keys.drop_first(), k)
    } else {
        0
    }
}

/// The keys of some items.
pub open spec fn keys_of<T>(items: Seq<T>, key: spec_fn(T) -> u64) -> Seq<u64> {
    items.map_values(key)
}

/// The items by key, largest first; items with equal keys keep their order.
/// Each item in turn goes behind the items whose key is not smaller.
pub open spec fn by_key_desc<T>(items: Seq<T>, key: spec_fn(T) -> u64) -> Seq<T>
    decreases items.len(),
{
    if items.len() == 0 {
        items
    } else {
        let front = by_key_desc(items.drop_last(), key);
        front.insert(rank(keys_of(front, key), key(items.last())), items.last())
    }
}

/// Whether keys never grow along the sequence.
pub open spec fn is_desc(keys: Seq<u64>) -> bool {
    forall|i: int, j: int| 0 <= i <= j < keys.len() ==> keys[i] >= keys[j]
}

/// Every key before the rank is at least `k`; the key at the rank is smaller.
pub proof fn lemma_rank(keys: Seq<u64>, k: u64)
    ensures
        0 <= rank(keys, k) <= keys.len(),
        forall|i: int| 0 <= i < rank(keys, k) ==> #[trigger] keys[i] >= k,
        rank(keys, k) < keys.len() ==> keys[rank(keys, k)] < k,
    decreases keys.len(),
{
    if keys.len() > 0 && keys[0] >= k {
        lemma_rank(keys.drop_first(), k);
        assert forall|i: int| 0 <= i < rank(keys, k) implies #[trigger] keys[i] >= k by {
            if i > 0 {
                assert(keys[i] == keys.drop_first()[i - 1]);
            }
        }
    }
}

/// Ordering keeps every item, and only those, and leaves the keys descending.
pub proof fn lemma_by_key_desc<T>(items: Seq<T>, key: spec_fn(T) -> u64)
    ensures
        by_key_desc(items, key).len() == items.len(),
        by_key_desc(items, key).to_multiset() == items.to_multiset(),
        is_desc(keys_of(by_key_desc(items, key), key)),
    decreases items.len(),
{
    if items.len() > 0 {
        let front = by_key_desc(items.drop_last(), key);
        let x = items.last();
        lemma_by_key_desc(items.drop_last(), key);
        lemma_rank(keys_of(front, key), key(x));
        let p = rank(keys_of(front, key), key(x));
        let out = front.insert(p, x);
        assert(out.to_multiset() =~= items.to_multiset()) by {
            broadcast use vstd::seq_lib::group_to_multiset_ensures;

            assert(out.remove(p) =~= front);
            assert(out[p] == x);
            assert(out.contains(x));
            assert(items =~= items.drop_last().push(x));
            assert(out.to_multiset() =~= out.remove(p).to_multiset().insert(x));
        }
        let keys = keys_of(out, key);
        let fk = keys_of(front, key);
        assert forall|i: int, j: int| 0 <= i <= j < keys.len() implies keys[i] >= keys[j] by {
            let a = if i < p { i } else { i - 1 };
            let b = if j < p { j } else { j - 1 };
            if i != p && j != p {
                assert(keys[i] == fk[a] && keys[j] == fk[b]);
            } else if i == p && j != p {
                assert(keys[j] == fk[j - 1]);
                assert(fk[p] >= fk[j - 1]);
            } else if i != p && j == p {
                assert(keys[i] == fk[i]);
            }
        }
    }
}

/// Items with equal keys keep their order: those with any one key come out in
/// the order in which they went in.
pub proof fn lemma_by_key_desc_stable<T>(items: Seq<T>, key: spec_fn(T) -> u64, k: u64)
    ensures
        by_key_desc(items, key).filter(|x: T| key(x) == k) == items.filter(|x: T| key(x) == k),
    decreases items.len(),
{
    let same = |x: T| key(x) == k;
    if items.len() > 0 {
        let front = by_key_desc(items.drop_last(), key);
        let x = items.last();
        lemma_by_key_desc(items.drop_last(), key);
        lemma_by_key_desc_stable(items.drop_last(), key, k);
        lemma_rank(keys_of(front, key), key(x));
        let p = rank(keys_of(front, key), key(x));
        let fk = keys_of(front, key);
        let low = front.take(p);
        let high = front.skip(p);
        assert(front =~= low + high);
        assert(front.insert(p, x) =~= low.push(x) + high);
        Seq::filter_distributes_over_add(low, high, same);
        Seq::filter_distributes_over_add(low.push(x), high, same);
        assert(low.push(x).drop_last() =~= low);
        reveal_with_fuel(Seq::filter, 2);
        if key(x) == k {
            assert forall|i: int| 0 <= i < high.len() implies !same(#[trigger] high[i]) by {
                assert(high[i] == front[p + i]);
                assert(fk[p] >= fk[p + i]);
            }
            lemma_filter_none(high, same);
            assert(low.filter(same).push(x) + high.filter(same) =~= (low.filter(same)
                + high.filter(same)).push(x));
        }
    } else {
        reveal_with_fuel(Seq::filter, 1);
    }
}

/// Items that a predicate tells by their key keep their order.
pub proof fn lemma_stable<T>(
    items: Seq<T>,
    key: spec_fn(T) -> u64,
    k: u64,
    same: spec_fn(T) -> bool,
)
    requires
        forall|x: T| #[trigger] same(x) <==> key(x) == k,
    ensures
        by_key_desc(items, key).filter(same) == items.filter(same),
{
    lemma_by_key_desc_stable(items, key, k);
    assert((|x: T| key(x) == k) =~= same);
}

proof fn lemma_filter_none<T>(items: Seq<T>, pred: spec_fn(T) -> bool)
    requires
        forall|i: int| 0 <= i < items.len() ==> !pred(#[trigger] items[i]),
    ensures
        items.filter(pred) == Seq::<T>::empty(),
    decreases items.len(),
{
    reveal_with_fuel(Seq::filter, 1);
    if items.len() > 0 {
        lemma_filter_none(items.drop_last(), pred);
    }
}

/// Where an item with key `k` goes among items whose keys are `keys`.
pub fn place_for(keys: &Vec<u64>, k: u64) -> (out: usize)
    ensures
        out == rank(keys@, k),
        out <= keys.len(),
{
    let mut i: usize = 0;
    assert(keys@.skip(0) =~= keys@);
    while i < keys.len() && keys[i] >= k
        invariant
            i <= keys.len(),
            rank(keys@, k) == i + rank(keys@.skip(i as int), k),
        decreases keys.len() - i,
    {
        assert(keys@.skip(i as int).drop_first() =~= keys@.skip(i + 1));
        i += 1;
    }
    i
}

} // verus!
