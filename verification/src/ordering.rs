//! Stable ordering by a relation or by an integer key.

use vstd::prelude::*;
use vstd::relations::{strongly_connected, transitive};

verus! {

/// Where `x` goes among `t`: in front of the trailing items that may not precede it.
pub open spec fn slot<T>(t: Seq<T>, x: T, le: spec_fn(T, T) -> bool) -> int
    decreases t.len(),
{
    if t.len() > 0 && !le(t.last(), x) {
        slot(t.drop_last(), x, le)
    } else {
        t.len() as int
    }
}

/// The items in the order of `le`; items that may stand either way keep the order that
/// they have in `s`.
pub open spec fn sorted_with<T>(s: Seq<T>, le: spec_fn(T, T) -> bool) -> Seq<T>
    decreases s.len(),
{
    if s.len() == 0 {
        s
    } else {
        let t = sorted_with(s.drop_last(), le);
        t.insert(slot(t, s.last(), le), s.last())
    }
}

/// The order of whole numbers.
pub open spec fn int_order() -> spec_fn(int, int) -> bool {
    |a: int, b: int| a <= b
}

/// The order of items by their keys.
pub open spec fn by_key<T>(key: spec_fn(T) -> int) -> spec_fn(T, T) -> bool {
    |a: T, b: T| key(a) <= key(b)
}

/// The items in the order of their keys; items with equal keys keep the order
/// that they have in `s`.
pub open spec fn sorted_by<T>(s: Seq<T>, key: spec_fn(T) -> int) -> Seq<T> {
    sorted_with(s, by_key(key))
}

/// The items that may stand on either side of `x`, in order.
pub open spec fn peers_of<T>(s: Seq<T>, x: T, le: spec_fn(T, T) -> bool) -> Seq<T>
    decreases s.len(),
{
    if s.len() == 0 {
        s
    } else if le(x, s.last()) && le(s.last(), x) {
        peers_of(s.drop_last(), x, le).push(s.last())
    } else {
        peers_of(s.drop_last(), x, le)
    }
}

/// Whether every item of `s` may precede those behind it.
pub open spec fn in_order<T>(s: Seq<T>, le: spec_fn(T, T) -> bool) -> bool {
    forall|i: int, j: int| 0 <= i <= j < s.len() ==> le(#[trigger] s[i], #[trigger] s[j])
}

pub proof fn lemma_slot_bounds<T>(t: Seq<T>, x: T, le: spec_fn(T, T) -> bool)
    ensures
        0 <= slot(t, x, le) <= t.len(),
        forall|j: int| slot(t, x, le) <= j < t.len() ==> !le(#[trigger] t[j], x),
        slot(t, x, le) > 0 ==> le(t[slot(t, x, le) - 1], x),
    decreases t.len(),
{
    if t.len() > 0 && !le(t.last(), x) {
        lemma_slot_bounds(t.drop_last(), x, le);
        assert forall|j: int| slot(t, x, le) <= j < t.len() implies !le(#[trigger] t[j], x) by {
            if j < t.len() - 1 {
                assert(!le(t.drop_last()[j], x));
            }
        }
    }
}

/// Sorting leaves the items in order.
pub proof fn sorting_orders_the_items<T>(s: Seq<T>, le: spec_fn(T, T) -> bool)
    requires
        strongly_connected(le),
        transitive(le),
    ensures
        in_order(sorted_with(s, le), le),
        sorted_with(s, le).len() == s.len(),
    decreases s.len(),
{
    if s.len() > 0 {
        let t = sorted_with(s.drop_last(), le);
        let x = s.last();
        sorting_orders_the_items(s.drop_last(), le);
        let p = slot(t, x, le);
        lemma_slot_bounds(t, x, le);
        let r = sorted_with(s, le);
        assert forall|i: int, j: int| 0 <= i <= j < r.len() implies le(
            #[trigger] r[i],
            #[trigger] r[j],
        ) by {
            if i < p {
                assert(r[i] == t[i]);
                assert(le(t[i], t[p - 1]));
                assert(le(t[i], x));
                if j > p {
                    assert(r[j] == t[j - 1]);
                    assert(le(t[i], t[j - 1]));
                }
            } else if i == p {
                if j > p {
                    assert(r[j] == t[j - 1]);
                    assert(!le(t[j - 1], x));
                    assert(le(x, t[j - 1]) || le(t[j - 1], x));
                } else {
                    assert(le(x, x) || le(x, x));
                }
            } else {
                assert(r[i] == t[i - 1] && r[j] == t[j - 1]);
            }
        }
    }
}

/// Sorting by a key leaves the keys in order.
pub proof fn sorting_orders_the_keys<T>(s: Seq<T>, key: spec_fn(T) -> int)
    ensures
        in_order(sorted_by(s, key), by_key(key)),
        sorted_by(s, key).len() == s.len(),
{
    sorting_orders_the_items(s, by_key(key));
}

/// Sorting neither loses nor adds an item.
pub proof fn sorting_keeps_the_items<T>(s: Seq<T>, le: spec_fn(T, T) -> bool)
    ensures
        sorted_with(s, le).to_multiset() == s.to_multiset(),
    decreases s.len(),
{
    broadcast use vstd::seq_lib::group_to_multiset_ensures;

    if s.len() > 0 {
        let t = sorted_with(s.drop_last(), le);
        sorting_keeps_the_items(s.drop_last(), le);
        let p = slot(t, s.last(), le);
        lemma_slot_bounds(t, s.last(), le);
        vstd::seq_lib::to_multiset_insert(t, p, s.last());
        assert(s.drop_last().push(s.last()) =~= s);
    }
}

proof fn lemma_peers_concat<T>(a: Seq<T>, b: Seq<T>, x: T, le: spec_fn(T, T) -> bool)
    ensures
        peers_of(a + b, x, le) == peers_of(a, x, le) + peers_of(b, x, le),
    decreases b.len(),
{
    if b.len() == 0 {
        assert(a + b =~= a);
    } else {
        lemma_peers_concat(a, b.drop_last(), x, le);
        assert((a + b).drop_last() =~= a + b.drop_last());
    }
}

proof fn lemma_no_peers<T>(s: Seq<T>, x: T, le: spec_fn(T, T) -> bool)
    requires
        forall|i: int| 0 <= i < s.len() ==> !le(#[trigger] s[i], x),
    ensures
        peers_of(s, x, le) == Seq::<T>::empty(),
    decreases s.len(),
{
    if s.len() > 0 {
        assert(!le(s[s.len() - 1], x));
        assert forall|i: int| 0 <= i < s.drop_last().len() implies !le(
            #[trigger] s.drop_last()[i],
            x,
        ) by {
            assert(s.drop_last()[i] == s[i]);
        }
        lemma_no_peers(s.drop_last(), x, le);
    } else {
        assert(s =~= Seq::empty());
    }
}

/// Sorting is stable: items that may stand either way keep their order.
pub proof fn sorting_is_stable<T>(s: Seq<T>, x: T, le: spec_fn(T, T) -> bool)
    requires
        transitive(le),
    ensures
        peers_of(sorted_with(s, le), x, le) == peers_of(s, x, le),
    decreases s.len(),
{
    reveal_with_fuel(peers_of, 2);
    if s.len() > 0 {
        let t = sorted_with(s.drop_last(), le);
        let y = s.last();
        let p = slot(t, y, le);
        sorting_is_stable(s.drop_last(), x, le);
        lemma_slot_bounds(t, y, le);
        let r = sorted_with(s, le);
        let front = t.take(p);
        let back = t.skip(p);
        assert(t =~= front + back);
        assert(r =~= (front + seq![y]) + back);
        lemma_peers_concat(front, back, x, le);
        lemma_peers_concat(front + seq![y], back, x, le);
        lemma_peers_concat(front, seq![y], x, le);
        assert(seq![y].drop_last() =~= Seq::empty());
        if le(x, y) && le(y, x) {
            assert forall|i: int| 0 <= i < back.len() implies !le(#[trigger] back[i], x) by {
                assert(back[i] == t[p + i]);
                assert(!le(t[p + i], y));
            }
            lemma_no_peers(back, x, le);
            assert(peers_of(seq![y], x, le) =~= seq![y]);
            assert(peers_of(r, x, le) =~= peers_of(front, x, le).push(y));
            assert(peers_of(t, x, le) =~= peers_of(front, x, le));
        } else {
            assert(peers_of(seq![y], x, le) =~= Seq::empty());
            assert(peers_of(r, x, le) =~= peers_of(front, x, le) + peers_of(back, x, le));
        }
    }
}

/// An item's slot is that of its key among the keys.
pub proof fn lemma_slot_of_keys<T>(t: Seq<T>, x: T, key: spec_fn(T) -> int)
    ensures
        slot(t.map_values(key), key(x), int_order()) == slot(t, x, by_key(key)),
    decreases t.len(),
{
    if t.len() > 0 {
        lemma_slot_of_keys(t.drop_last(), x, key);
        assert(t.map_values(key).drop_last() =~= t.drop_last().map_values(key));
    }
}

/// The integer values of a row of keys.
pub open spec fn key_values(keys: Seq<u128>) -> Seq<int> {
    keys.map_values(|k: u128| k as int)
}

/// Where `k` goes among `keys`.
pub fn slot_for(keys: &Vec<u128>, k: u128) -> (r: usize)
    ensures
        r == slot(key_values(keys@), k as int, int_order()),
        r <= keys@.len(),
{
    let mut i: usize = keys.len();
    let ghost all = key_values(keys@);
    assert(all.take(i as int) =~= all);
    while i > 0 && keys[i - 1] > k
        invariant
            i <= keys@.len(),
            all == key_values(keys@),
            slot(all.take(i as int), k as int, int_order()) == slot(all, k as int, int_order()),
        decreases i,
    {
        assert(all.take(i as int).drop_last() =~= all.take(i - 1));
        i -= 1;
    }
    i
}

/// What is sorted holds exactly the items that were given.
pub proof fn sorting_finds_every_item<T>(s: Seq<T>, le: spec_fn(T, T) -> bool, x: T)
    ensures
        sorted_with(s, le).contains(x) <==> s.contains(x),
        sorted_with(s, le).len() == s.len(),
    decreases s.len(),
{
    broadcast use vstd::seq_lib::group_to_multiset_ensures;

    sorting_keeps_the_items(s, le);
    assert(sorted_with(s, le).contains(x) <==> sorted_with(s, le).to_multiset().count(x) > 0);
    assert(s.contains(x) <==> s.to_multiset().count(x) > 0);
    assert(sorted_with(s, le).len() == sorted_with(s, le).to_multiset().len());
}

} // verus!
