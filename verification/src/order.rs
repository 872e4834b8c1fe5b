//! Stable sorting by textual keys.
//!
//! A sort is described by the order in which it visits positions: positions
//! are compared by their key, and positions with equal keys keep their place
//! relative to each other.

use vstd::prelude::*;

use crate::text::{
    lemma_take_push, lemma_text_le_antisymmetric, lemma_text_le_reflexive, lemma_text_le_total,
    lemma_text_le_transitive, text_at_most, text_le,
};

verus! {

/// A key by which positions are sorted: the first text decides, the second
/// breaks ties.
pub type SortKey = (Seq<char>, Seq<char>);

/// Whether the first key does not come after the second.
pub open spec fn key_le(a: SortKey, b: SortKey) -> bool {
    if a.0 == b.0 {
        text_le(a.1, b.1)
    } else {
        text_le(a.0, b.0)
    }
}

/// `order` with position `x` placed behind the last position whose key is not
/// greater than that of `x`.
pub open spec fn inserted(keys: Seq<SortKey>, order: Seq<int>, x: int) -> Seq<int>
    decreases order.len(),
{
    if order.len() == 0 {
        seq![x]
    } else if key_le(keys[order.last()], keys[x]) {
        order.push(x)
    } else {
        inserted(keys, order.drop_last(), x).push(order.last())
    }
}

/// The first `n` positions in ascending order of their keys.
pub open spec fn sorted_first(keys: Seq<SortKey>, n: nat) -> Seq<int>
    decreases n,
{
    if n == 0 {
        Seq::empty()
    } else {
        inserted(keys, sorted_first(keys, (n - 1) as nat), n - 1)
    }
}

/// All positions in ascending order of their keys, equal keys in their
/// original order.
pub open spec fn sorted_positions(keys: Seq<SortKey>) -> Seq<int> {
    sorted_first(keys, keys.len())
}

/// Whether position `i` comes before position `j`: its key is smaller, or the
/// keys are the same and `i` is smaller.
pub open spec fn precedes(keys: Seq<SortKey>, i: int, j: int) -> bool {
    if keys[i] == keys[j] {
        i < j
    } else {
        key_le(keys[i], keys[j])
    }
}

/// The keys that a vector of pairs of strings holds.
pub open spec fn key_texts(keys: Seq<(String, String)>) -> Seq<SortKey> {
    keys.map_values(|k: (String, String)| (k.0@, k.1@))
}

/// Keys that are made of one text each.
pub open spec fn plain_keys(keys: Seq<Seq<char>>) -> Seq<SortKey> {
    keys.map_values(|k: Seq<char>| (k, Seq::<char>::empty()))
}

/// The order of keys is total.
pub proof fn lemma_key_le_total(a: SortKey, b: SortKey)
    ensures
        key_le(a, b) || key_le(b, a),
{
    lemma_text_le_total(a.0, b.0);
    lemma_text_le_total(a.1, b.1);
}

/// The order of keys is antisymmetric.
pub proof fn lemma_key_le_antisymmetric(a: SortKey, b: SortKey)
    requires
        key_le(a, b),
        key_le(b, a),
    ensures
        a == b,
{
    if a.0 == b.0 {
        lemma_text_le_antisymmetric(a.1, b.1);
    } else {
        lemma_text_le_antisymmetric(a.0, b.0);
    }
}

/// The order of keys is transitive.
pub proof fn lemma_key_le_transitive(a: SortKey, b: SortKey, c: SortKey)
    requires
        key_le(a, b),
        key_le(b, c),
    ensures
        key_le(a, c),
{
    if a.0 == b.0 && b.0 == c.0 {
        lemma_text_le_transitive(a.1, b.1, c.1);
    } else if a.0 != b.0 && b.0 != c.0 {
        lemma_text_le_transitive(a.0, b.0, c.0);
        if a.0 == c.0 {
            lemma_text_le_antisymmetric(a.0, b.0);
        }
    }
}

/// Inserting adds one position.
proof fn lemma_inserted_len(keys: Seq<SortKey>, order: Seq<int>, x: int)
    ensures
        inserted(keys, order, x).len() == order.len() + 1,
    decreases order.len(),
{
    if order.len() > 0 {
        lemma_inserted_len(keys, order.drop_last(), x);
    }
}

/// Inserting adds the position and keeps the others.
proof fn lemma_inserted_contains(keys: Seq<SortKey>, order: Seq<int>, x: int, y: int)
    ensures
        inserted(keys, order, x).contains(y) <==> (order.contains(y) || y == x),
    decreases order.len(),
{
    let r = inserted(keys, order, x);
    if order.len() == 0 {
        assert(r[0] == x);
    } else if key_le(keys[order.last()], keys[x]) {
        assert(r[order.len() as int] == x);
        assert(forall|k: int| 0 <= k < order.len() ==> r[k] == order[k]);
    } else {
        let front = order.drop_last();
        lemma_inserted_contains(keys, front, x, y);
        let p = inserted(keys, front, x);
        assert(forall|k: int| 0 <= k < p.len() ==> r[k] == p[k]);
        assert(r[p.len() as int] == order.last());
        assert(order[order.len() - 1] == order.last());
        assert(forall|k: int| 0 <= k < front.len() ==> front[k] == order[k]);
        if p.contains(y) {
            let k = choose|k: int| 0 <= k < p.len() && p[k] == y;
            assert(r[k] == y);
        }
        if order.contains(y) && y != order.last() {
            let k = choose|k: int| 0 <= k < order.len() && order[k] == y;
            assert(front[k] == y);
        }
    }
}

/// Whether `order` visits its positions in ascending order, equal keys in
/// their original order.
pub open spec fn is_ordered(keys: Seq<SortKey>, order: Seq<int>) -> bool {
    forall|a: int, b: int|
        0 <= a < b < order.len() ==> #[trigger] precedes(keys, order[a], order[b])
}

/// Inserting a position that is greater than all others keeps the order.
proof fn lemma_inserted_ordered(keys: Seq<SortKey>, order: Seq<int>, x: int)
    requires
        is_ordered(keys, order),
        forall|k: int| 0 <= k < order.len() ==> #[trigger] order[k] < x,
    ensures
        is_ordered(keys, inserted(keys, order, x)),
    decreases order.len(),
{
    let r = inserted(keys, order, x);
    if order.len() == 0 {
    } else if key_le(keys[order.last()], keys[x]) {
        assert forall|a: int, b: int| 0 <= a < b < r.len() implies #[trigger] precedes(
            keys,
            r[a],
            r[b],
        ) by {
            if b < order.len() {
                assert(precedes(keys, order[a], order[b]));
            } else {
                if a < order.len() - 1 {
                    assert(precedes(keys, order[a], order[order.len() - 1]));
                    lemma_text_le_reflexive(keys[order[a]].0);
                    lemma_text_le_reflexive(keys[order[a]].1);
                    lemma_key_le_transitive(keys[order[a]], keys[order.last()], keys[x]);
                }
            }
        }
    } else {
        let front = order.drop_last();
        let last = order.last();
        assert forall|a: int, b: int| 0 <= a < b < front.len() implies #[trigger] precedes(
            keys,
            front[a],
            front[b],
        ) by {
            assert(precedes(keys, order[a], order[b]));
        }
        lemma_inserted_ordered(keys, front, x);
        let p = inserted(keys, front, x);
        lemma_key_le_total(keys[last], keys[x]);
        assert forall|a: int, b: int| 0 <= a < b < r.len() implies #[trigger] precedes(
            keys,
            r[a],
            r[b],
        ) by {
            if b < p.len() {
                assert(precedes(keys, p[a], p[b]));
            } else {
                assert(r[b] == last);
                lemma_inserted_contains(keys, front, x, p[a]);
                assert(p.contains(p[a]));
                if p[a] != x {
                    let k = choose|k: int| 0 <= k < front.len() && front[k] == p[a];
                    assert(precedes(keys, order[k], order[order.len() - 1]));
                } else {
                    lemma_text_le_reflexive(keys[x].0);
                    lemma_text_le_reflexive(keys[x].1);
                }
            }
        }
    }
}

/// Sorting the first positions visits each of them once, in order.
proof fn lemma_sorted_first(keys: Seq<SortKey>, n: nat)
    ensures
        sorted_first(keys, n).len() == n,
        forall|y: int| sorted_first(keys, n).contains(y) <==> 0 <= y < n,
        is_ordered(keys, sorted_first(keys, n)),
    decreases n,
{
    if n > 0 {
        let front = sorted_first(keys, (n - 1) as nat);
        lemma_sorted_first(keys, (n - 1) as nat);
        lemma_inserted_len(keys, front, n - 1);
        assert forall|y: int| sorted_first(keys, n).contains(y) <==> 0 <= y < n by {
            lemma_inserted_contains(keys, front, n - 1, y);
        }
        assert forall|k: int| 0 <= k < front.len() implies #[trigger] front[k] < n - 1 by {
            assert(front.contains(front[k]));
        }
        lemma_inserted_ordered(keys, front, n - 1);
    }
}

/// Sorting visits every position exactly once, in ascending order of the keys,
/// and keeps positions with equal keys in their original order.
pub proof fn law_sorted_positions(keys: Seq<SortKey>)
    ensures
        sorted_positions(keys).len() == keys.len(),
        forall|y: int| #[trigger] sorted_positions(keys).contains(y) <==> 0 <= y < keys.len(),
        sorted_positions(keys).no_duplicates(),
        is_ordered(keys, sorted_positions(keys)),
{
    lemma_sorted_first(keys, keys.len());
    let order = sorted_positions(keys);
    assert forall|a: int, b: int| 0 <= a < b < order.len() implies order[a] != order[b] by {
        assert(precedes(keys, order[a], order[b]));
    }
}

/// There is only one way to visit every position exactly once, in ascending
/// order of the keys and positions with equal keys in their original order:
/// the one that sorting takes.
pub proof fn law_sorted_positions_unique(keys: Seq<SortKey>, order: Seq<int>)
    requires
        forall|y: int| #[trigger] order.contains(y) <==> 0 <= y < keys.len(),
        order.no_duplicates(),
        is_ordered(keys, order),
    ensures
        order == sorted_positions(keys),
{
    let s = sorted_positions(keys);
    law_sorted_positions(keys);
    assert(order.to_set() =~= s.to_set()) by {
        assert forall|y: int| order.to_set().contains(y) <==> s.to_set().contains(y) by {
            assert(order.contains(y) <==> s.contains(y));
        }
    }
    order.unique_seq_to_set();
    s.unique_seq_to_set();
    lemma_same_order(keys, order, s, s.len());
    assert(order.take(s.len() as int) =~= order);
    assert(s.take(s.len() as int) =~= s);
}

/// Two ways to visit the same positions in order agree up to every length.
proof fn lemma_same_order(keys: Seq<SortKey>, a: Seq<int>, b: Seq<int>, k: nat)
    requires
        a.len() == b.len(),
        k <= a.len(),
        forall|y: int| #[trigger] a.contains(y) <==> 0 <= y < keys.len(),
        forall|y: int| #[trigger] b.contains(y) <==> 0 <= y < keys.len(),
        a.no_duplicates(),
        b.no_duplicates(),
        is_ordered(keys, a),
        is_ordered(keys, b),
    ensures
        a.take(k as int) == b.take(k as int),
    decreases k,
{
    if k == 0 {
        assert(a.take(0) =~= b.take(0));
    } else {
        let i = k - 1;
        lemma_same_order(keys, a, b, (k - 1) as nat);
        assert forall|j: int| 0 <= j < i implies a[j] == b[j] by {
            assert(a.take(i)[j] == b.take(i)[j]);
        }
        if a[i] != b[i] {
            assert(a.contains(a[i]) && b.contains(b[i]));
            assert(b.contains(a[i]) && a.contains(b[i]));
            let p = choose|p: int| 0 <= p < b.len() && b[p] == a[i];
            let q = choose|q: int| 0 <= q < a.len() && a[q] == b[i];
            assert(p > i);
            assert(q > i);
            assert(precedes(keys, b[i], b[p]));
            assert(precedes(keys, a[i], a[q]));
            if keys[a[i]] != keys[b[i]] {
                lemma_key_le_antisymmetric(keys[a[i]], keys[b[i]]);
            }
        }
        lemma_take_push(a, i);
        lemma_take_push(b, i);
    }
}

/// The items of `list` at the given positions.
pub open spec fn at_positions<A>(list: Seq<A>, positions: Seq<int>) -> Seq<A> {
    positions.map_values(|i: int| list[i])
}

/// `usize` positions as mathematical integers.
pub open spec fn ints(list: Seq<usize>) -> Seq<int> {
    list.map_values(|i: usize| i as int)
}

/// One more position.
pub proof fn lemma_ints_push(list: Seq<usize>, i: usize)
    ensures
        ints(list.push(i)) == ints(list).push(i as int),
{
    assert(ints(list.push(i)) =~= ints(list).push(i as int));
}

/// One more key.
pub proof fn lemma_key_texts_push(list: Seq<(String, String)>, key: (String, String))
    ensures
        key_texts(list.push(key)) == key_texts(list).push((key.0@, key.1@)),
{
    assert(key_texts(list.push(key)) =~= key_texts(list).push((key.0@, key.1@)));
}

fn key_at_most(a: &(String, String), b: &(String, String)) -> (r: bool)
    ensures
        r == key_le((a.0@, a.1@), (b.0@, b.1@)),
{
    if a.0 == b.0 {
        text_at_most(a.1.as_str(), b.1.as_str())
    } else {
        text_at_most(a.0.as_str(), b.0.as_str())
    }
}

/// Where a position is inserted.
proof fn lemma_inserted_step(keys: Seq<SortKey>, order: Seq<int>, x: int, n: int)
    requires
        0 <= n <= order.len(),
        n == 0 || key_le(keys[order[n - 1]], keys[x]),
        forall|k: int| n <= k < order.len() ==> !key_le(keys[#[trigger] order[k]], keys[x]),
    ensures
        inserted(keys, order, x) == order.insert(n, x),
    decreases order.len(),
{
    if n == order.len() {
        assert(order.insert(n, x) =~= order.push(x));
        assert(order.len() == 0 ==> order.push(x) =~= seq![x]);
    } else {
        let front = order.drop_last();
        assert forall|k: int| n <= k < front.len() implies !key_le(
            keys[#[trigger] front[k]],
            keys[x],
        ) by {
            assert(front[k] == order[k]);
        }
        lemma_inserted_step(keys, front, x, n);
        assert(front.insert(n, x).push(order.last()) =~= order.insert(n, x));
    }
}

/// Positions in ascending order of their keys, equal keys in their original
/// order.
pub fn sort_positions(keys: &Vec<(String, String)>) -> (r: Vec<usize>)
    ensures
        ints(r@) == sorted_positions(key_texts(keys@)),
{
    let ghost ks = key_texts(keys@);
    let mut order: Vec<usize> = Vec::new();
    let mut i: usize = 0;
    assert(ints(order@) =~= Seq::<int>::empty());
    while i < keys.len()
        invariant
            i <= keys.len(),
            ks == key_texts(keys@),
            ints(order@) == sorted_first(ks, i as nat),
        decreases keys.len() - i,
    {
        proof {
            lemma_sorted_first(ks, i as nat);
            assert forall|k: int| 0 <= k < order@.len() implies #[trigger] order@[k] < i by {
                assert(ints(order@).contains(ints(order@)[k]));
            }
        }
        let mut n: usize = order.len();
        while n > 0 && !key_at_most(&keys[order[n - 1]], &keys[i])
            invariant
                n <= order.len(),
                i < keys.len(),
                ks == key_texts(keys@),
                forall|k: int| 0 <= k < order@.len() ==> #[trigger] order@[k] < i,
                forall|k: int|
                    n <= k < order.len() ==> !key_le(ks[#[trigger] ints(order@)[k]], ks[i as int]),
            decreases n,
        {
            assert(ints(order@)[n - 1] == order@[n - 1] as int);
            n -= 1;
        }
        proof {
            if n > 0 {
                assert(ints(order@)[n - 1] == order@[n - 1] as int);
            }
            lemma_inserted_step(ks, ints(order@), i as int, n as int);
            assert(ints(order@.insert(n as int, i)) =~= ints(order@).insert(n as int, i as int));
        }
        order.insert(n, i);
        i += 1;
    }
    order
}

/// The items of `list` in ascending order of their keys, items with equal keys
/// in their original order.
pub fn sorted_by_keys(list: &Vec<usize>, keys: &Vec<(String, String)>) -> (r: Vec<usize>)
    requires
        list@.len() == keys@.len(),
    ensures
        ints(r@) == at_positions(ints(list@), sorted_positions(key_texts(keys@))),
{
    let positions = sort_positions(keys);
    proof {
        law_sorted_positions(key_texts(keys@));
    }
    let ghost wanted = at_positions(ints(list@), ints(positions@));
    let mut out: Vec<usize> = Vec::new();
    let mut k: usize = 0;
    assert(ints(out@) =~= wanted.take(0));
    while k < positions.len()
        invariant
            k <= positions@.len(),
            wanted == at_positions(ints(list@), ints(positions@)),
            forall|x: int| #[trigger]
                ints(positions@).contains(x) ==> 0 <= x < list@.len(),
            ints(out@) == wanted.take(k as int),
        decreases positions@.len() - k,
    {
        assert(ints(positions@).contains(ints(positions@)[k as int]));
        proof {
            lemma_ints_push(out@, list@[positions@[k as int] as int]);
            lemma_take_push(wanted, k as int);
            assert(ints(list@)[positions@[k as int] as int] == list@[positions@[k as int] as int]);
        }
        out.push(list[positions[k]]);
        k += 1;
    }
    assert(wanted.take(k as int) =~= wanted);
    out
}

/// What is picked by sorting is what was there.
pub proof fn lemma_sorted_contains(list: Seq<int>, keys: Seq<SortKey>)
    requires
        list.len() == keys.len(),
    ensures
        at_positions(list, sorted_positions(keys)).len() == list.len(),
        forall|x: int| #[trigger]
            at_positions(list, sorted_positions(keys)).contains(x) <==> list.contains(x),
        list.no_duplicates() ==> at_positions(list, sorted_positions(keys)).no_duplicates(),
{
    let positions = sorted_positions(keys);
    let r = at_positions(list, positions);
    law_sorted_positions(keys);
    assert forall|x: int| #[trigger] r.contains(x) <==> list.contains(x) by {
        if r.contains(x) {
            let k = choose|k: int| 0 <= k < r.len() && r[k] == x;
            assert(positions.contains(positions[k]));
            assert(list[positions[k]] == x);
        }
        if list.contains(x) {
            let p = choose|p: int| 0 <= p < list.len() && list[p] == x;
            assert(positions.contains(p));
            let k = choose|k: int| 0 <= k < positions.len() && positions[k] == p;
            assert(r[k] == x);
        }
    }
    if list.no_duplicates() {
        assert forall|a: int, b: int| 0 <= a < b < r.len() implies r[a] != r[b] by {
            assert(positions.contains(positions[a]));
            assert(positions.contains(positions[b]));
        }
    }
}

} // verus!
