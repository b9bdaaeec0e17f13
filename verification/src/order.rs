//! Stable sorting: the order of a sequence by its keys, where equal keys keep
//! their order.
use vstd::prelude::*;

verus! {

/// Keys that can be sorted by.
pub trait Ranked {
    /// Whether this key goes before another one, whatever their places are.
    spec fn before(&self, other: &Self) -> bool;

    /// Of two keys at most one goes before the other.
    proof fn before_is_asymmetric(a: &Self, b: &Self)
        ensures
            !(a.before(b) && b.before(a)),
    ;

    /// A key that goes before another one goes before, or follows, any third.
    proof fn before_is_weak(a: &Self, b: &Self, c: &Self)
        ensures
            a.before(c) ==> a.before(b) || b.before(c),
    ;

    /// Whether this key goes before another one.
    fn goes_before(&self, other: &Self) -> (res: bool)
        ensures
            res == self.before(other),
    ;
}

/// A time, later times first.
pub struct LatestFirst {
    pub millis: u128,
}

impl Ranked for LatestFirst {
    open spec fn before(&self, other: &Self) -> bool {
        self.millis > other.millis
    }

    proof fn before_is_asymmetric(a: &Self, b: &Self) {
    }

    proof fn before_is_weak(a: &Self, b: &Self, c: &Self) {
    }

    fn goes_before(&self, other: &Self) -> (res: bool) {
        self.millis > other.millis
    }
}

/// Whether `a` comes before `b` in the order of words.
pub open spec fn bytes_before(a: Seq<u8>, b: Seq<u8>) -> bool
    decreases a.len(),
{
    if b.len() == 0 {
        false
    } else if a.len() == 0 {
        true
    } else {
        a[0] < b[0] || (a[0] == b[0] && bytes_before(a.drop_first(), b.drop_first()))
    }
}

/// Of two texts at most one comes before the other.
pub proof fn bytes_before_is_asymmetric(a: Seq<u8>, b: Seq<u8>)
    ensures
        !(bytes_before(a, b) && bytes_before(b, a)),
    decreases a.len(),
{
    if a.len() > 0 && b.len() > 0 {
        bytes_before_is_asymmetric(a.drop_first(), b.drop_first());
    }
}

/// A text that comes before another one comes before, or follows, any third.
pub proof fn bytes_before_is_weak(a: Seq<u8>, b: Seq<u8>, c: Seq<u8>)
    ensures
        bytes_before(a, c) ==> bytes_before(a, b) || bytes_before(b, c),
    decreases a.len(),
{
    if a.len() > 0 && b.len() > 0 && c.len() > 0 {
        bytes_before_is_weak(a.drop_first(), b.drop_first(), c.drop_first());
    }
}

/// Whether `a` comes before `b` in the order of words.
pub fn bytes_go_before(a: &Vec<u8>, b: &Vec<u8>) -> (res: bool)
    ensures
        res == bytes_before(a@, b@),
{
    let mut i: usize = 0;
    assert(a@.skip(0) == a@ && b@.skip(0) == b@);
    while i < a.len() && i < b.len()
        invariant
            i <= a@.len(),
            i <= b@.len(),
            bytes_before(a@, b@) == bytes_before(a@.skip(i as int), b@.skip(i as int)),
        decreases a@.len() - i,
    {
        assert(a@.skip(i as int).drop_first() == a@.skip(i + 1));
        assert(b@.skip(i as int).drop_first() == b@.skip(i + 1));
        if a[i] != b[i] {
            return a[i] < b[i];
        }
        i += 1;
    }
    i < b.len()
}

/// Whether the item at `i` goes before the item at `j`: by its key, or by its
/// place where neither key goes before the other.
pub open spec fn precedes<K: Ranked>(keys: Seq<K>, i: int, j: int) -> bool {
    keys[i].before(&keys[j]) || (!keys[j].before(&keys[i]) && i < j)
}

/// Whether `order` lists the places of all keys, each after those that precede
/// it.
pub open spec fn is_stable_order<K: Ranked>(keys: Seq<K>, order: Seq<int>) -> bool {
    &&& order.len() == keys.len()
    &&& order.no_duplicates()
    &&& forall|i: int| 0 <= i < order.len() ==> 0 <= #[trigger] order[i] < keys.len()
    &&& forall|i: int, j: int| 0 <= i < j < order.len() ==> precedes(keys, #[trigger] order[i], #[trigger] order[j])
}

/// The places of the keys in stable order.
pub open spec fn order_of<K: Ranked>(keys: Seq<K>) -> Seq<int> {
    choose|order: Seq<int>| is_stable_order(keys, order)
}

/// The items in the stable order of their keys.
pub open spec fn arranged<K: Ranked, V>(keys: Seq<K>, items: Seq<V>) -> Seq<V> {
    order_of(keys).map_values(|place: int| items[place])
}

proof fn lemma_precedes_is_transitive<K: Ranked>(keys: Seq<K>, i: int, j: int, k: int)
    requires
        precedes(keys, i, j),
        precedes(keys, j, k),
    ensures
        precedes(keys, i, k),
{
    K::before_is_asymmetric(&keys[i], &keys[j]);
    K::before_is_asymmetric(&keys[j], &keys[k]);
    K::before_is_weak(&keys[k], &keys[j], &keys[i]);
    K::before_is_weak(&keys[i], &keys[k], &keys[j]);
    K::before_is_weak(&keys[j], &keys[i], &keys[k]);
}

/// `n` different places below `n` are all the places below `n`.
proof fn lemma_all_places(order: Seq<int>, place: int)
    requires
        order.no_duplicates(),
        forall|i: int| 0 <= i < order.len() ==> 0 <= #[trigger] order[i] < order.len(),
        0 <= place < order.len(),
    ensures
        order.contains(place),
{
    let all = vstd::set_lib::set_int_range(0, order.len() as int);
    vstd::set_lib::lemma_int_range(0, order.len() as int);
    order.unique_seq_to_set();
    assert(order.to_set().subset_of(all));
    vstd::set_lib::lemma_subset_equality(order.to_set(), all);
    assert(order.to_set().contains(place));
}

/// A stable order lists the place of every key.
pub proof fn stable_order_is_complete<K: Ranked>(keys: Seq<K>, order: Seq<int>, place: int)
    requires
        is_stable_order(keys, order),
        0 <= place < keys.len(),
    ensures
        order.contains(place),
{
    lemma_all_places(order, place);
}

/// There is only one stable order.
pub proof fn stable_order_is_unique<K: Ranked>(keys: Seq<K>, a: Seq<int>, b: Seq<int>)
    requires
        is_stable_order(keys, a),
        is_stable_order(keys, b),
    ensures
        a == b,
{
    assert forall|n: int| 0 <= n <= a.len() implies a.take(n) == b.take(n) by {
        lemma_same_prefix(keys, a, b, n);
    }
    assert(a.take(a.len() as int) == a && b.take(b.len() as int) == b);
}

proof fn lemma_same_prefix<K: Ranked>(keys: Seq<K>, a: Seq<int>, b: Seq<int>, n: int)
    requires
        is_stable_order(keys, a),
        is_stable_order(keys, b),
        0 <= n <= a.len(),
    ensures
        a.take(n) == b.take(n),
    decreases n,
{
    if n > 0 {
        let k = n - 1;
        lemma_same_prefix(keys, a, b, k);
        lemma_all_places(a, b[k]);
        lemma_all_places(b, a[k]);
        let q = choose|q: int| 0 <= q < a.len() && a[q] == b[k];
        let p = choose|p: int| 0 <= p < b.len() && b[p] == a[k];
        if a[k] != b[k] {
            if q < k {
                assert(a.take(k)[q] == b.take(k)[q]);
                assert(b[q] == b[k]);
            }
            if p < k {
                assert(a.take(k)[p] == b.take(k)[p]);
                assert(a[p] == a[k]);
            }
            assert(precedes(keys, a[k], a[q]));
            assert(precedes(keys, b[k], b[p]));
            K::before_is_asymmetric(&keys[a[k]], &keys[b[k]]);
        }
        assert(a.take(n) == a.take(k).push(a[k]));
        assert(b.take(n) == b.take(k).push(b[k]));
    }
}

/// Putting the last place where it belongs keeps the order stable.
proof fn lemma_insert_last<K: Ranked>(keys: Seq<K>, order: Seq<int>, at: int)
    requires
        keys.len() > 0,
        is_stable_order(keys.drop_last(), order),
        0 <= at <= order.len(),
        forall|m: int| at <= m < order.len() ==> keys.last().before(&keys[#[trigger] order[m]]),
        at > 0 ==> !keys.last().before(&keys[order[at - 1]]),
    ensures
        is_stable_order(keys, order.insert(at, keys.len() - 1)),
{
    let rest = keys.drop_last();
    let place = keys.len() - 1;
    let after = order.insert(at, place);
    assert forall|i: int, j: int| 0 <= i < j < after.len() implies precedes(
        keys,
        #[trigger] after[i],
        #[trigger] after[j],
    ) by {
        let from = |n: int| if n < at { n } else { n - 1 };
        if i != at && j != at {
            assert(after[i] == order[from(i)] && after[j] == order[from(j)]);
            assert(precedes(rest, order[from(i)], order[from(j)]));
        } else if j == at {
            assert(precedes(keys, order[at - 1], place));
            if i < at - 1 {
                assert(precedes(rest, order[i], order[at - 1]));
                lemma_precedes_is_transitive(keys, order[i], order[at - 1], place);
            }
        } else {
            assert(after[j] == order[j - 1]);
        }
    }
    assert(after.no_duplicates());
}

/// Every sequence of keys has a stable order.
pub proof fn stable_order_exists<K: Ranked>(keys: Seq<K>)
    ensures
        is_stable_order(keys, order_of(keys)),
    decreases keys.len(),
{
    if keys.len() == 0 {
        assert(is_stable_order(keys, Seq::<int>::empty()));
    } else {
        let rest = keys.drop_last();
        stable_order_exists(rest);
        let order = order_of(rest);
        let at = lemma_place_of_last(keys, order, order.len() as int);
        lemma_insert_last(keys, order, at);
    }
}

proof fn lemma_place_of_last<K: Ranked>(keys: Seq<K>, order: Seq<int>, upto: int) -> (at: int)
    requires
        keys.len() > 0,
        0 <= upto <= order.len(),
        forall|m: int| upto <= m < order.len() ==> keys.last().before(&keys[#[trigger] order[m]]),
    ensures
        0 <= at <= order.len(),
        forall|m: int| at <= m < order.len() ==> keys.last().before(&keys[#[trigger] order[m]]),
        at > 0 ==> !keys.last().before(&keys[order[at - 1]]),
    decreases upto,
{
    if upto > 0 && keys.last().before(&keys[order[upto - 1]]) {
        lemma_place_of_last(keys, order, upto - 1)
    } else {
        upto
    }
}

/// The places of the keys in stable order.
pub fn stable_order<K: Ranked>(keys: &Vec<K>) -> (res: Vec<usize>)
    ensures
        is_stable_order(keys@, res@.map_values(|place: usize| place as int)),
        res@.map_values(|place: usize| place as int) == order_of(keys@),
{
    let mut order: Vec<usize> = Vec::new();
    let mut n: usize = 0;
    assert(order@.map_values(|place: usize| place as int) == Seq::<int>::empty());
    while n < keys.len()
        invariant
            n <= keys@.len(),
            order@.len() == n,
            is_stable_order(keys@.take(n as int), order@.map_values(|place: usize| place as int)),
        decreases keys@.len() - n,
    {
        let ghost places = order@.map_values(|place: usize| place as int);
        let ghost known = keys@.take(n + 1);
        assert(known.drop_last() == keys@.take(n as int));
        assert(known.last() == keys@[n as int]);
        let mut at: usize = n;
        assert(forall|i: int| 0 <= i < n ==> 0 <= #[trigger] places[i] < n && places[i] == order@[i]);
        assert forall|i: int| 0 <= i < n implies #[trigger] order@[i] < n by {
            assert(places[i] == order@[i]);
        }
        while at > 0 && keys[n].goes_before(&keys[order[at - 1]])
            invariant
                at <= n < keys@.len(),
                order@.len() == n,
                places == order@.map_values(|place: usize| place as int),
                known == keys@.take(n + 1),
                forall|i: int| 0 <= i < n ==> 0 <= #[trigger] places[i] < n && places[i] == order@[i],
                forall|i: int| 0 <= i < n ==> #[trigger] order@[i] < n,
                forall|m: int| at <= m < n ==> known.last().before(&known[#[trigger] places[m]]),
            decreases at,
        {
            assert(known[places[at - 1]] == keys@[order@[at - 1] as int]);
            at -= 1;
        }
        proof {
            if at > 0 {
                assert(known[places[at - 1]] == keys@[order@[at - 1] as int]);
            }
            lemma_insert_last(known, places, at as int);
        }
        order.insert(at, n);
        assert(order@.map_values(|place: usize| place as int) == places.insert(at as int, n as int));
        n += 1;
    }
    proof {
        assert(keys@.take(n as int) == keys@);
        stable_order_exists(keys@);
        stable_order_is_unique(
            keys@,
            order@.map_values(|place: usize| place as int),
            order_of(keys@),
        );
    }
    order
}

/// One text comes before another exactly if they agree up to a place where the first
/// one ends and the other does not, or has the smaller byte.
pub proof fn bytes_are_compared_at_the_first_difference(a: Seq<u8>, b: Seq<u8>)
    ensures
        bytes_before(a, b) <==> exists|n: int|
            {
                &&& 0 <= n <= a.len()
                &&& n < b.len()
                &&& #[trigger] a.take(n) == b.take(n)
                &&& n == a.len() || a[n] < b[n]
            },
    decreases a.len(),
{
    if b.len() > 0 && a.len() == 0 {
        assert(a.take(0) == b.take(0));
    } else if b.len() > 0 {
        let (c, d) = (a.drop_first(), b.drop_first());
        bytes_are_compared_at_the_first_difference(c, d);
        if bytes_before(a, b) {
            if a[0] < b[0] {
                assert(a.take(0) == b.take(0));
            } else {
                let n = choose|n: int|
                    {
                        &&& 0 <= n <= c.len()
                        &&& n < d.len()
                        &&& #[trigger] c.take(n) == d.take(n)
                        &&& n == c.len() || c[n] < d[n]
                    };
                assert(a.take(n + 1) == seq![a[0]] + c.take(n));
                assert(b.take(n + 1) == seq![b[0]] + d.take(n));
                assert(a.take(n + 1) == b.take(n + 1));
                if n < c.len() {
                    assert(a[n + 1] == c[n] && b[n + 1] == d[n]);
                }
            }
        }
        if exists|n: int|
            {
                &&& 0 <= n <= a.len()
                &&& n < b.len()
                &&& #[trigger] a.take(n) == b.take(n)
                &&& n == a.len() || a[n] < b[n]
            } {
            let n = choose|n: int|
                {
                    &&& 0 <= n <= a.len()
                    &&& n < b.len()
                    &&& #[trigger] a.take(n) == b.take(n)
                    &&& n == a.len() || a[n] < b[n]
                };
            if n > 0 {
                assert(a.take(n)[0] == b.take(n)[0]);
                assert(c.take(n - 1) == a.take(n).drop_first());
                assert(d.take(n - 1) == b.take(n).drop_first());
                assert(c.take(n - 1) == d.take(n - 1));
                if n < a.len() {
                    assert(a[n] == c[n - 1] && b[n] == d[n - 1]);
                }
            }
        }
    }
}

} // verus!
