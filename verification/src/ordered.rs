//! Maps that are keyed by numbers, and the order in which their keys are walked.
use crate::arithmetic::SimpleArithmetic;
use std::collections::BTreeMap;
use vstd::prelude::*;
use vstd::std_specs::cmp::OrdSpec;
use vstd::std_specs::iter::IteratorSpec;

verus! {

/// What a map from numbers holds, keyed by the natural numbers that its keys stand for.
pub open spec fn by_number<K: SimpleArithmetic, V: View>(m: Map<K, V>) -> Map<nat, V::V> {
    Map::new(
        |n: nat| n <= K::max_nat() && m.contains_key(K::from_nat(n)),
        |n: nat| m[K::from_nat(n)]@,
    )
}

/// The natural numbers that a sequence of numbers stands for.
pub open spec fn numbers<K: SimpleArithmetic>(s: Seq<K>) -> Seq<nat> {
    s.map_values(|k: K| k.as_nat())
}

/// Whether every member of the sequence is larger than all before it.
pub open spec fn ascending(s: Seq<nat>) -> bool {
    forall|i: int, j: int| 0 <= i < j < s.len() ==> s[i] < s[j]
}

/// The members of a finite set, from the smallest to the largest.
pub open spec fn in_order(s: Set<nat>) -> Seq<nat> {
    choose|q: Seq<nat>| ascending(q) && #[trigger] q.to_set() == s
}

/// Two ascending sequences with the same members are the same sequence.
proof fn lemma_ascending_unique(a: Seq<nat>, b: Seq<nat>)
    requires
        ascending(a),
        ascending(b),
        a.to_set() == b.to_set(),
    ensures
        a == b,
    decreases a.len(),
{
    assert forall|x: nat| a.contains(x) implies b.contains(x) by {
        assert(b.to_set().contains(x));
    }
    assert forall|x: nat| b.contains(x) implies a.contains(x) by {
        assert(a.to_set().contains(x));
    }
    if a.len() == 0 {
        if b.len() > 0 {
            assert(b.contains(b[0]));
        }
        assert(a =~= b);
    } else {
        assert(a.contains(a.last()));
        let i = choose|i: int| 0 <= i < b.len() && b[i] == a.last();
        assert(b.contains(b.last()));
        let j = choose|j: int| 0 <= j < a.len() && a[j] == b.last();
        assert(a.last() == b.last());
        let a1 = a.drop_last();
        let b1 = b.drop_last();
        assert forall|x: nat| a1.to_set().contains(x) <==> b1.to_set().contains(x) by {
            if a1.contains(x) {
                let k = choose|k: int| 0 <= k < a1.len() && a1[k] == x;
                assert(a[k] == x);
                assert(a.contains(x));
                let l = choose|l: int| 0 <= l < b.len() && b[l] == x;
                assert(b1[l] == x);
            }
            if b1.contains(x) {
                let k = choose|k: int| 0 <= k < b1.len() && b1[k] == x;
                assert(b[k] == x);
                assert(b.contains(x));
                let l = choose|l: int| 0 <= l < a.len() && a[l] == x;
                assert(a1[l] == x);
            }
        }
        assert(a1.to_set() =~= b1.to_set());
        lemma_ascending_unique(a1, b1);
        assert(a =~= a1.push(a.last()));
        assert(b =~= b1.push(b.last()));
    }
}

/// An ascending sequence is what `in_order` makes of its members.
pub proof fn lemma_in_order(q: Seq<nat>)
    requires
        ascending(q),
    ensures
        in_order(q.to_set()) == q,
{
    lemma_ascending_unique(in_order(q.to_set()), q);
}

/// A set of numbers below some bound can be put in order, and there are no more of them than the
/// bound.
pub proof fn lemma_in_order_bounded(s: Set<nat>, bound: nat)
    requires
        forall|x: nat| #[trigger] s.contains(x) ==> x < bound,
    ensures
        ascending(in_order(s)),
        in_order(s).to_set() == s,
        in_order(s).len() <= bound,
    decreases bound,
{
    if bound == 0 {
        let none: Seq<nat> = Seq::empty();
        assert(none.to_set() =~= s);
        lemma_in_order(none);
    } else {
        let last = (bound - 1) as nat;
        lemma_in_order_bounded(s.remove(last), last);
        let below = in_order(s.remove(last));
        assert forall|i: int| 0 <= i < below.len() implies #[trigger] below[i] < last by {
            assert(below.to_set().contains(below[i]));
        }
        if s.contains(last) {
            let all = below.push(last);
            assert forall|x: nat| all.to_set().contains(x) == s.contains(x) by {
                if below.contains(x) {
                    let i = choose|i: int| 0 <= i < below.len() && below[i] == x;
                    assert(all[i] == x);
                    assert(below.to_set().contains(x));
                }
                assert(all[below.len() as int] == last);
                if s.contains(x) && x != last {
                    assert(below.to_set().contains(x));
                }
            }
            assert(all.to_set() =~= s);
            lemma_in_order(all);
        } else {
            assert(s.remove(last) =~= s);
        }
    }
}

/// `by_number` holds a value under `k` exactly where the map does.
pub proof fn lemma_by_number_lookup<K: SimpleArithmetic, V: View>(m: Map<K, V>, k: K)
    ensures
        by_number(m).contains_key(k.as_nat()) == m.contains_key(k),
        m.contains_key(k) ==> by_number(m)[k.as_nat()] == m[k]@,
{
    K::lemma_represents(k);
}

/// `by_number` follows an insertion.
proof fn lemma_by_number_insert<K: SimpleArithmetic, V: View>(m: Map<K, V>, k: K, v: V)
    ensures
        by_number(m.insert(k, v)) == by_number(m).insert(k.as_nat(), v@),
{
    K::lemma_represents(k);
    let l = by_number(m.insert(k, v));
    let r = by_number(m).insert(k.as_nat(), v@);
    assert forall|n: nat| l.contains_key(n) == #[trigger] r.contains_key(n) by {
        if n <= K::max_nat() {
            K::lemma_representable(n);
        }
    }
    assert forall|n: nat| l.contains_key(n) implies l[n] == #[trigger] r[n] by {
        K::lemma_representable(n);
    }
    assert(l =~= r);
}

/// `by_number` follows a removal.
proof fn lemma_by_number_remove<K: SimpleArithmetic, V: View>(m: Map<K, V>, k: K)
    ensures
        by_number(m.remove(k)) == by_number(m).remove(k.as_nat()),
{
    K::lemma_represents(k);
    let l = by_number(m.remove(k));
    let r = by_number(m).remove(k.as_nat());
    assert forall|n: nat| l.contains_key(n) == #[trigger] r.contains_key(n) by {
        if n <= K::max_nat() {
            K::lemma_representable(n);
        }
    }
    assert(l =~= r);
}

/// `by_number` is empty exactly where the map is.
pub proof fn lemma_by_number_empty<K: SimpleArithmetic, V: View>(m: Map<K, V>)
    ensures
        by_number(m).is_empty() == m.is_empty(),
        m.is_empty() ==> by_number(m) == Map::<nat, V::V>::empty(),
{
    if m.is_empty() {
        assert(by_number(m) =~= Map::<nat, V::V>::empty());
    } else {
        let k = m.dom().choose();
        lemma_by_number_lookup(m, k);
        assert(by_number(m).dom().contains(k.as_nat()));
    }
}

/// The keys of a map, from the smallest to the largest.
pub(crate) fn keys_in_order<K: SimpleArithmetic, V: View>(m: &BTreeMap<K, V>) -> (keys: Vec<K>)
    ensures
        ascending(numbers(keys@)),
        numbers(keys@) == in_order(by_number(m@).dom()),
        numbers(keys@).to_set() == by_number(m@).dom(),
        keys@.to_set() == m@.dom(),
        keys@.len() == m@.dom().len(),
{
    broadcast use vstd::std_specs::btree::group_btree_axioms;

    proof {
        K::lemma_ordered();
    }
    let mut keys: Vec<K> = Vec::new();
    let entries = m.iter();
    let ghost walked = entries.remaining();
    let ghost order = walked.map_values(|kv: (&K, &V)| *kv.0);
    for entry in it: entries
        invariant
            it.seq() == walked,
            keys@.len() == it.index(),
            forall|i: int| 0 <= i < keys@.len() ==> keys@[i] == *(#[trigger] walked[i]).0,
    {
        keys.push(*entry.0);
    }
    proof {
        assert(keys@ =~= order);
        assert forall|i: int, j: int| 0 <= i < j < order.len() implies numbers(keys@)[i]
            < numbers(keys@)[j] by {
            assert(order[i].cmp_spec(&order[j]) is Less);
        }
        assert(keys@.to_set() =~= m@.dom()) by {
            assert forall|k: K| m@.contains_key(k) implies keys@.contains(k) by {
                assert(walked.contains((&k, &m@[k])));
                let i = choose|i: int| 0 <= i < walked.len() && walked[i] == (&k, &m@[k]);
                assert(keys@[i] == k);
            }
            assert forall|k: K| keys@.contains(k) implies m@.contains_key(k) by {
                let i = choose|i: int| 0 <= i < keys@.len() && keys@[i] == k;
                assert(m@.contains_key(*walked[i].0));
            }
        }
        lemma_numbers_of_keys(m@, keys@);
        lemma_in_order(numbers(keys@));
    }
    keys
}

/// The numbers of all keys of a map are the keys of `by_number`.
proof fn lemma_numbers_of_keys<K: SimpleArithmetic, V: View>(m: Map<K, V>, keys: Seq<K>)
    requires
        keys.to_set() == m.dom(),
    ensures
        numbers(keys).to_set() == by_number(m).dom(),
{
    assert forall|n: nat| numbers(keys).contains(n) implies by_number(m).contains_key(n) by {
        let i = choose|i: int| 0 <= i < keys.len() && numbers(keys)[i] == n;
        assert(keys.contains(keys[i]));
        assert(keys.to_set().contains(keys[i]));
        lemma_by_number_lookup(m, keys[i]);
    }
    assert forall|n: nat| by_number(m).contains_key(n) implies numbers(keys).contains(n) by {
        K::lemma_representable(n);
        let k = K::from_nat(n);
        assert(keys.to_set().contains(k));
        let i = choose|i: int| 0 <= i < keys.len() && keys[i] == k;
        assert(numbers(keys)[i] == n);
    }
    assert(numbers(keys).to_set() =~= by_number(m).dom());
}

/// The value that a map holds under `k`.
pub(crate) fn find<'a, K: SimpleArithmetic, V: View>(
    m: &'a BTreeMap<K, V>,
    k: &K,
) -> (r: Option<&'a V>)
    ensures
        r is Some == by_number(m@).contains_key(k.as_nat()),
        r is Some == m@.contains_key(*k),
        r matches Some(v) ==> *v == m@[*k] && v@ == by_number(m@)[k.as_nat()],
{
    broadcast use vstd::std_specs::btree::group_btree_axioms;

    proof {
        K::lemma_ordered();
        lemma_by_number_lookup(m@, *k);
    }
    m.get(k)
}

/// Holds `v` under `k`.
pub(crate) fn put<K: SimpleArithmetic, V: View>(m: &mut BTreeMap<K, V>, k: K, v: V)
    ensures
        by_number(final(m)@) == by_number(old(m)@).insert(k.as_nat(), v@),
        final(m)@ == old(m)@.insert(k, v),
{
    proof {
        K::lemma_ordered();
        lemma_by_number_insert(m@, k, v);
    }
    m.insert(k, v);
}

/// Removes what a map holds under `k`, and returns it.
pub(crate) fn take_out<K: SimpleArithmetic, V: View>(
    m: &mut BTreeMap<K, V>,
    k: &K,
) -> (r: Option<V>)
    ensures
        by_number(final(m)@) == by_number(old(m)@).remove(k.as_nat()),
        final(m)@ == old(m)@.remove(*k),
        r is Some == by_number(old(m)@).contains_key(k.as_nat()),
        r matches Some(v) ==> v@ == by_number(old(m)@)[k.as_nat()],
{
    broadcast use vstd::std_specs::btree::group_btree_axioms;

    proof {
        K::lemma_ordered();
        lemma_by_number_lookup(m@, *k);
        lemma_by_number_remove(m@, *k);
    }
    m.remove(k)
}

/// Whether a map holds nothing.
pub(crate) fn holds_nothing<K: SimpleArithmetic, V: View>(m: &BTreeMap<K, V>) -> (r: bool)
    ensures
        r == by_number(m@).is_empty(),
{
    proof {
        lemma_by_number_empty(m@);
    }
    m.is_empty()
}

} // verus!
