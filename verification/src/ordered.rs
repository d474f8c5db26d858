//! Entries kept in the order of their keys.

use crate::text::chars_of;
use vstd::prelude::*;

verus! {

/// `a` comes before `b`: character by character, and a text before what continues it.
pub open spec fn comes_before(a: Seq<char>, b: Seq<char>) -> bool
    decreases a.len(),
{
    if b.len() == 0 {
        false
    } else if a.len() == 0 {
        true
    } else if a[0] == b[0] {
        comes_before(a.skip(1), b.skip(1))
    } else {
        a[0] < b[0]
    }
}

/// No text comes before itself.
pub proof fn lemma_not_before_itself(a: Seq<char>)
    ensures
        !comes_before(a, a),
    decreases a.len(),
{
    if a.len() > 0 {
        lemma_not_before_itself(a.skip(1));
    }
}

/// What comes before what comes before a text comes before it.
pub proof fn lemma_before_chains(a: Seq<char>, b: Seq<char>, c: Seq<char>)
    requires
        comes_before(a, b),
        comes_before(b, c),
    ensures
        comes_before(a, c),
    decreases a.len(),
{
    if a.len() > 0 {
        if a[0] == b[0] && b[0] == c[0] {
            lemma_before_chains(a.skip(1), b.skip(1), c.skip(1));
        }
    }
}

/// Of two texts that differ one comes before the other.
pub proof fn lemma_before_is_total(a: Seq<char>, b: Seq<char>)
    ensures
        a == b || comes_before(a, b) || comes_before(b, a),
    decreases a.len(),
{
    if a.len() == 0 || b.len() == 0 {
        assert(a.len() == 0 && b.len() == 0 ==> a =~= b);
    } else if a[0] == b[0] {
        lemma_before_is_total(a.skip(1), b.skip(1));
        if a.skip(1) == b.skip(1) {
            assert(a =~= seq![a[0]] + a.skip(1));
            assert(b =~= seq![b[0]] + b.skip(1));
        }
    }
}

/// How two texts stand to one another.
pub enum TextOrder {
    Before,
    Same,
    After,
}

/// A common beginning does not decide the order.
proof fn lemma_common_beginning(a: Seq<char>, b: Seq<char>, n: int)
    requires
        0 <= n <= a.len(),
        n <= b.len(),
        a.take(n) == b.take(n),
    ensures
        comes_before(a, b) == comes_before(a.skip(n), b.skip(n)),
    decreases n,
{
    if n == 0 {
        assert(a.skip(0) =~= a);
        assert(b.skip(0) =~= b);
    } else {
        assert(a[0] == a.take(n)[0] && b[0] == b.take(n)[0]);
        assert(a.skip(1).take(n - 1) =~= a.take(n).skip(1));
        assert(b.skip(1).take(n - 1) =~= b.take(n).skip(1));
        lemma_common_beginning(a.skip(1), b.skip(1), n - 1);
        assert(a.skip(1).skip(n - 1) =~= a.skip(n));
        assert(b.skip(1).skip(n - 1) =~= b.skip(n));
    }
}

/// How two texts stand to one another.
pub fn order_of(a: &str, b: &str) -> (order: TextOrder)
    ensures
        match order {
            TextOrder::Before => comes_before(a@, b@),
            TextOrder::Same => a@ == b@,
            TextOrder::After => comes_before(b@, a@),
        },
{
    let left = chars_of(a);
    let right = chars_of(b);
    let mut i: usize = 0;
    while i < left.len() && i < right.len() && left[i] == right[i]
        invariant
            i <= left.len(),
            i <= right.len(),
            left@.take(i as int) == right@.take(i as int),
        decreases left.len() - i,
    {
        proof {
            assert(left@.take(i + 1) =~= left@.take(i as int).push(left@[i as int]));
            assert(right@.take(i + 1) =~= right@.take(i as int).push(right@[i as int]));
        }
        i = i + 1;
    }
    proof {
        lemma_common_beginning(left@, right@, i as int);
        lemma_common_beginning(right@, left@, i as int);
    }
    if i == left.len() {
        if i == right.len() {
            proof {
                assert(left@.take(i as int) =~= left@);
                assert(right@.take(i as int) =~= right@);
            }
            TextOrder::Same
        } else {
            TextOrder::Before
        }
    } else if i == right.len() {
        TextOrder::After
    } else if left[i] < right[i] {
        TextOrder::Before
    } else {
        TextOrder::After
    }
}

/// Entries in the order of their keys, no key twice.
#[derive(Debug)]
pub struct Ordered<V> {
    entries: Vec<(String, V)>,
}

/// The keys come one after the other in their order.
pub open spec fn in_order<V>(entries: Seq<(String, V)>) -> bool {
    forall|i: int, j: int|
        0 <= i < j < entries.len() ==> comes_before(
            (#[trigger] entries[i]).0@,
            (#[trigger] entries[j]).0@,
        )
}

/// `key` is the key of some entry.
pub open spec fn has_key<V>(entries: Seq<(String, V)>, key: Seq<char>) -> bool {
    exists|i: int| 0 <= i < entries.len() && (#[trigger] entries[i]).0@ == key
}

/// The entries as a map.
pub open spec fn as_map<V>(entries: Seq<(String, V)>) -> Map<Seq<char>, V> {
    Map::new(
        |key: Seq<char>| has_key(entries, key),
        |key: Seq<char>|
            entries[choose|i: int| 0 <= i < entries.len() && (#[trigger] entries[i]).0@ == key].1,
    )
}

/// In entries that are in order, an entry is what the map has at its key.
pub proof fn lemma_map_at<V>(entries: Seq<(String, V)>, i: int)
    requires
        in_order(entries),
        0 <= i < entries.len(),
    ensures
        has_key(entries, entries[i].0@),
        as_map(entries)[entries[i].0@] == entries[i].1,
        as_map(entries).contains_key(entries[i].0@),
{
    let key = entries[i].0@;
    let k = choose|k: int| 0 <= k < entries.len() && (#[trigger] entries[k]).0@ == key;
    lemma_not_before_itself(key);
    assert(!(k < i) && !(i < k));
}

impl<V> Ordered<V> {
    /// The entries in their order.
    pub closed spec fn entries(self) -> Seq<(String, V)> {
        self.entries@
    }

    #[verifier::type_invariant]
    closed spec fn well_formed(self) -> bool {
        in_order(self.entries@)
    }

    /// No entries.
    pub fn new() -> (ordered: Ordered<V>)
        ensures
            ordered.entries() == Seq::<(String, V)>::empty(),
            as_map(ordered.entries()) == Map::<Seq<char>, V>::empty(),
    {
        let ordered = Ordered { entries: Vec::new() };
        proof {
            assert(as_map(ordered.entries()) =~= Map::<Seq<char>, V>::empty());
        }
        ordered
    }

    /// The number of entries.
    pub fn len(&self) -> (len: usize)
        ensures
            len == self.entries().len(),
            in_order(self.entries()),
    {
        proof {
            use_type_invariant(self);
        }
        self.entries.len()
    }

    /// The key at a position.
    pub fn key(&self, at: usize) -> (key: &String)
        requires
            at < self.entries().len(),
        ensures
            *key == self.entries()[at as int].0,
    {
        &self.entries[at].0
    }

    /// The value at a position.
    pub fn value(&self, at: usize) -> (value: &V)
        requires
            at < self.entries().len(),
        ensures
            *value == self.entries()[at as int].1,
    {
        &self.entries[at].1
    }

    /// The entries with one more; it replaces an entry with the same key.
    pub fn insert(self, key: String, value: V) -> (result: Ordered<V>)
        ensures
            in_order(result.entries()),
            as_map(result.entries()) == as_map(self.entries()).insert(key@, value),
    {
        proof {
            use_type_invariant(&self);
        }
        let ghost old_entries = self.entries@;
        let mut entries = self.entries;
        let mut at: usize = 0;
        while at < entries.len()
            invariant
                at <= entries.len(),
                entries@ == old_entries,
                old_entries == self.entries(),
                in_order(old_entries),
                forall|i: int| 0 <= i < at ==> comes_before((#[trigger] old_entries[i]).0@, key@),
            decreases entries.len() - at,
        {
            match order_of(entries[at].0.as_str(), key.as_str()) {
                TextOrder::Before => {
                    at = at + 1;
                },
                TextOrder::Same => {
                    let ghost new_key = key;
                    let ghost new_value = value;
                    entries.remove(at);
                    entries.insert(at, (key, value));
                    proof {
                        assert(entries@ =~= old_entries.update(at as int, (new_key, new_value)));
                        lemma_replaced(old_entries, entries@, new_key, new_value, at as int);
                    }
                    return Ordered { entries };
                },
                TextOrder::After => {
                    let ghost new_key = key;
                    let ghost new_value = value;
                    entries.insert(at, (key, value));
                    proof {
                        lemma_placed(old_entries, entries@, new_key, new_value, at as int);
                    }
                    return Ordered { entries };
                },
            }
        }
        let ghost new_key = key;
        let ghost new_value = value;
        entries.push((key, value));
        proof {
            assert(entries@ =~= old_entries.insert(at as int, (new_key, new_value)));
            lemma_placed(old_entries, entries@, new_key, new_value, at as int);
        }
        Ordered { entries }
    }
}

/// Replacing the value at a key.
proof fn lemma_replaced<V>(
    before: Seq<(String, V)>,
    after: Seq<(String, V)>,
    key: String,
    value: V,
    at: int,
)
    requires
        in_order(before),
        0 <= at < before.len(),
        before[at].0@ == key@,
        after == before.update(at, (key, value)),
    ensures
        in_order(after),
        as_map(after) == as_map(before).insert(key@, value),
{
    assert forall|i: int, j: int| 0 <= i < j < after.len() implies comes_before(
        (#[trigger] after[i]).0@,
        (#[trigger] after[j]).0@,
    ) by {
        assert(after[i].0@ == before[i].0@ && after[j].0@ == before[j].0@);
    }
    lemma_map_at(after, at);
    assert forall|k: Seq<char>| has_key(after, k) == has_key(before, k) by {
        if has_key(after, k) {
            let i = choose|i: int| 0 <= i < after.len() && (#[trigger] after[i]).0@ == k;
            assert(before[i].0@ == k);
        }
        if has_key(before, k) {
            let i = choose|i: int| 0 <= i < before.len() && (#[trigger] before[i]).0@ == k;
            assert(after[i].0@ == k);
        }
    }
    lemma_map_at(before, at);
    assert forall|k: Seq<char>| has_key(after, k) && k != key@ implies as_map(after)[k] == as_map(
        before,
    )[k] by {
        let i = choose|i: int| 0 <= i < after.len() && (#[trigger] after[i]).0@ == k;
        lemma_map_at(after, i);
        lemma_map_at(before, i);
    }
    assert(as_map(after) =~= as_map(before).insert(key@, value));
}

/// Placing an entry between those before and after it.
proof fn lemma_placed<V>(
    before: Seq<(String, V)>,
    after: Seq<(String, V)>,
    key: String,
    value: V,
    at: int,
)
    requires
        in_order(before),
        0 <= at <= before.len(),
        forall|i: int| 0 <= i < at ==> comes_before((#[trigger] before[i]).0@, key@),
        at < before.len() ==> comes_before(key@, before[at].0@),
        after == before.insert(at, (key, value)),
    ensures
        in_order(after),
        as_map(after) == as_map(before).insert(key@, value),
{
    assert forall|j: int| at <= j < before.len() implies comes_before(
        key@,
        (#[trigger] before[j]).0@,
    ) by {
        if at < j {
            lemma_before_chains(key@, before[at].0@, before[j].0@);
        }
    }
    assert forall|i: int, j: int| 0 <= i < j < after.len() implies comes_before(
        (#[trigger] after[i]).0@,
        (#[trigger] after[j]).0@,
    ) by {
        let old_i = if i < at {
            i
        } else {
            i - 1
        };
        let old_j = if j < at {
            j
        } else {
            j - 1
        };
        if i != at {
            assert(after[i] == before[old_i]);
        }
        if j != at {
            assert(after[j] == before[old_j]);
        }
    }
    lemma_map_at(after, at);
    assert forall|k: Seq<char>|
        has_key(after, k) == (has_key(before, k) || k == key@) by {
        if has_key(after, k) {
            let i = choose|i: int| 0 <= i < after.len() && (#[trigger] after[i]).0@ == k;
            if i < at {
                assert(before[i].0@ == k);
            } else if i > at {
                assert(before[i - 1].0@ == k);
            }
        }
        if has_key(before, k) {
            let i = choose|i: int| 0 <= i < before.len() && (#[trigger] before[i]).0@ == k;
            if i < at {
                assert(after[i].0@ == k);
            } else {
                assert(after[i + 1].0@ == k);
            }
        }
    }
    assert forall|k: Seq<char>| has_key(after, k) && k != key@ implies as_map(after)[k] == as_map(
        before,
    )[k] by {
        let i = choose|i: int| 0 <= i < after.len() && (#[trigger] after[i]).0@ == k;
        lemma_map_at(after, i);
        if i < at {
            assert(after[i] == before[i]);
            lemma_map_at(before, i);
        } else {
            assert(after[i] == before[i - 1]);
            lemma_map_at(before, i - 1);
        }
    }
    assert(as_map(after) =~= as_map(before).insert(key@, value));
}

/// Of two texts the one comes first whose character is the lower at the first place where they
/// differ, or which ends there.
pub proof fn law_texts_are_ordered_by_their_first_difference(
    a: &str,
    b: &str,
    order: TextOrder,
    n: int,
)
    requires
        call_ensures(order_of, (a, b), order),
        0 <= n <= a@.len(),
        n <= b@.len(),
        forall|i: int| 0 <= i < n ==> #[trigger] a@[i] == b@[i],
        n < a@.len() && n < b@.len() ==> a@[n] != b@[n],
    ensures
        order is Same <==> n == a@.len() && n == b@.len(),
        order is Before <==> n < b@.len() && (n == a@.len() || a@[n] < b@[n]),
        order is After <==> n < a@.len() && (n == b@.len() || b@[n] < a@[n]),
{
    assert(a@.take(n) =~= b@.take(n));
    lemma_common_beginning(a@, b@, n);
    lemma_common_beginning(b@, a@, n);
    let left = a@.skip(n);
    let right = b@.skip(n);
    if n < a@.len() {
        assert(left[0] == a@[n]);
    }
    if n < b@.len() {
        assert(right[0] == b@[n]);
    }
    lemma_not_before_itself(a@);
    if n == a@.len() && n == b@.len() {
        assert(a@ =~= b@);
    }
}

/// What was put in under a key is found there, in place of what was there before, and every other
/// key keeps what it had.
pub proof fn law_what_is_put_in_is_found<V>(
    before: Ordered<V>,
    key: String,
    value: V,
    after: Ordered<V>,
)
    requires
        call_ensures(Ordered::<V>::insert, (before, key, value), after),
    ensures
        exists|i: int|
            0 <= i < after.entries().len() && (#[trigger] after.entries()[i]).0@ == key@
                && after.entries()[i].1 == value,
        forall|i: int, j: int|
            0 <= i < j < after.entries().len() ==> (#[trigger] after.entries()[i]).0@ != (
            #[trigger] after.entries()[j]).0@,
        forall|other: Seq<char>|
            other != key@ ==> has_key(after.entries(), other) == #[trigger] has_key(
                before.entries(),
                other,
            ),
{
    let entries = after.entries();
    let map = as_map(entries);
    assert(map.contains_key(key@));
    let i = choose|i: int| 0 <= i < entries.len() && (#[trigger] entries[i]).0@ == key@;
    lemma_map_at(entries, i);
    assert(entries[i].1 == value);
    assert forall|i: int, j: int| 0 <= i < j < entries.len() implies (#[trigger] entries[i]).0@ != (
    #[trigger] entries[j]).0@ by {
        lemma_not_before_itself(entries[i].0@);
    }
    assert forall|other: Seq<char>| other != key@ implies has_key(entries, other) == #[trigger] has_key(
        before.entries(),
        other,
    ) by {
        assert(map.contains_key(other) == as_map(before.entries()).contains_key(other));
    }
}

} // verus!
