//! Maps and sets that keep their keys in order.

use vstd::prelude::*;

#[allow(unused_imports)]
use vstd::utf8::{encode_utf8, encode_utf8_decode_utf8};

#[allow(unused_imports)]
use crate::text::texts;

verus! {

/// Where one key stands relative to another.
#[derive(Debug, Clone, Copy, PartialEq, Eq, Structural)]
pub enum Place {
    Before,
    Same,
    After,
}

/// Keys with a strict total order.
pub trait OrderedKey: Sized {
    /// What identifies a key.
    type Model;

    spec fn model(&self) -> Self::Model;

    spec fn before(a: Self::Model, b: Self::Model) -> bool;

    proof fn lemma_irreflexive(a: Self::Model)
        ensures
            !Self::before(a, a),
    ;

    proof fn lemma_transitive(a: Self::Model, b: Self::Model, c: Self::Model)
        requires
            Self::before(a, b),
            Self::before(b, c),
        ensures
            Self::before(a, c),
    ;

    proof fn lemma_total(a: Self::Model, b: Self::Model)
        ensures
            a == b || Self::before(a, b) || Self::before(b, a),
    ;

    fn place(&self, other: &Self) -> (r: Place)
        ensures
            match r {
                Place::Before => Self::before(self.model(), other.model()),
                Place::Same => self.model() == other.model(),
                Place::After => Self::before(other.model(), self.model()),
            },
    ;

    fn duplicate(&self) -> (r: Self)
        ensures
            r.model() == self.model(),
    ;
}

// ---------------------------------------------------------------------------
// Entries in key order
// ---------------------------------------------------------------------------

/// The keys of `entries` are strictly increasing.
pub open spec fn sorted<K: OrderedKey, V>(entries: Seq<(K::Model, V)>) -> bool {
    forall|i: int, j: int|
        0 <= i < j < entries.len() ==> K::before((#[trigger] entries[i]).0, (#[trigger] entries[j]).0)
}

/// The number of leading entries whose keys stand before `key`.
pub open spec fn position<K: OrderedKey, V>(entries: Seq<(K::Model, V)>, key: K::Model) -> int
    decreases entries.len(),
{
    if entries.len() == 0 || !K::before(entries[0].0, key) {
        0
    } else {
        1 + position::<K, V>(entries.skip(1), key)
    }
}

/// Whether `key` stands at its position.
pub open spec fn present<K: OrderedKey, V>(entries: Seq<(K::Model, V)>, key: K::Model) -> bool {
    let p = position::<K, V>(entries, key);
    0 <= p < entries.len() && entries[p].0 == key
}

/// The value at `key`, if there is one.
pub open spec fn lookup<K: OrderedKey, V>(entries: Seq<(K::Model, V)>, key: K::Model) -> Option<V> {
    if present::<K, V>(entries, key) {
        Some(entries[position::<K, V>(entries, key)].1)
    } else {
        None
    }
}

/// `entries` with `value` at `key`.
pub open spec fn with_entry<K: OrderedKey, V>(
    entries: Seq<(K::Model, V)>,
    key: K::Model,
    value: V,
) -> Seq<(K::Model, V)> {
    let p = position::<K, V>(entries, key);
    if present::<K, V>(entries, key) {
        entries.update(p, (key, value))
    } else {
        entries.insert(p, (key, value))
    }
}

/// `entries` without `key`.
pub open spec fn without_entry<K: OrderedKey, V>(
    entries: Seq<(K::Model, V)>,
    key: K::Model,
) -> Seq<(K::Model, V)> {
    if present::<K, V>(entries, key) {
        entries.remove(position::<K, V>(entries, key))
    } else {
        entries
    }
}

pub proof fn lemma_position<K: OrderedKey, V>(entries: Seq<(K::Model, V)>, key: K::Model)
    ensures
        0 <= position::<K, V>(entries, key) <= entries.len(),
        forall|i: int|
            0 <= i < position::<K, V>(entries, key) ==> K::before(
                (#[trigger] entries[i]).0,
                key,
            ),
        position::<K, V>(entries, key) < entries.len() ==> !K::before(
            entries[position::<K, V>(entries, key)].0,
            key,
        ),
    decreases entries.len(),
{
    if entries.len() == 0 || !K::before(entries[0].0, key) {
    } else {
        lemma_position::<K, V>(entries.skip(1), key);
        assert forall|i: int| 0 <= i < position::<K, V>(entries, key) implies K::before(
            (#[trigger] entries[i]).0,
            key,
        ) by {
            if i > 0 {
                assert(entries[i] == entries.skip(1)[i - 1]);
            }
        }
    }
}

pub proof fn lemma_position_is<K: OrderedKey, V>(
    entries: Seq<(K::Model, V)>,
    key: K::Model,
    p: int,
)
    requires
        0 <= p <= entries.len(),
        forall|i: int| 0 <= i < p ==> K::before((#[trigger] entries[i]).0, key),
        p < entries.len() ==> !K::before(entries[p].0, key),
    ensures
        position::<K, V>(entries, key) == p,
{
    lemma_position::<K, V>(entries, key);
    let q = position::<K, V>(entries, key);
    if q < p {
        assert(K::before(entries[q].0, key));
    }
    if p < q {
        assert(K::before(entries[p].0, key));
    }
}

/// In sorted entries, a key is found wherever it stands.
pub proof fn lemma_found<K: OrderedKey, V>(entries: Seq<(K::Model, V)>, i: int)
    requires
        sorted::<K, V>(entries),
        0 <= i < entries.len(),
    ensures
        position::<K, V>(entries, entries[i].0) == i,
        present::<K, V>(entries, entries[i].0),
        lookup::<K, V>(entries, entries[i].0) == Some(entries[i].1),
{
    K::lemma_irreflexive(entries[i].0);
    lemma_position_is::<K, V>(entries, entries[i].0, i);
}

/// A key that stands nowhere is not found.
pub proof fn lemma_not_found<K: OrderedKey, V>(entries: Seq<(K::Model, V)>, key: K::Model)
    requires
        forall|i: int| 0 <= i < entries.len() ==> (#[trigger] entries[i]).0 != key,
    ensures
        !present::<K, V>(entries, key),
        lookup::<K, V>(entries, key) is None,
{
    lemma_position::<K, V>(entries, key);
}

/// The positions of a key agree in entries with the same keys.
pub proof fn lemma_same_keys<K: OrderedKey, V, W>(
    a: Seq<(K::Model, V)>,
    b: Seq<(K::Model, W)>,
    key: K::Model,
)
    requires
        a.len() == b.len(),
        forall|i: int| 0 <= i < a.len() ==> (#[trigger] a[i]).0 == (#[trigger] b[i]).0,
    ensures
        position::<K, V>(a, key) == position::<K, W>(b, key),
        present::<K, V>(a, key) == present::<K, W>(b, key),
{
    lemma_position::<K, V>(a, key);
    let p = position::<K, V>(a, key);
    assert forall|i: int| 0 <= i < p implies K::before((#[trigger] b[i]).0, key) by {
        assert(a[i].0 == b[i].0);
    }
    if p < a.len() {
        assert(a[p].0 == b[p].0);
    }
    lemma_position_is::<K, W>(b, key, p);
}

pub proof fn lemma_with_entry_sorted<K: OrderedKey, V>(
    entries: Seq<(K::Model, V)>,
    key: K::Model,
    value: V,
)
    requires
        sorted::<K, V>(entries),
    ensures
        sorted::<K, V>(with_entry::<K, V>(entries, key, value)),
{
    lemma_position::<K, V>(entries, key);
    let p = position::<K, V>(entries, key);
    let next = with_entry::<K, V>(entries, key, value);
    assert forall|i: int, j: int| 0 <= i < j < next.len() implies K::before(
        (#[trigger] next[i]).0,
        (#[trigger] next[j]).0,
    ) by {
        if present::<K, V>(entries, key) {
            assert(next[i].0 == entries[i].0);
            assert(next[j].0 == entries[j].0);
        } else {
            if p < entries.len() {
                K::lemma_total(entries[p].0, key);
            }
            if j < p {
                assert(next[i] == entries[i]);
                assert(next[j] == entries[j]);
            } else if j == p {
                assert(next[i] == entries[i]);
            } else {
                assert(next[j] == entries[j - 1]);
                if i < p {
                    assert(next[i] == entries[i]);
                } else if i == p {
                    if j - 1 > p {
                        K::lemma_transitive(key, entries[p].0, entries[j - 1].0);
                    }
                } else {
                    assert(next[i] == entries[i - 1]);
                }
            }
        }
    }
}

pub proof fn lemma_without_entry_sorted<K: OrderedKey, V>(
    entries: Seq<(K::Model, V)>,
    key: K::Model,
)
    requires
        sorted::<K, V>(entries),
    ensures
        sorted::<K, V>(without_entry::<K, V>(entries, key)),
{
    let p = position::<K, V>(entries, key);
    let next = without_entry::<K, V>(entries, key);
    if present::<K, V>(entries, key) {
        assert forall|i: int, j: int| 0 <= i < j < next.len() implies K::before(
            (#[trigger] next[i]).0,
            (#[trigger] next[j]).0,
        ) by {
            let a = if i < p { i } else { i + 1 };
            let b = if j < p { j } else { j + 1 };
            assert(next[i] == entries[a]);
            assert(next[j] == entries[b]);
        }
    }
}

/// What was put at a key is found there, and every other key keeps its value.
pub proof fn law_put_then_get<K: OrderedKey, V>(
    entries: Seq<(K::Model, V)>,
    key: K::Model,
    value: V,
    other: K::Model,
)
    requires
        sorted::<K, V>(entries),
    ensures
        lookup::<K, V>(with_entry::<K, V>(entries, key, value), other) == if other == key {
            Some(value)
        } else {
            lookup::<K, V>(entries, other)
        },
{
    let next = with_entry::<K, V>(entries, key, value);
    let p = position::<K, V>(entries, key);
    lemma_position::<K, V>(entries, key);
    lemma_with_entry_sorted::<K, V>(entries, key, value);
    if other == key {
        assert(next[p] == (key, value));
        lemma_found::<K, V>(next, p);
    } else if present::<K, V>(entries, other) {
        let q = position::<K, V>(entries, other);
        let r = if present::<K, V>(entries, key) || q < p { q } else { q + 1 };
        assert(next[r] == entries[q]);
        lemma_found::<K, V>(next, r);
    } else {
        assert forall|i: int| 0 <= i < next.len() implies (#[trigger] next[i]).0 != other by {
            if next[i].0 == other {
                let q = if present::<K, V>(entries, key) || i < p { i } else { i - 1 };
                if i != p {
                    assert(next[i] == entries[q]);
                    lemma_found::<K, V>(entries, q);
                }
            }
        }
        lemma_not_found::<K, V>(next, other);
    }
}

/// What was removed is gone, and every other key keeps its value.
pub proof fn law_remove_then_get<K: OrderedKey, V>(
    entries: Seq<(K::Model, V)>,
    key: K::Model,
    other: K::Model,
)
    requires
        sorted::<K, V>(entries),
    ensures
        lookup::<K, V>(without_entry::<K, V>(entries, key), other) == if other == key {
            None
        } else {
            lookup::<K, V>(entries, other)
        },
{
    let next = without_entry::<K, V>(entries, key);
    lemma_without_entry_sorted::<K, V>(entries, key);
    if present::<K, V>(entries, key) {
        let p = position::<K, V>(entries, key);
        if other != key && present::<K, V>(entries, other) {
            let q = position::<K, V>(entries, other);
            let r = if q < p { q } else { q - 1 };
            assert(next[r] == entries[q]);
            lemma_found::<K, V>(next, r);
        } else {
            assert forall|i: int| 0 <= i < next.len() implies (#[trigger] next[i]).0 != other by {
                let q = if i < p { i } else { i + 1 };
                assert(next[i] == entries[q]);
                lemma_found::<K, V>(entries, q);
            }
            lemma_not_found::<K, V>(next, other);
        }
    }
}

/// Sorted entries are determined by what is found at each key.
pub proof fn law_sorted_entries_are_determined<K: OrderedKey, V>(
    a: Seq<(K::Model, V)>,
    b: Seq<(K::Model, V)>,
)
    requires
        sorted::<K, V>(a),
        sorted::<K, V>(b),
        forall|key: K::Model| #[trigger] lookup::<K, V>(a, key) == lookup::<K, V>(b, key),
    ensures
        a == b,
    decreases a.len(),
{
    if a.len() == 0 {
        if b.len() > 0 {
            lemma_found::<K, V>(b, 0);
            assert(lookup::<K, V>(a, b[0].0) is None);
        }
        assert(a =~= b);
    } else if b.len() == 0 {
        lemma_found::<K, V>(a, 0);
        assert(lookup::<K, V>(b, a[0].0) == lookup::<K, V>(a, a[0].0));
    } else {
        let i = a.len() - 1;
        let j = b.len() - 1;
        lemma_found::<K, V>(a, i);
        lemma_found::<K, V>(b, j);
        assert(lookup::<K, V>(b, a[i].0) == lookup::<K, V>(a, a[i].0));
        assert(lookup::<K, V>(a, b[j].0) == lookup::<K, V>(b, b[j].0));
        let p = position::<K, V>(b, a[i].0);
        let q = position::<K, V>(a, b[j].0);
        assert(b[p].0 == a[i].0);
        assert(a[q].0 == b[j].0);
        if p < j && q < i {
            K::lemma_transitive(a[i].0, b[j].0, a[i].0);
            K::lemma_irreflexive(a[i].0);
        }
        if p == j {
            lemma_found::<K, V>(a, i);
            assert(b[j].0 == a[i].0);
        }
        assert(a[i] == b[j]);
        let c = a.drop_last();
        let d = b.drop_last();
        assert forall|x: int, y: int| 0 <= x < y < c.len() implies K::before(
            (#[trigger] c[x]).0,
            (#[trigger] c[y]).0,
        ) by {
            assert(c[x] == a[x] && c[y] == a[y]);
        }
        assert forall|x: int, y: int| 0 <= x < y < d.len() implies K::before(
            (#[trigger] d[x]).0,
            (#[trigger] d[y]).0,
        ) by {
            assert(d[x] == b[x] && d[y] == b[y]);
        }
        assert forall|key: K::Model| #[trigger] lookup::<K, V>(c, key) == lookup::<K, V>(d, key) by {
            assert(lookup::<K, V>(a, key) == lookup::<K, V>(b, key));
            lemma_lookup_drop_last::<K, V>(a, key);
            lemma_lookup_drop_last::<K, V>(b, key);
        }
        law_sorted_entries_are_determined::<K, V>(c, d);
        assert(a =~= c.push(a[i]));
        assert(b =~= d.push(b[j]));
    }
}

proof fn lemma_lookup_drop_last<K: OrderedKey, V>(a: Seq<(K::Model, V)>, key: K::Model)
    requires
        sorted::<K, V>(a),
        a.len() > 0,
    ensures
        lookup::<K, V>(a.drop_last(), key) == if key == a.last().0 {
            None
        } else {
            lookup::<K, V>(a, key)
        },
{
    let c = a.drop_last();
    assert forall|x: int, y: int| 0 <= x < y < c.len() implies K::before(
        (#[trigger] c[x]).0,
        (#[trigger] c[y]).0,
    ) by {
        assert(c[x] == a[x] && c[y] == a[y]);
    }
    if present::<K, V>(a, key) && key != a.last().0 {
        let p = position::<K, V>(a, key);
        assert(c[p] == a[p]);
        lemma_found::<K, V>(c, p);
    } else {
        assert forall|i: int| 0 <= i < c.len() implies (#[trigger] c[i]).0 != key by {
            if c[i].0 == key {
                assert(a[i] == c[i]);
                lemma_found::<K, V>(a, i);
                lemma_found::<K, V>(a, a.len() - 1);
            }
        }
        lemma_not_found::<K, V>(c, key);
    }
}

// ---------------------------------------------------------------------------
// Entries seen through the views of their values
// ---------------------------------------------------------------------------

/// Entries with the view of each value in its place.
pub open spec fn viewed<K: OrderedKey, V: View>(entries: Seq<(K::Model, V)>) -> Seq<
    (K::Model, V::V),
> {
    Seq::new(entries.len(), |i: int| (entries[i].0, entries[i].1@))
}

/// The keys of `entries`, in order.
pub open spec fn keys_of<K: OrderedKey, V>(entries: Seq<(K::Model, V)>) -> Seq<K::Model> {
    Seq::new(entries.len(), |i: int| entries[i].0)
}

pub proof fn lemma_viewed_lookup<K: OrderedKey, V: View>(
    entries: Seq<(K::Model, V)>,
    key: K::Model,
)
    ensures
        lookup::<K, V::V>(viewed::<K, V>(entries), key) == match lookup::<K, V>(entries, key) {
            Some(value) => Some(value@),
            None => None,
        },
        present::<K, V::V>(viewed::<K, V>(entries), key) == present::<K, V>(entries, key),
        position::<K, V::V>(viewed::<K, V>(entries), key) == position::<K, V>(entries, key),
{
    lemma_same_keys::<K, V, V::V>(entries, viewed::<K, V>(entries), key);
    lemma_position::<K, V>(entries, key);
}

pub proof fn lemma_viewed_put<K: OrderedKey, V: View>(
    entries: Seq<(K::Model, V)>,
    key: K::Model,
    value: V,
)
    ensures
        viewed::<K, V>(with_entry::<K, V>(entries, key, value)) == with_entry::<K, V::V>(
            viewed::<K, V>(entries),
            key,
            value@,
        ),
{
    lemma_viewed_lookup::<K, V>(entries, key);
    lemma_position::<K, V>(entries, key);
    assert(viewed::<K, V>(with_entry::<K, V>(entries, key, value)) =~= with_entry::<K, V::V>(
        viewed::<K, V>(entries),
        key,
        value@,
    ));
}

pub proof fn lemma_viewed_remove<K: OrderedKey, V: View>(
    entries: Seq<(K::Model, V)>,
    key: K::Model,
)
    ensures
        viewed::<K, V>(without_entry::<K, V>(entries, key)) == without_entry::<K, V::V>(
            viewed::<K, V>(entries),
            key,
        ),
{
    lemma_viewed_lookup::<K, V>(entries, key);
    lemma_position::<K, V>(entries, key);
    assert(viewed::<K, V>(without_entry::<K, V>(entries, key)) =~= without_entry::<K, V::V>(
        viewed::<K, V>(entries),
        key,
    ));
}

pub proof fn lemma_viewed_sorted<K: OrderedKey, V: View>(entries: Seq<(K::Model, V)>)
    requires
        sorted::<K, V>(entries),
    ensures
        sorted::<K, V::V>(viewed::<K, V>(entries)),
{
    let v = viewed::<K, V>(entries);
    assert forall|i: int, j: int| 0 <= i < j < v.len() implies K::before(
        (#[trigger] v[i]).0,
        (#[trigger] v[j]).0,
    ) by {
        assert(v[i].0 == entries[i].0 && v[j].0 == entries[j].0);
    }
}

/// An entry whose key stands after all others is put at the end.
pub proof fn lemma_put_at_end<K: OrderedKey, V>(
    entries: Seq<(K::Model, V)>,
    key: K::Model,
    value: V,
)
    requires
        forall|i: int| 0 <= i < entries.len() ==> K::before((#[trigger] entries[i]).0, key),
    ensures
        with_entry::<K, V>(entries, key, value) == entries.push((key, value)),
{
    lemma_position_is::<K, V>(entries, key, entries.len() as int);
    assert(with_entry::<K, V>(entries, key, value) =~= entries.push((key, value)));
}

/// Removing an entry before putting one at the same key makes no difference.
pub proof fn lemma_put_after_remove<K: OrderedKey, V>(
    entries: Seq<(K::Model, V)>,
    key: K::Model,
    value: V,
)
    requires
        sorted::<K, V>(entries),
    ensures
        with_entry::<K, V>(without_entry::<K, V>(entries, key), key, value) == with_entry::<K, V>(
            entries,
            key,
            value,
        ),
{
    let left = without_entry::<K, V>(entries, key);
    lemma_without_entry_sorted::<K, V>(entries, key);
    lemma_with_entry_sorted::<K, V>(left, key, value);
    lemma_with_entry_sorted::<K, V>(entries, key, value);
    assert forall|other: K::Model| #[trigger]
        lookup::<K, V>(with_entry::<K, V>(left, key, value), other) == lookup::<K, V>(
        with_entry::<K, V>(entries, key, value),
        other,
    ) by {
        law_put_then_get::<K, V>(left, key, value, other);
        law_put_then_get::<K, V>(entries, key, value, other);
        law_remove_then_get::<K, V>(entries, key, other);
    }
    law_sorted_entries_are_determined::<K, V>(
        with_entry::<K, V>(left, key, value),
        with_entry::<K, V>(entries, key, value),
    );
}

// ---------------------------------------------------------------------------
// The map
// ---------------------------------------------------------------------------

/// A map whose entries stand in key order.
#[derive(Debug, PartialEq, Eq)]
pub struct OrderedMap<K: OrderedKey, V> {
    keys: Vec<K>,
    values: Vec<V>,
}

/// Each key with the value at the same index.
spec fn paired<K: OrderedKey, V>(keys: Seq<K>, values: Seq<V>) -> Seq<(K::Model, V)> {
    Seq::new(keys.len(), |i: int| (keys[i].model(), values[i]))
}

impl<K: OrderedKey, V> View for OrderedMap<K, V> {
    type V = Seq<(K::Model, V)>;

    closed spec fn view(&self) -> Seq<(K::Model, V)> {
        paired::<K, V>(self.keys@, self.values@)
    }
}

impl<K: OrderedKey, V> OrderedMap<K, V> {
    #[verifier::type_invariant]
    closed spec fn inv(self) -> bool {
        &&& self.keys@.len() == self.values@.len()
        &&& sorted::<K, V>(self@)
    }

    pub fn new() -> (r: Self)
        ensures
            r@ == Seq::<(K::Model, V)>::empty(),
            sorted::<K, V>(r@),
    {
        let r = OrderedMap { keys: Vec::new(), values: Vec::new() };
        assert(r@ =~= Seq::<(K::Model, V)>::empty());
        r
    }

    /// The entries are in key order.
    pub fn in_order(&self)
        ensures
            sorted::<K, V>(self@),
    {
        proof {
            use_type_invariant(self);
        }
    }

    pub fn len(&self) -> (r: usize)
        ensures
            r == self@.len(),
    {
        self.keys.len()
    }

    pub fn key(&self, i: usize) -> (r: &K)
        requires
            i < self@.len(),
        ensures
            r.model() == self@[i as int].0,
    {
        &self.keys[i]
    }

    pub fn value(&self, i: usize) -> (r: &V)
        requires
            i < self@.len(),
        ensures
            *r == self@[i as int].1,
    {
        proof {
            use_type_invariant(self);
        }
        &self.values[i]
    }

    /// Where `key` stands or would be inserted.
    fn find(&self, key: &K) -> (p: usize)
        ensures
            p == position::<K, V>(self@, key.model()),
            p <= self@.len(),
            sorted::<K, V>(self@),
            self.keys@.len() == self.values@.len(),
    {
        proof {
            use_type_invariant(self);
        }
        let mut low: usize = 0;
        let mut high: usize = self.keys.len();
        let ghost k = key.model();
        while low < high
            invariant
                low <= high <= self@.len(),
                self@.len() == self.keys@.len(),
                sorted::<K, V>(self@),
                k == key.model(),
                forall|i: int| 0 <= i < low ==> K::before((#[trigger] self@[i]).0, k),
                forall|i: int| high <= i < self@.len() ==> !K::before((#[trigger] self@[i]).0, k),
            decreases high - low,
        {
            let middle: usize = low + (high - low) / 2;
            let place = self.keys[middle].place(key);
            let ghost m = self@[middle as int].0;
            assert(m == self.keys@[middle as int].model());
            match place {
                Place::Before => {
                    assert forall|i: int| 0 <= i < middle + 1 implies K::before(
                        (#[trigger] self@[i]).0,
                        k,
                    ) by {
                        if i < middle {
                            K::lemma_transitive(self@[i].0, m, k);
                        }
                    }
                    low = middle + 1;
                },
                _ => {
                    assert forall|i: int| middle <= i < self@.len() implies !K::before(
                        (#[trigger] self@[i]).0,
                        k,
                    ) by {
                        if K::before(self@[i].0, k) {
                            if i > middle {
                                K::lemma_transitive(m, self@[i].0, k);
                            }
                            K::lemma_irreflexive(k);
                            if m != k {
                                K::lemma_transitive(k, m, k);
                            }
                        }
                    }
                    high = middle;
                },
            }
        }
        proof {
            lemma_position_is::<K, V>(self@, k, low as int);
        }
        low
    }

    pub fn get(&self, key: &K) -> (r: Option<&V>)
        ensures
            match r {
                Some(value) => lookup::<K, V>(self@, key.model()) == Some(*value),
                None => lookup::<K, V>(self@, key.model()) is None,
            },
    {
        let p = self.find(key);
        if p < self.keys.len() {
            if let Place::Same = self.keys[p].place(key) {
                return Some(&self.values[p]);
            }
            proof {
                K::lemma_irreflexive(key.model());
            }
        }
        None
    }

    /// The index of `key`, if it is present.
    pub fn index(&self, key: &K) -> (r: Option<usize>)
        ensures
            match r {
                Some(i) => {
                    &&& i == position::<K, V>(self@, key.model())
                    &&& present::<K, V>(self@, key.model())
                    &&& i < self@.len()
                    &&& self@[i as int].0 == key.model()
                },
                None => !present::<K, V>(self@, key.model()),
            },
    {
        let p = self.find(key);
        if p < self.keys.len() {
            if let Place::Same = self.keys[p].place(key) {
                return Some(p);
            }
            proof {
                K::lemma_irreflexive(key.model());
            }
        }
        None
    }

    pub fn contains(&self, key: &K) -> (r: bool)
        ensures
            r == present::<K, V>(self@, key.model()),
    {
        self.index(key).is_some()
    }

    /// Puts `value` at `key`, in place of what stood there.
    pub fn insert(&mut self, key: K, value: V)
        ensures
            final(self)@ == with_entry::<K, V>(old(self)@, key.model(), value),
            sorted::<K, V>(final(self)@),
    {
        let ghost before = self@;
        let ghost k = key.model();
        let p = self.find(&key);
        let found = self.index(&key).is_some();
        proof {
            lemma_with_entry_sorted::<K, V>(before, k, value);
        }
        let mut taken = OrderedMap::new();
        std::mem::swap(&mut taken, self);
        let OrderedMap { mut keys, mut values } = taken;
        if found {
            values.set(p, value);
        } else {
            keys.insert(p, key);
            values.insert(p, value);
        }
        assert(paired::<K, V>(keys@, values@) =~= with_entry::<K, V>(before, k, value));
        *self = OrderedMap { keys, values };
    }

    /// Replaces the value of the entry at `i`.
    pub fn set(&mut self, i: usize, value: V)
        requires
            i < old(self)@.len(),
        ensures
            final(self)@ == old(self)@.update(i as int, (old(self)@[i as int].0, value)),
            sorted::<K, V>(final(self)@),
    {
        proof {
            use_type_invariant(&*self);
        }
        let ghost before = self@;
        let mut taken = OrderedMap::new();
        std::mem::swap(&mut taken, self);
        let OrderedMap { mut keys, mut values } = taken;
        values.set(i, value);
        let ghost next = paired::<K, V>(keys@, values@);
        assert(next =~= before.update(i as int, (before[i as int].0, value)));
        assert forall|x: int, y: int| 0 <= x < y < next.len() implies K::before(
            (#[trigger] next[x]).0,
            (#[trigger] next[y]).0,
        ) by {
            assert(next[x].0 == before[x].0 && next[y].0 == before[y].0);
        }
        *self = OrderedMap { keys, values };
    }

    /// The keys, in order.
    pub fn into_keys(self) -> (r: Vec<K>)
        ensures
            r@.len() == self@.len(),
            forall|i: int| 0 <= i < r@.len() ==> (#[trigger] r@[i]).model() == self@[i].0,
    {
        self.keys
    }

    /// The values, in the order of their keys.
    pub fn into_values(self) -> (r: Vec<V>)
        ensures
            r@.len() == self@.len(),
            forall|i: int| 0 <= i < r@.len() ==> (#[trigger] r@[i]) == self@[i].1,
    {
        proof {
            use_type_invariant(&self);
        }
        self.values
    }

    /// Takes the entry at `key` out of the map.
    pub fn remove(&mut self, key: &K) -> (r: Option<V>)
        ensures
            final(self)@ == without_entry::<K, V>(old(self)@, key.model()),
            r == lookup::<K, V>(old(self)@, key.model()),
            sorted::<K, V>(final(self)@),
    {
        let ghost before = self@;
        let ghost k = key.model();
        let _ = self.find(key);
        proof {
            lemma_without_entry_sorted::<K, V>(before, k);
        }
        match self.index(key) {
            Some(p) => {
                let mut taken = OrderedMap::new();
                std::mem::swap(&mut taken, self);
                let OrderedMap { mut keys, mut values } = taken;
                let _ = keys.remove(p);
                let value = values.remove(p);
                assert(paired::<K, V>(keys@, values@) =~= without_entry::<K, V>(before, k));
                *self = OrderedMap { keys, values };
                Some(value)
            },
            None => None,
        }
    }
}

// ---------------------------------------------------------------------------
// Texts as keys
// ---------------------------------------------------------------------------

/// The order of byte strings: by the first byte that differs, a prefix first.
pub open spec fn bytes_before(a: Seq<u8>, b: Seq<u8>) -> bool
    decreases a.len(),
{
    if b.len() == 0 {
        false
    } else if a.len() == 0 {
        true
    } else if a[0] == b[0] {
        bytes_before(a.skip(1), b.skip(1))
    } else {
        a[0] < b[0]
    }
}

proof fn lemma_bytes_irreflexive(a: Seq<u8>)
    ensures
        !bytes_before(a, a),
    decreases a.len(),
{
    if a.len() > 0 {
        lemma_bytes_irreflexive(a.skip(1));
    }
}

proof fn lemma_bytes_transitive(a: Seq<u8>, b: Seq<u8>, c: Seq<u8>)
    requires
        bytes_before(a, b),
        bytes_before(b, c),
    ensures
        bytes_before(a, c),
    decreases a.len(),
{
    if a.len() > 0 && a[0] == b[0] && b[0] == c[0] {
        lemma_bytes_transitive(a.skip(1), b.skip(1), c.skip(1));
    }
}

proof fn lemma_bytes_total(a: Seq<u8>, b: Seq<u8>)
    ensures
        a == b || bytes_before(a, b) || bytes_before(b, a),
    decreases a.len(),
{
    if a.len() == 0 {
        if b.len() == 0 {
            assert(a =~= b);
        }
    } else if b.len() > 0 && a[0] == b[0] {
        lemma_bytes_total(a.skip(1), b.skip(1));
        if a.skip(1) == b.skip(1) {
            assert(a =~= seq![a[0]] + a.skip(1));
            assert(b =~= seq![b[0]] + b.skip(1));
        }
    }
}

/// The order of texts: that of their UTF-8 encodings.
pub open spec fn text_before(a: Seq<char>, b: Seq<char>) -> bool {
    bytes_before(encode_utf8(a), encode_utf8(b))
}

/// Where one text stands relative to another.
pub fn place_text(a: &str, b: &str) -> (r: Place)
    ensures
        match r {
            Place::Before => text_before(a@, b@),
            Place::Same => a@ == b@,
            Place::After => text_before(b@, a@),
        },
{
    let x = a.as_bytes();
    let y = b.as_bytes();
    let mut i: usize = 0;
    assert(x@.skip(0) =~= x@);
    assert(y@.skip(0) =~= y@);
    while i < x.len() && i < y.len() && x[i] == y[i]
        invariant
            i <= x@.len(),
            i <= y@.len(),
            x@.take(i as int) == y@.take(i as int),
            bytes_before(x@, y@) == bytes_before(x@.skip(i as int), y@.skip(i as int)),
            bytes_before(y@, x@) == bytes_before(y@.skip(i as int), x@.skip(i as int)),
        decreases x@.len() - i,
    {
        assert(x@.skip(i as int).skip(1) =~= x@.skip(i + 1));
        assert(y@.skip(i as int).skip(1) =~= y@.skip(i + 1));
        assert(x@.take(i + 1) =~= x@.take(i as int).push(x@[i as int]));
        assert(y@.take(i + 1) =~= y@.take(i as int).push(y@[i as int]));
        i += 1;
    }
    if i == x.len() {
        if i == y.len() {
            proof {
                assert(x@.take(i as int) =~= x@);
                assert(y@.take(i as int) =~= y@);
                encode_utf8_decode_utf8(a@);
                encode_utf8_decode_utf8(b@);
            }
            Place::Same
        } else {
            Place::Before
        }
    } else if i == y.len() {
        Place::After
    } else if x[i] < y[i] {
        Place::Before
    } else {
        Place::After
    }
}

impl OrderedKey for String {
    type Model = Seq<char>;

    open spec fn model(&self) -> Seq<char> {
        self@
    }

    open spec fn before(a: Seq<char>, b: Seq<char>) -> bool {
        text_before(a, b)
    }

    proof fn lemma_irreflexive(a: Seq<char>) {
        assert(Self::before(a, a) == text_before(a, a));
        lemma_bytes_irreflexive(encode_utf8(a));
    }

    proof fn lemma_transitive(a: Seq<char>, b: Seq<char>, c: Seq<char>) {
        assert(Self::before(a, b) == text_before(a, b));
        assert(Self::before(b, c) == text_before(b, c));
        assert(Self::before(a, c) == text_before(a, c));
        lemma_bytes_transitive(encode_utf8(a), encode_utf8(b), encode_utf8(c));
    }

    proof fn lemma_total(a: Seq<char>, b: Seq<char>) {
        lemma_bytes_total(encode_utf8(a), encode_utf8(b));
        encode_utf8_decode_utf8(a);
        encode_utf8_decode_utf8(b);
    }

    fn place(&self, other: &String) -> (r: Place) {
        place_text(self.as_str(), other.as_str())
    }

    fn duplicate(&self) -> (r: String) {
        self.clone()
    }
}

/// The order of name lists: by the first name that differs, a prefix first.
pub open spec fn names_before(a: Seq<Seq<char>>, b: Seq<Seq<char>>) -> bool
    decreases a.len(),
{
    if b.len() == 0 {
        false
    } else if a.len() == 0 {
        true
    } else if a[0] == b[0] {
        names_before(a.skip(1), b.skip(1))
    } else {
        text_before(a[0], b[0])
    }
}

impl OrderedKey for Vec<String> {
    type Model = Seq<Seq<char>>;

    open spec fn model(&self) -> Seq<Seq<char>> {
        texts(self@)
    }

    open spec fn before(a: Seq<Seq<char>>, b: Seq<Seq<char>>) -> bool {
        names_before(a, b)
    }

    proof fn lemma_irreflexive(a: Seq<Seq<char>>)
        decreases a.len(),
    {
        if a.len() > 0 {
            Self::lemma_irreflexive(a.skip(1));
        }
    }

    proof fn lemma_transitive(a: Seq<Seq<char>>, b: Seq<Seq<char>>, c: Seq<Seq<char>>)
        decreases a.len(),
    {
        if a.len() > 0 {
            if a[0] == b[0] && b[0] == c[0] {
                Self::lemma_transitive(a.skip(1), b.skip(1), c.skip(1));
            } else if a[0] != b[0] && b[0] != c[0] {
                <String as OrderedKey>::lemma_transitive(a[0], b[0], c[0]);
                if a[0] == c[0] {
                    <String as OrderedKey>::lemma_irreflexive(a[0]);
                }
            }
        }
    }

    proof fn lemma_total(a: Seq<Seq<char>>, b: Seq<Seq<char>>)
        decreases a.len(),
    {
        if a.len() == 0 {
            if b.len() == 0 {
                assert(a =~= b);
            }
        } else if b.len() > 0 {
            if a[0] == b[0] {
                Self::lemma_total(a.skip(1), b.skip(1));
                if a.skip(1) == b.skip(1) {
                    assert(a =~= seq![a[0]] + a.skip(1));
                    assert(b =~= seq![b[0]] + b.skip(1));
                }
            } else {
                <String as OrderedKey>::lemma_total(a[0], b[0]);
            }
        }
    }

    fn place(&self, other: &Vec<String>) -> (r: Place) {
        let ghost x = texts(self@);
        let ghost y = texts(other@);
        let mut i: usize = 0;
        assert(x.skip(0) =~= x);
        assert(y.skip(0) =~= y);
        while i < self.len() && i < other.len()
            invariant
                i <= self@.len(),
                i <= other@.len(),
                x == texts(self@),
                y == texts(other@),
                x.take(i as int) == y.take(i as int),
                names_before(x, y) == names_before(x.skip(i as int), y.skip(i as int)),
                names_before(y, x) == names_before(y.skip(i as int), x.skip(i as int)),
            decreases self@.len() - i,
        {
            let place = place_text(self[i].as_str(), other[i].as_str());
            proof {
                <String as OrderedKey>::lemma_irreflexive(x[i as int]);
                assert(x.skip(i as int)[0] == x[i as int]);
                assert(y.skip(i as int)[0] == y[i as int]);
            }
            match place {
                Place::Same => {},
                _ => {
                    return place;
                },
            }
            assert(x.skip(i as int).skip(1) =~= x.skip(i + 1));
            assert(y.skip(i as int).skip(1) =~= y.skip(i + 1));
            assert(x.take(i + 1) =~= x.take(i as int).push(x[i as int]));
            assert(y.take(i + 1) =~= y.take(i as int).push(y[i as int]));
            i += 1;
        }
        if self.len() == other.len() {
            assert(x.take(i as int) =~= x);
            assert(y.take(i as int) =~= y);
            Place::Same
        } else if i == self.len() {
            Place::Before
        } else {
            Place::After
        }
    }

    fn duplicate(&self) -> (r: Vec<String>) {
        let r = self.clone();
        assert(texts(r@) =~= texts(self@));
        r
    }
}

// ---------------------------------------------------------------------------
// Sorting
// ---------------------------------------------------------------------------

/// No text stands before one that it should stand behind.
pub open spec fn in_text_order(list: Seq<Seq<char>>) -> bool {
    forall|i: int, j: int|
        0 <= i < j < list.len() ==> !text_before(#[trigger] list[j], #[trigger] list[i])
}

/// Sorts texts by their bytes.
pub fn sort_texts(list: Vec<String>) -> (r: Vec<String>)
    ensures
        in_text_order(texts(r@)),
        texts(r@).to_multiset() == texts(list@).to_multiset(),
{
    let ghost all = texts(list@);
    let mut r: Vec<String> = Vec::new();
    let mut n: usize = 0;
    assert(texts(r@) =~= all.take(0));
    while n < list.len()
        invariant
            n <= list@.len(),
            all == texts(list@),
            r@.len() == n,
            in_text_order(texts(r@)),
            texts(r@).to_multiset() == all.take(n as int).to_multiset(),
        decreases list@.len() - n,
    {
        let text = list[n].clone();
        let ghost before = texts(r@);
        let mut i: usize = 0;
        let mut placed = false;
        while !placed && i < r.len()
            invariant
                i <= r@.len(),
                before == texts(r@),
                forall|k: int| 0 <= k < i ==> !text_before(text@, #[trigger] before[k]),
                placed ==> i < r@.len() && text_before(text@, before[i as int]),
            decreases r@.len() - i, (if placed { 0int } else { 1int }),
        {
            assert(before[i as int] == r@[i as int]@);
            if let Place::Before = place_text(text.as_str(), r[i].as_str()) {
                placed = true;
            } else {
                proof {
                    lemma_text_irreflexive(text@);
                    if text_before(text@, before[i as int]) && text_before(
                        before[i as int],
                        text@,
                    ) {
                        lemma_text_transitive(text@, before[i as int], text@);
                    }
                }
                i += 1;
            }
        }
        let ghost moved = text@;
        r.insert(i, text);
        proof {
            let after = texts(r@);
            assert(after =~= before.insert(i as int, moved));
            assert forall|x: int, y: int| 0 <= x < y < after.len() implies !text_before(
                #[trigger] after[y],
                #[trigger] after[x],
            ) by {
                let a = if x < i { x } else { x - 1 };
                let b = if y < i { y } else { y - 1 };
                if y == i {
                    assert(after[x] == before[x]);
                } else if x == i {
                    assert(after[y] == before[b]);
                    if text_before(before[b], moved) {
                        lemma_text_transitive(before[b], moved, before[i as int]);
                        if b == i {
                            lemma_text_irreflexive(before[b]);
                        }
                    }
                } else {
                    assert(after[x] == before[a]);
                    assert(after[y] == before[b]);
                }
            }
            vstd::seq_lib::to_multiset_insert(before, i as int, moved);
            assert(all.take(n + 1) =~= all.take(n as int).push(all[n as int]));
            all.take(n as int).to_multiset_ensures();
            assert(moved == all[n as int]);
        }
        n += 1;
    }
    assert(all.take(all.len() as int) =~= all);
    r
}

proof fn lemma_text_transitive(a: Seq<char>, b: Seq<char>, c: Seq<char>)
    requires
        text_before(a, b),
        text_before(b, c),
    ensures
        text_before(a, c),
{
    lemma_bytes_transitive(encode_utf8(a), encode_utf8(b), encode_utf8(c));
}

proof fn lemma_text_irreflexive(a: Seq<char>)
    ensures
        !text_before(a, a),
{
    lemma_bytes_irreflexive(encode_utf8(a));
}

} // verus!
