//! Maps from text to values, kept in the order of their keys.
use crate::text::{same, to_chars};
use vstd::prelude::*;

verus! {

/// The order of texts: at the first place where they differ, the lesser character comes first,
/// and a text comes before what continues it.
pub open spec fn text_less(a: Seq<char>, b: Seq<char>) -> bool
    decreases a.len(),
{
    if b.len() == 0 {
        false
    } else if a.len() == 0 {
        true
    } else if a[0] != b[0] {
        a[0] < b[0]
    } else {
        text_less(a.drop_first(), b.drop_first())
    }
}

/// No text comes before itself.
pub proof fn lemma_text_less_irreflexive(a: Seq<char>)
    ensures
        !text_less(a, a),
    decreases a.len(),
{
    if a.len() > 0 {
        lemma_text_less_irreflexive(a.drop_first());
    }
}

/// What comes before a text comes before all that follow it.
pub proof fn lemma_text_less_transitive(a: Seq<char>, b: Seq<char>, c: Seq<char>)
    requires
        text_less(a, b),
        text_less(b, c),
    ensures
        text_less(a, c),
    decreases a.len(),
{
    if a.len() > 0 && b.len() > 0 && c.len() > 0 && a[0] == b[0] && b[0] == c[0] {
        lemma_text_less_transitive(a.drop_first(), b.drop_first(), c.drop_first());
    }
}

/// Of two different texts one comes before the other.
pub proof fn lemma_text_less_total(a: Seq<char>, b: Seq<char>)
    ensures
        a == b || text_less(a, b) || text_less(b, a),
    decreases a.len(),
{
    if a.len() == 0 || b.len() == 0 {
        assert(a.len() == 0 && b.len() == 0 ==> a =~= b);
    } else if a[0] == b[0] {
        lemma_text_less_total(a.drop_first(), b.drop_first());
        if a.drop_first() == b.drop_first() {
            assert(a =~= seq![a[0]] + a.drop_first());
            assert(b =~= seq![b[0]] + b.drop_first());
        }
    }
}

/// Whether `a` comes before `b`.
pub fn comes_before(a: &str, b: &str) -> (r: bool)
    ensures
        r == text_less(a@, b@),
{
    let x = to_chars(a);
    let y = to_chars(b);
    let mut i: usize = 0;
    assert(x@.skip(0) =~= a@);
    assert(y@.skip(0) =~= b@);
    while i < x.len() && i < y.len() && x[i] == y[i]
        invariant
            i <= x@.len(),
            i <= y@.len(),
            text_less(a@, b@) == text_less(x@.skip(i as int), y@.skip(i as int)),
        decreases x@.len() - i,
    {
        assert(x@.skip(i as int).drop_first() =~= x@.skip(i + 1));
        assert(y@.skip(i as int).drop_first() =~= y@.skip(i + 1));
        i += 1;
    }
    if i == y.len() {
        false
    } else if i == x.len() {
        true
    } else {
        x[i] < y[i]
    }
}

/// Whether every entry's key comes before those of the entries behind it.
pub open spec fn ascending<V>(entries: Seq<(String, V)>) -> bool {
    forall|i: int, j: int| #![auto]
        0 <= i < j < entries.len() ==> text_less(entries[i].0@, entries[j].0@)
}

/// A map with text keys. Its entries stand in ascending order of their keys, and no key occurs
/// twice.
pub struct SortedMap<V> {
    entries: Vec<(String, V)>,
}

impl<V> SortedMap<V> {
    #[verifier::type_invariant]
    spec fn ordered(self) -> bool {
        ascending(self.entries@)
    }

    /// The entries, in order.
    pub closed spec fn entries(self) -> Seq<(String, V)> {
        self.entries@
    }

    /// The keys, in order.
    pub open spec fn keys(self) -> Seq<Seq<char>> {
        self.entries().map_values(|e: (String, V)| e.0@)
    }

    /// The map as a mathematical one.
    pub open spec fn to_map(self) -> Map<Seq<char>, V> {
        Map::new(
            |k: Seq<char>| self.keys().contains(k),
            |k: Seq<char>| self.entries()[self.keys().index_of(k)].1,
        )
    }

    /// A map without entries.
    pub fn new() -> (r: SortedMap<V>)
        ensures
            r.entries() == Seq::<(String, V)>::empty(),
    {
        SortedMap { entries: Vec::new() }
    }

    /// The number of entries; these stand in ascending order of their keys.
    pub fn len(&self) -> (r: usize)
        ensures
            r == self.entries().len(),
            ascending(self.entries()),
    {
        proof {
            use_type_invariant(self);
        }
        self.entries.len()
    }

    /// The key at a place.
    pub fn key(&self, i: usize) -> (r: &String)
        requires
            i < self.entries().len(),
        ensures
            *r == self.entries()[i as int].0,
            r@ == self.keys()[i as int],
    {
        &self.entries[i].0
    }

    /// The value at a place.
    pub fn value(&self, i: usize) -> (r: &V)
        requires
            i < self.entries().len(),
        ensures
            *r == self.entries()[i as int].1,
    {
        &self.entries[i].1
    }

    /// Puts `value` under `key`, in place of the value that was there.
    pub fn insert(&mut self, key: String, value: V)
        ensures
            final(self).to_map() == old(self).to_map().insert(key@, value),
            ascending(final(self).entries()),
    {
        proof {
            use_type_invariant(&*self);
        }
        let ghost before = self.entries@;
        let mut entries: Vec<(String, V)> = Vec::new();
        std::mem::swap(&mut self.entries, &mut entries);
        let mut p: usize = 0;
        while p < entries.len() && comes_before(entries[p].0.as_str(), key.as_str())
            invariant
                p <= entries@.len(),
                entries@ == before,
                forall|i: int| #![auto] 0 <= i < p ==> text_less(before[i].0@, key@),
            decreases entries@.len() - p,
        {
            p += 1;
        }
        if p < entries.len() && same(entries[p].0.as_str(), key.as_str()) {
            entries.set(p, (key, value));
        } else {
            proof {
                if p < before.len() {
                    lemma_text_less_total(before[p as int].0@, key@);
                    assert forall|j: int| p <= j < before.len() implies text_less(
                        key@,
                        #[trigger] before[j].0@,
                    ) by {
                        if j > p {
                            lemma_text_less_transitive(
                                key@,
                                before[p as int].0@,
                                before[j].0@,
                            );
                        }
                    }
                }
            }
            entries.insert(p, (key, value));
        }
        proof {
            lemma_inserted(before, entries@, p as int);
        }
        self.entries = entries;
        proof {
            lemma_to_map_inserted(*old(self), *self, p as int);
        }
    }

    /// The same keys with other values.
    pub fn with_values<W>(&self, values: Vec<W>) -> (r: SortedMap<W>)
        requires
            values@.len() == self.entries().len(),
        ensures
            r.keys() == self.keys(),
            r.entries().len() == values@.len(),
            forall|i: int| 0 <= i < values@.len() ==> (#[trigger] r.entries()[i]).1 == values@[i],
    {
        proof {
            use_type_invariant(self);
        }
        let mut entries: Vec<(String, W)> = Vec::new();
        let mut values = values;
        let ghost all = values@;
        let mut i: usize = self.entries.len();
        while i > 0
            invariant
                i <= self.entries@.len(),
                values@ == all.take(i as int),
                all.len() == self.entries@.len(),
                entries@.len() == all.len() - i,
                forall|j: int| #![auto]
                    0 <= j < entries@.len() ==> entries@[j].0@ == self.entries@[i + j].0@
                        && entries@[j].1 == all[i + j],
            decreases i,
        {
            i -= 1;
            let ghost before = entries@;
            if let Some(value) = values.pop() {
                assert(values@ =~= all.take(i as int));
                entries.insert(0, (self.entries[i].0.clone(), value));
                assert forall|j: int| #![auto] 0 <= j < entries@.len() implies entries@[j].0@
                    == self.entries@[i + j].0@ && entries@[j].1 == all[i + j] by {
                    if j > 0 {
                        assert(entries@[j] == before[j - 1]);
                    }
                }
            }
        }
        let r = SortedMap { entries };
        assert(r.keys() =~= self.keys());
        r
    }
}

/// Shows that the entries stay in order where one is put at its place.
proof fn lemma_inserted<V>(before: Seq<(String, V)>, after: Seq<(String, V)>, p: int)
    requires
        ascending(before),
        0 <= p < after.len(),
        forall|i: int| #![auto] 0 <= i < p ==> text_less(before[i].0@, after[p].0@),
        ({
            ||| p < before.len() && before[p].0@ == after[p].0@ && after == before.update(
                p,
                after[p],
            )
            ||| p <= before.len() && after == before.insert(p, after[p]) && (forall|j: int|
                p <= j < before.len() ==> text_less(after[p].0@, #[trigger] before[j].0@))
        }),
    ensures
        ascending(after),
{
    assert forall|i: int, j: int| #![auto] 0 <= i < j < after.len() implies text_less(
        after[i].0@,
        after[j].0@,
    ) by {
        if after.len() == before.len() {
            assert(after[i].0@ == before[i].0@);
            assert(after[j].0@ == before[j].0@);
        } else {
            if i < p && j > p {
                assert(after[j] == before[j - 1]);
            } else if i == p {
                assert(after[j] == before[j - 1]);
            } else if i > p {
                assert(after[i] == before[i - 1]);
                assert(after[j] == before[j - 1]);
            }
        }
    }
}

/// No key of an ordered map occurs twice.
proof fn lemma_distinct<V>(m: SortedMap<V>)
    requires
        ascending(m.entries()),
    ensures
        forall|i: int, j: int| #![auto]
            0 <= i < m.keys().len() && 0 <= j < m.keys().len() && m.keys()[i] == m.keys()[j] ==> i
                == j,
{
    assert forall|i: int, j: int| #![auto]
        0 <= i < m.keys().len() && 0 <= j < m.keys().len() && m.keys()[i] == m.keys()[j] implies i
        == j by {
        lemma_text_less_irreflexive(m.keys()[i]);
        if i < j {
            assert(text_less(m.entries()[i].0@, m.entries()[j].0@));
        } else if j < i {
            assert(text_less(m.entries()[j].0@, m.entries()[i].0@));
        }
    }
}

/// The mathematical map after one entry was put at its place.
proof fn lemma_to_map_inserted<V>(old_map: SortedMap<V>, new_map: SortedMap<V>, p: int)
    requires
        ascending(old_map.entries()),
        ascending(new_map.entries()),
        0 <= p < new_map.entries().len(),
        ({
            let before = old_map.entries();
            let after = new_map.entries();
            ||| p < before.len() && before[p].0@ == after[p].0@ && after == before.update(
                p,
                after[p],
            )
            ||| p <= before.len() && after == before.insert(p, after[p])
        }),
    ensures
        new_map.to_map() == old_map.to_map().insert(
            new_map.entries()[p].0@,
            new_map.entries()[p].1,
        ),
{
    let before = old_map.entries();
    let after = new_map.entries();
    let key = after[p].0@;
    lemma_distinct(old_map);
    lemma_distinct(new_map);
    let expected = old_map.to_map().insert(key, after[p].1);
    assert forall|k: Seq<char>| new_map.to_map().dom().contains(k) == expected.dom().contains(k) by {
        if new_map.keys().contains(k) {
            let i = new_map.keys().index_of(k);
            if i != p {
                let q = if after.len() == before.len() || i < p {
                    i
                } else {
                    i - 1
                };
                assert(old_map.keys()[q] == k);
            }
        }
        if old_map.keys().contains(k) {
            let q = old_map.keys().index_of(k);
            let i = if after.len() == before.len() || q < p {
                q
            } else {
                q + 1
            };
            assert(new_map.keys()[i] == k);
        }
        assert(new_map.keys()[p] == key);
    }
    assert forall|k: Seq<char>| new_map.to_map().dom().contains(k) implies new_map.to_map()[k]
        == expected[k] by {
        let i = new_map.keys().index_of(k);
        assert(new_map.keys()[p] == key);
        if i != p {
            let q = if after.len() == before.len() || i < p {
                i
            } else {
                i - 1
            };
            assert(old_map.keys()[q] == k);
            let q2 = old_map.keys().index_of(k);
            assert(q2 == q);
        }
    }
    assert(new_map.to_map() =~= expected);
}

impl<V> Default for SortedMap<V> {
    fn default() -> (r: SortedMap<V>)
        ensures
            r.entries() == Seq::<(String, V)>::empty(),
    {
        SortedMap::new()
    }
}

// --- laws ---

/// Of two texts with the same beginning, the one whose next character is the lesser comes first.
pub proof fn law_first_difference_decides(
    same_part: Seq<char>,
    a: char,
    b: char,
    x: Seq<char>,
    y: Seq<char>,
)
    requires
        a < b,
    ensures
        text_less(same_part + seq![a] + x, same_part + seq![b] + y),
        !text_less(same_part + seq![b] + y, same_part + seq![a] + x),
    decreases same_part.len(),
{
    let s = same_part + seq![a] + x;
    let t = same_part + seq![b] + y;
    if same_part.len() > 0 {
        let rest = same_part.drop_first();
        law_first_difference_decides(rest, a, b, x, y);
        assert(s.drop_first() =~= rest + seq![a] + x);
        assert(t.drop_first() =~= rest + seq![b] + y);
    }
}

/// A text comes before what continues it.
pub proof fn law_beginning_comes_first(s: Seq<char>, more: Seq<char>)
    requires
        more.len() > 0,
    ensures
        text_less(s, s + more),
        !text_less(s + more, s),
    decreases s.len(),
{
    if s.len() > 0 {
        law_beginning_comes_first(s.drop_first(), more);
        assert((s + more).drop_first() =~= s.drop_first() + more);
    }
}

} // verus!
