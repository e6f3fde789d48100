//! A map from identities to values, kept as a list of entries in the order
//! of their identities: the order of strings, which compares their bytes.
//! No identity occurs twice, and two ledgers that stand for the same map
//! hold their entries in the same order.

use vstd::prelude::*;
use vstd::utf8::{encode_utf8, encode_utf8_decode_utf8};

verus! {

/// One identity and what the ledger holds for it.
pub struct Entry<V> {
    pub key: String,
    pub value: V,
}

/// A map from identities to values. Its view is the `Map` from each
/// identity, as a sequence of characters, to the view of its value. The
/// entries stand in the order of their identities.
pub struct Ledger<V> {
    entries: Vec<Entry<V>>,
}

/// A value that can be copied: the copy has the view of what it was made
/// from.
pub trait Replicate: View + Sized {
    fn replicate(&self) -> (copy: Self)
        ensures
            copy@ == self@,
    ;
}

impl Replicate for u32 {
    fn replicate(&self) -> (copy: u32) {
        *self
    }
}

/// `a` and `b` agree before place `k`, and there `a` ends or has the
/// smaller byte.
pub open spec fn differ_at(a: Seq<u8>, b: Seq<u8>, k: int) -> bool {
    &&& 0 <= k <= a.len()
    &&& k < b.len()
    &&& forall|i: int| 0 <= i < k ==> a[i] == b[i]
    &&& (k == a.len() || a[k] < b[k])
}

/// `a` comes before `b` in the order of byte strings: at the first place
/// where they differ `a` has the smaller byte, or `a` ends there.
pub open spec fn bytes_before(a: Seq<u8>, b: Seq<u8>) -> bool {
    exists|k: int| #[trigger] differ_at(a, b, k)
}

/// `a` comes before `b` in the order of strings, which is the order of their
/// bytes in UTF-8.
pub open spec fn key_before(a: Seq<char>, b: Seq<char>) -> bool {
    bytes_before(encode_utf8(a), encode_utf8(b))
}

/// The identities of `entries` stand in their order, each before the next.
pub open spec fn keys_ascending<V>(entries: Seq<Entry<V>>) -> bool {
    forall|i: int, j: int|
        0 <= i < j < entries.len() ==> key_before(
            (#[trigger] entries[i]).key@,
            (#[trigger] entries[j]).key@,
        )
}

/// The order of byte strings is transitive.
pub proof fn lemma_before_transitive(a: Seq<u8>, b: Seq<u8>, c: Seq<u8>)
    requires
        bytes_before(a, b),
        bytes_before(b, c),
    ensures
        bytes_before(a, c),
{
    let first = choose|k: int| #[trigger] differ_at(a, b, k);
    let second = choose|k: int| #[trigger] differ_at(b, c, k);
    let k = if first <= second {
        first
    } else {
        second
    };
    assert(differ_at(a, c, k));
}

/// No string comes before itself.
pub proof fn lemma_before_irreflexive(a: Seq<char>, b: Seq<char>)
    requires
        key_before(a, b),
    ensures
        a != b,
{
    let k = choose|k: int| #[trigger] differ_at(encode_utf8(a), encode_utf8(b), k);
    assert(differ_at(encode_utf8(a), encode_utf8(b), k));
}

/// Identities that stand in their order are all different.
pub proof fn lemma_ascending_is_distinct<V>(entries: Seq<Entry<V>>)
    requires
        keys_ascending(entries),
    ensures
        keys_distinct(entries),
{
    assert forall|i: int, j: int| 0 <= i < j < entries.len() implies (#[trigger] entries[i]).key@
        != (#[trigger] entries[j]).key@ by {
        lemma_before_irreflexive(entries[i].key@, entries[j].key@);
    }
}

/// Where an identity stands in its order among those of `entries`, putting
/// it there keeps the order.
pub proof fn lemma_insert_keeps_order<V>(entries: Seq<Entry<V>>, at: int, entry: Entry<V>)
    requires
        keys_ascending(entries),
        0 <= at <= entries.len(),
        forall|i: int| 0 <= i < at ==> key_before((#[trigger] entries[i]).key@, entry.key@),
        at < entries.len() ==> key_before(entry.key@, entries[at].key@),
    ensures
        keys_ascending(entries.insert(at, entry)),
{
    let after = entries.insert(at, entry);
    assert forall|j: int| at <= j < entries.len() implies key_before(
        entry.key@,
        (#[trigger] entries[j]).key@,
    ) by {
        if at < j {
            assert(key_before(entries[at].key@, entries[j].key@));
            lemma_before_transitive(
                encode_utf8(entry.key@),
                encode_utf8(entries[at].key@),
                encode_utf8(entries[j].key@),
            );
        }
    }
    assert forall|i: int, j: int| 0 <= i < j < after.len() implies key_before(
        (#[trigger] after[i]).key@,
        (#[trigger] after[j]).key@,
    ) by {
        let a = if i < at {
            i
        } else {
            i - 1
        };
        let b = if j < at {
            j
        } else {
            j - 1
        };
        if i == at {
            assert(after[j] == entries[b]);
        } else if j == at {
            assert(after[i] == entries[a]);
        } else {
            assert(after[i] == entries[a] && after[j] == entries[b]);
            assert(key_before(entries[a].key@, entries[b].key@));
        }
    }
}

/// An identity that stands between two neighbours of a list in order is
/// not in the list.
pub proof fn lemma_not_held<V>(entries: Seq<Entry<V>>, at: int, key: Seq<char>)
    requires
        keys_ascending(entries),
        0 <= at <= entries.len(),
        forall|i: int| 0 <= i < at ==> key_before((#[trigger] entries[i]).key@, key),
        at < entries.len() ==> key_before(key, entries[at].key@),
    ensures
        !holds_key(entries, key),
{
    assert forall|i: int| 0 <= i < entries.len() implies (#[trigger] entries[i]).key@ != key by {
        if i < at {
            lemma_before_irreflexive(entries[i].key@, key);
        } else {
            if at < i {
                assert(key_before(entries[at].key@, entries[i].key@));
                lemma_before_transitive(
                    encode_utf8(key),
                    encode_utf8(entries[at].key@),
                    encode_utf8(entries[i].key@),
                );
            }
            lemma_before_irreflexive(key, entries[i].key@);
        }
    }
}

/// Taking an entry out keeps the order of the others.
pub proof fn lemma_remove_keeps_order<V>(entries: Seq<Entry<V>>, at: int)
    requires
        keys_ascending(entries),
        0 <= at < entries.len(),
    ensures
        keys_ascending(entries.remove(at)),
{
    let after = entries.remove(at);
    assert forall|i: int, j: int| 0 <= i < j < after.len() implies key_before(
        (#[trigger] after[i]).key@,
        (#[trigger] after[j]).key@,
    ) by {
        let a = if i < at {
            i
        } else {
            i + 1
        };
        let b = if j < at {
            j
        } else {
            j + 1
        };
        assert(after[i] == entries[a] && after[j] == entries[b]);
        assert(key_before(entries[a].key@, entries[b].key@));
    }
}

/// No identity occurs twice among `entries`.
pub open spec fn keys_distinct<V>(entries: Seq<Entry<V>>) -> bool {
    forall|i: int, j: int|
        0 <= i < j < entries.len() ==> (#[trigger] entries[i]).key@ != (#[trigger] entries[j]).key@
}

/// `entries` holds a value for `key`.
pub open spec fn holds_key<V>(entries: Seq<Entry<V>>, key: Seq<char>) -> bool {
    exists|i: int| 0 <= i < entries.len() && (#[trigger] entries[i]).key@ == key
}

/// A place in `entries` where `key` stands.
pub open spec fn slot_of<V>(entries: Seq<Entry<V>>, key: Seq<char>) -> int {
    choose|i: int| 0 <= i < entries.len() && (#[trigger] entries[i]).key@ == key
}

/// The map that `entries` stands for.
pub open spec fn as_map<V: View>(entries: Seq<Entry<V>>) -> Map<Seq<char>, V::V> {
    Map::new(
        |key: Seq<char>| holds_key(entries, key),
        |key: Seq<char>| entries[slot_of(entries, key)].value@,
    )
}

/// Where no identity occurs twice, the map holds at each entry's identity
/// that entry's value.
pub proof fn lemma_entry_in_map<V: View>(entries: Seq<Entry<V>>, at: int)
    requires
        keys_distinct(entries),
        0 <= at < entries.len(),
    ensures
        as_map(entries).contains_key(entries[at].key@),
        as_map(entries)[entries[at].key@] == entries[at].value@,
        slot_of(entries, entries[at].key@) == at,
{
    let key = entries[at].key@;
    assert(holds_key(entries, key));
    let found = slot_of(entries, key);
    assert(0 <= found < entries.len() && entries[found].key@ == key);
    if found < at {
        assert(entries[found].key@ != entries[at].key@);
    } else if at < found {
        assert(entries[at].key@ != entries[found].key@);
    }
}

/// A list that holds the same identities, place by place, as a list in
/// order is in order.
pub proof fn lemma_same_keys<V>(a: Seq<Entry<V>>, b: Seq<Entry<V>>)
    requires
        keys_ascending(a),
        a.len() == b.len(),
        forall|i: int| 0 <= i < a.len() ==> (#[trigger] a[i]).key@ == b[i].key@,
    ensures
        keys_ascending(b),
{
    assert forall|i: int, j: int| 0 <= i < j < b.len() implies key_before(
        (#[trigger] b[i]).key@,
        (#[trigger] b[j]).key@,
    ) by {
        assert(a[i].key@ == b[i].key@ && a[j].key@ == b[j].key@);
        assert(key_before(a[i].key@, a[j].key@));
    }
}

/// Replacing the value of one entry updates the map at that entry's
/// identity.
pub proof fn lemma_update_entry<V: View>(entries: Seq<Entry<V>>, at: int, entry: Entry<V>)
    requires
        keys_distinct(entries),
        0 <= at < entries.len(),
        entry.key@ == entries[at].key@,
    ensures
        keys_distinct(entries.update(at, entry)),
        as_map(entries.update(at, entry)) == as_map(entries).insert(entry.key@, entry.value@),
{
    let after = entries.update(at, entry);
    assert(keys_distinct(after)) by {
        assert forall|i: int, j: int| 0 <= i < j < after.len() implies (#[trigger] after[i]).key@
            != (#[trigger] after[j]).key@ by {
            assert(entries[i].key@ != entries[j].key@);
        }
    }
    let wanted = as_map(entries).insert(entry.key@, entry.value@);
    assert forall|key: Seq<char>| as_map(after).contains_key(key) <==> wanted.contains_key(
        key,
    ) by {
        if holds_key(after, key) {
            let i = slot_of(after, key);
            assert(entries[i].key@ == key);
        }
        if holds_key(entries, key) {
            let i = slot_of(entries, key);
            assert(after[i].key@ == key);
        }
        if key == entry.key@ {
            assert(after[at].key@ == key);
        }
    }
    assert forall|key: Seq<char>| as_map(after).contains_key(key) implies as_map(after)[key]
        == wanted[key] by {
        let i = slot_of(after, key);
        lemma_entry_in_map(after, i);
        if i != at {
            assert(entries[i].key@ == key);
            lemma_entry_in_map(entries, i);
        }
    }
    assert(as_map(after) =~= wanted);
}

/// Putting in an entry whose identity is new, at whatever place, adds it to
/// the map.
pub proof fn lemma_insert_entry<V: View>(entries: Seq<Entry<V>>, at: int, entry: Entry<V>)
    requires
        keys_distinct(entries),
        0 <= at <= entries.len(),
        !holds_key(entries, entry.key@),
    ensures
        keys_distinct(entries.insert(at, entry)),
        as_map(entries.insert(at, entry)) == as_map(entries).insert(entry.key@, entry.value@),
{
    let after = entries.insert(at, entry);
    assert forall|i: int| 0 <= i < after.len() && i != at implies #[trigger] after[i]
        == entries[if i < at {
        i
    } else {
        i - 1
    }] by {}
    assert(after[at] == entry);
    assert(keys_distinct(after)) by {
        assert forall|i: int, j: int| 0 <= i < j < after.len() implies (#[trigger] after[i]).key@
            != (#[trigger] after[j]).key@ by {
            let a = if i < at {
                i
            } else {
                i - 1
            };
            let b = if j < at {
                j
            } else {
                j - 1
            };
            if i == at {
                assert(entries[b].key@ != entry.key@);
            } else if j == at {
                assert(entries[a].key@ != entry.key@);
            } else {
                assert(entries[a].key@ != entries[b].key@);
            }
        }
    }
    let wanted = as_map(entries).insert(entry.key@, entry.value@);
    assert forall|key: Seq<char>| as_map(after).contains_key(key) <==> wanted.contains_key(
        key,
    ) by {
        if holds_key(after, key) {
            let i = slot_of(after, key);
            if i != at {
                let a = if i < at {
                    i
                } else {
                    i - 1
                };
                assert(entries[a].key@ == key);
            }
        }
        if holds_key(entries, key) {
            let i = slot_of(entries, key);
            let a = if i < at {
                i
            } else {
                i + 1
            };
            assert(after[a].key@ == key);
        }
        if key == entry.key@ {
            assert(after[at].key@ == key);
        }
    }
    assert forall|key: Seq<char>| as_map(after).contains_key(key) implies as_map(after)[key]
        == wanted[key] by {
        let i = slot_of(after, key);
        lemma_entry_in_map(after, i);
        if i != at {
            let a = if i < at {
                i
            } else {
                i - 1
            };
            assert(entries[a].key@ == key);
            lemma_entry_in_map(entries, a);
        }
    }
    assert(as_map(after) =~= wanted);
}

/// Two lists of entries that hold the same identities and the same values,
/// place by place, stand for the same map, and one is in order where the
/// other is.
pub proof fn lemma_same_entries<V: View>(a: Seq<Entry<V>>, b: Seq<Entry<V>>)
    requires
        keys_ascending(a),
        a.len() == b.len(),
        forall|i: int|
            0 <= i < a.len() ==> (#[trigger] a[i]).key@ == b[i].key@ && a[i].value@ == b[i].value@,
    ensures
        keys_ascending(b),
        as_map(a) == as_map(b),
{
    assert forall|i: int, j: int| 0 <= i < j < b.len() implies key_before(
        (#[trigger] b[i]).key@,
        (#[trigger] b[j]).key@,
    ) by {
        assert(a[i].key@ == b[i].key@ && a[j].key@ == b[j].key@);
        assert(key_before(a[i].key@, a[j].key@));
    }
    lemma_ascending_is_distinct(a);
    lemma_ascending_is_distinct(b);
    assert forall|key: Seq<char>| as_map(a).contains_key(key) <==> as_map(b).contains_key(key) by {
        if holds_key(a, key) {
            let i = slot_of(a, key);
            assert(a[i].key@ == b[i].key@);
            assert(b[i].key@ == key);
        }
        if holds_key(b, key) {
            let i = slot_of(b, key);
            assert(a[i].key@ == b[i].key@);
        }
    }
    assert forall|key: Seq<char>| as_map(a).contains_key(key) implies as_map(a)[key] == as_map(
        b,
    )[key] by {
        let i = slot_of(a, key);
        lemma_entry_in_map(a, i);
        assert(a[i].key@ == b[i].key@ && a[i].value@ == b[i].value@);
        lemma_entry_in_map(b, i);
    }
    assert(as_map(a) =~= as_map(b));
}

/// Taking an entry out takes its identity out of the map.
pub proof fn lemma_remove_entry<V: View>(entries: Seq<Entry<V>>, at: int)
    requires
        keys_distinct(entries),
        0 <= at < entries.len(),
    ensures
        keys_distinct(entries.remove(at)),
        as_map(entries.remove(at)) == as_map(entries).remove(entries[at].key@),
{
    let after = entries.remove(at);
    let gone = entries[at].key@;
    assert forall|i: int| 0 <= i < after.len() implies #[trigger] after[i] == entries[if i < at {
        i
    } else {
        i + 1
    }] by {}
    assert(keys_distinct(after)) by {
        assert forall|i: int, j: int| 0 <= i < j < after.len() implies (#[trigger] after[i]).key@
            != (#[trigger] after[j]).key@ by {
            let a = if i < at {
                i
            } else {
                i + 1
            };
            let b = if j < at {
                j
            } else {
                j + 1
            };
            assert(entries[a].key@ != entries[b].key@);
        }
    }
    let wanted = as_map(entries).remove(gone);
    assert forall|key: Seq<char>| as_map(after).contains_key(key) <==> wanted.contains_key(
        key,
    ) by {
        if holds_key(after, key) {
            let i = slot_of(after, key);
            let a = if i < at {
                i
            } else {
                i + 1
            };
            assert(entries[a].key@ == key);
            if a < at {
                assert(entries[a].key@ != entries[at].key@);
            } else {
                assert(entries[at].key@ != entries[a].key@);
            }
        }
        if holds_key(entries, key) && key != gone {
            let i = slot_of(entries, key);
            let a = if i < at {
                i
            } else {
                i - 1
            };
            assert(after[a].key@ == key);
        }
    }
    assert forall|key: Seq<char>| as_map(after).contains_key(key) implies as_map(after)[key]
        == wanted[key] by {
        let i = slot_of(after, key);
        lemma_entry_in_map(after, i);
        let a = if i < at {
            i
        } else {
            i + 1
        };
        assert(entries[a].key@ == key);
        lemma_entry_in_map(entries, a);
    }
    assert(as_map(after) =~= wanted);
}

/// The order fixes the list: two lists in order that hold the same
/// identities hold them at the same places. So two ledgers that stand for
/// the same map walk their entries in the same order.
pub proof fn law_order_is_fixed<V>(a: Seq<Entry<V>>, b: Seq<Entry<V>>)
    requires
        keys_ascending(a),
        keys_ascending(b),
        forall|key: Seq<char>| holds_key(a, key) <==> holds_key(b, key),
    ensures
        a.len() == b.len(),
        forall|i: int| 0 <= i < a.len() ==> (#[trigger] a[i]).key@ == b[i].key@,
    decreases a.len(),
{
    if a.len() == 0 {
        if b.len() > 0 {
            assert(holds_key(b, b[0].key@));
            assert(holds_key(a, b[0].key@));
        }
    } else {
        let last_a = a.last().key@;
        assert(holds_key(a, last_a));
        assert(holds_key(b, last_a));
        let in_b = slot_of(b, last_a);
        let last_b = b.last().key@;
        assert(holds_key(b, last_b));
        assert(holds_key(a, last_b));
        let in_a = slot_of(a, last_b);
        if in_b < b.len() - 1 {
            assert(key_before(b[in_b].key@, b[b.len() - 1].key@));
            if in_a < a.len() - 1 {
                assert(key_before(a[in_a].key@, a[a.len() - 1].key@));
                lemma_before_transitive(
                    encode_utf8(last_a),
                    encode_utf8(last_b),
                    encode_utf8(last_a),
                );
                lemma_before_irreflexive(last_a, last_a);
            }
        }
        assert(last_a == last_b);
        let rest_a = a.drop_last();
        let rest_b = b.drop_last();
        assert forall|key: Seq<char>| holds_key(rest_a, key) <==> holds_key(rest_b, key) by {
            if holds_key(rest_a, key) {
                let i = slot_of(rest_a, key);
                assert(a[i].key@ == key);
                assert(key_before(a[i].key@, a[a.len() - 1].key@));
                lemma_before_irreflexive(key, last_a);
                assert(holds_key(a, key));
                let j = slot_of(b, key);
                assert(rest_b[j].key@ == key);
            }
            if holds_key(rest_b, key) {
                let i = slot_of(rest_b, key);
                assert(b[i].key@ == key);
                assert(key_before(b[i].key@, b[b.len() - 1].key@));
                lemma_before_irreflexive(key, last_b);
                assert(holds_key(b, key));
                let j = slot_of(a, key);
                assert(rest_a[j].key@ == key);
            }
        }
        assert(keys_ascending(rest_a)) by {
            assert forall|i: int, j: int| 0 <= i < j < rest_a.len() implies key_before(
                (#[trigger] rest_a[i]).key@,
                (#[trigger] rest_a[j]).key@,
            ) by {
                assert(key_before(a[i].key@, a[j].key@));
            }
        }
        assert(keys_ascending(rest_b)) by {
            assert forall|i: int, j: int| 0 <= i < j < rest_b.len() implies key_before(
                (#[trigger] rest_b[i]).key@,
                (#[trigger] rest_b[j]).key@,
            ) by {
                assert(key_before(b[i].key@, b[j].key@));
            }
        }
        law_order_is_fixed(rest_a, rest_b);
        assert forall|i: int| 0 <= i < a.len() implies (#[trigger] a[i]).key@ == b[i].key@ by {
            if i < a.len() - 1 {
                assert(rest_a[i].key@ == rest_b[i].key@);
            }
        }
    }
}

impl<V: View> View for Ledger<V> {
    type V = Map<Seq<char>, V::V>;

    closed spec fn view(&self) -> Map<Seq<char>, V::V> {
        as_map(self.entries@)
    }
}

impl<V> Ledger<V> {
    #[verifier::type_invariant]
    spec fn well_formed(self) -> bool {
        keys_ascending(self.entries@)
    }
}

/// Where one string stands with respect to another.
pub enum Place {
    Before,
    Same,
    After,
}

/// Where `a` stands with respect to `b` in the order of strings.
pub fn place_of(a: &String, b: &String) -> (place: Place)
    ensures
        match place {
            Place::Before => key_before(a@, b@),
            Place::Same => a@ == b@,
            Place::After => key_before(b@, a@),
        },
{
    let x = a.as_str().as_bytes();
    let y = b.as_str().as_bytes();
    let mut at: usize = 0;
    while at < x.len() && at < y.len()
        invariant
            at <= x@.len(),
            at <= y@.len(),
            x@ == encode_utf8(a@),
            y@ == encode_utf8(b@),
            forall|i: int| 0 <= i < at ==> x@[i] == y@[i],
        decreases x@.len() - at,
    {
        if x[at] < y[at] {
            assert(differ_at(x@, y@, at as int));
            return Place::Before;
        }
        if y[at] < x[at] {
            assert(differ_at(y@, x@, at as int));
            return Place::After;
        }
        at += 1;
    }
    if x.len() < y.len() {
        assert(differ_at(x@, y@, at as int));
        Place::Before
    } else if y.len() < x.len() {
        assert(differ_at(y@, x@, at as int));
        Place::After
    } else {
        proof {
            assert(x@ =~= y@);
            encode_utf8_decode_utf8(a@);
            encode_utf8_decode_utf8(b@);
        }
        Place::Same
    }
}

impl<V: View> Ledger<V> {
    /// The entries, in the order of their identities.
    pub closed spec fn entries(&self) -> Seq<Entry<V>> {
        self.entries@
    }

    /// A ledger without entries.
    pub fn new() -> (ledger: Self)
        ensures
            ledger@ == Map::<Seq<char>, V::V>::empty(),
            ledger.entries().len() == 0,
    {
        let ledger = Ledger { entries: Vec::new() };
        assert(ledger@ =~= Map::<Seq<char>, V::V>::empty());
        ledger
    }

    /// The number of identities that the ledger holds. The entries stand in
    /// the order of their identities, so no identity occurs twice among
    /// them, and the view is the map they stand for.
    pub fn len(&self) -> (n: usize)
        ensures
            n == self.entries().len(),
            keys_ascending(self.entries()),
            keys_distinct(self.entries()),
            self@ == as_map(self.entries()),
    {
        proof {
            use_type_invariant(self);
            lemma_ascending_is_distinct(self.entries@);
        }
        self.entries.len()
    }

    /// The entry at place `at`.
    pub fn entry(&self, at: usize) -> (entry: &Entry<V>)
        requires
            at < self.entries().len(),
        ensures
            *entry == self.entries()[at as int],
    {
        &self.entries[at]
    }

    /// The place at which `key` stands, or else the place at which it would
    /// stand: that of the first identity that comes after it.
    fn find(&self, key: &String) -> (found: Result<usize, usize>)
        ensures
            match found {
                Ok(at) => at < self.entries@.len() && self.entries@[at as int].key@ == key@,
                Err(at) => {
                    &&& at <= self.entries@.len()
                    &&& forall|i: int|
                        0 <= i < at ==> key_before((#[trigger] self.entries@[i]).key@, key@)
                    &&& at < self.entries@.len() ==> key_before(key@, self.entries@[at as int].key@)
                },
            },
    {
        let mut at: usize = 0;
        while at < self.entries.len()
            invariant
                at <= self.entries@.len(),
                forall|i: int| 0 <= i < at ==> key_before((#[trigger] self.entries@[i]).key@, key@),
            decreases self.entries@.len() - at,
        {
            match place_of(&self.entries[at].key, key) {
                Place::Before => {},
                Place::Same => {
                    return Ok(at);
                },
                Place::After => {
                    return Err(at);
                },
            }
            at += 1;
        }
        Err(at)
    }

    /// The value that the ledger holds for `key`.
    pub fn get(&self, key: &String) -> (value: Option<&V>)
        ensures
            match value {
                Some(v) => self@.contains_key(key@) && self@[key@] == v@,
                None => !self@.contains_key(key@),
            },
    {
        proof {
            use_type_invariant(self);
            lemma_ascending_is_distinct(self.entries@);
        }
        match self.find(key) {
            Ok(at) => {
                proof {
                    lemma_entry_in_map(self.entries@, at as int);
                }
                Some(&self.entries[at].value)
            },
            Err(at) => {
                proof {
                    lemma_not_held(self.entries@, at as int, key@);
                }
                None
            },
        }
    }

    /// Whether the ledger holds a value for `key`.
    pub fn contains_key(&self, key: &String) -> (held: bool)
        ensures
            held == self@.contains_key(key@),
    {
        self.get(key).is_some()
    }

    /// Sets the value of `key` to `value`, whether or not it had one. A new
    /// identity takes its place in the order.
    pub fn insert(&mut self, key: &String, value: V)
        ensures
            final(self)@ == old(self)@.insert(key@, value@),
    {
        proof {
            use_type_invariant(&*self);
            lemma_ascending_is_distinct(self.entries@);
        }
        let found = self.find(key);
        let mut entries: Vec<Entry<V>> = Vec::new();
        core::mem::swap(&mut entries, &mut self.entries);
        let entry = Entry { key: key.clone(), value };
        match found {
            Ok(at) => {
                proof {
                    lemma_update_entry(entries@, at as int, entry);
                    lemma_same_keys(entries@, entries@.update(at as int, entry));
                }
                entries[at] = entry;
            },
            Err(at) => {
                proof {
                    lemma_not_held(entries@, at as int, entry.key@);
                    lemma_insert_keeps_order(entries@, at as int, entry);
                    lemma_insert_entry(entries@, at as int, entry);
                }
                entries.insert(at, entry);
            },
        }
        self.entries = entries;
    }

    /// Takes the entry at place `at` out of the ledger.
    pub fn remove_at(&mut self, at: usize)
        requires
            at < old(self).entries().len(),
        ensures
            final(self).entries() == old(self).entries().remove(at as int),
            final(self)@ == old(self)@.remove(old(self).entries()[at as int].key@),
    {
        proof {
            use_type_invariant(&*self);
            lemma_ascending_is_distinct(self.entries@);
        }
        let mut entries: Vec<Entry<V>> = Vec::new();
        core::mem::swap(&mut entries, &mut self.entries);
        proof {
            lemma_remove_entry(entries@, at as int);
            lemma_remove_keeps_order(entries@, at as int);
        }
        entries.remove(at);
        self.entries = entries;
    }
}

impl<V: Replicate> Ledger<V> {
    /// A copy of the ledger.
    pub fn replicate(&self) -> (copy: Self)
        ensures
            copy@ == self@,
    {
        proof {
            use_type_invariant(self);
        }
        let mut entries: Vec<Entry<V>> = Vec::new();
        let mut at: usize = 0;
        while at < self.entries.len()
            invariant
                at <= self.entries@.len(),
                entries@.len() == at,
                forall|i: int|
                    0 <= i < at ==> (#[trigger] self.entries@[i]).key@ == entries@[i].key@
                        && self.entries@[i].value@ == entries@[i].value@,
            decreases self.entries@.len() - at,
        {
            let entry = &self.entries[at];
            entries.push(Entry { key: entry.key.clone(), value: entry.value.replicate() });
            at += 1;
        }
        proof {
            lemma_same_entries(self.entries@, entries@);
        }
        Ledger { entries }
    }
}

} // verus!
