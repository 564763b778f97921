//! The order in which the entries of a raw configuration are written into a
//! fingerprint: ascending by key, whatever order they were set in.

use crate::config::{keys_distinct, lemma_entries_view, ConfigEntries, ConfigKeyMap, ConfigValueView};
use crate::text::{lemma_lex_total, lemma_lex_transitive, lemma_utf8_injective, lex_before, str_before};
use vstd::prelude::*;
use vstd::utf8::encode_utf8;

verus! {

/// The key `a` stands before the key `b`: by their bytes, as in a dictionary.
pub open spec fn key_before(a: Seq<char>, b: Seq<char>) -> bool {
    lex_before(encode_utf8(a), encode_utf8(b))
}

/// `sorted` with `entry` put behind the last entry whose key does not stand
/// after its own.
pub open spec fn insert_sorted(sorted: ConfigEntries, entry: (Seq<char>, ConfigValueView)) -> ConfigEntries
    decreases sorted.len(),
{
    if sorted.len() == 0 {
        seq![entry]
    } else if key_before(entry.0, sorted.last().0) {
        insert_sorted(sorted.drop_last(), entry).push(sorted.last())
    } else {
        sorted.push(entry)
    }
}

/// The entries in ascending order of their keys.
pub open spec fn sort_entries(entries: ConfigEntries) -> ConfigEntries
    decreases entries.len(),
{
    if entries.len() == 0 {
        Seq::empty()
    } else {
        insert_sorted(sort_entries(entries.drop_last()), entries.last())
    }
}

/// Every entry's key stands before the keys of the entries behind it.
pub open spec fn ascending(entries: ConfigEntries) -> bool {
    forall|i: int, j: int|
        0 <= i < j < entries.len() ==> key_before((#[trigger] entries[i]).0, (#[trigger] entries[j]).0)
}

/// `a` and `b` hold the same entries, in whatever order.
pub open spec fn same_entries(a: ConfigEntries, b: ConfigEntries) -> bool {
    forall|entry: (Seq<char>, ConfigValueView)|
        #![trigger a.contains(entry)]
        #![trigger b.contains(entry)]
        a.contains(entry) <==> b.contains(entry)
}

/// The entries that `order` picks out of `entries`, one for each of its places.
pub open spec fn picked(entries: ConfigEntries, order: Seq<usize>) -> ConfigEntries {
    Seq::new(order.len(), |i: int| entries[order[i] as int])
}

/// Of two different keys exactly one stands before the other.
pub proof fn lemma_key_order_total(a: Seq<char>, b: Seq<char>)
    ensures
        a != b ==> (key_before(a, b) <==> !key_before(b, a)),
        a == b ==> !key_before(a, b),
{
    lemma_lex_total(encode_utf8(a), encode_utf8(b));
    if a != b && encode_utf8(a) == encode_utf8(b) {
        lemma_utf8_injective(a, b);
    }
}

/// Where `insert_sorted` puts an entry: at `place`, if the entry stands before
/// all from there on and not before the one in front.
pub proof fn lemma_insert_at(sorted: ConfigEntries, entry: (Seq<char>, ConfigValueView), place: int)
    requires
        0 <= place <= sorted.len(),
        forall|j: int| place <= j < sorted.len() ==> key_before(entry.0, (#[trigger] sorted[j]).0),
        place == 0 || !key_before(entry.0, sorted[place - 1].0),
    ensures
        insert_sorted(sorted, entry) == sorted.insert(place, entry),
    decreases sorted.len(),
{
    if sorted.len() == 0 {
        assert(seq![entry] =~= sorted.insert(place, entry));
    } else if place == sorted.len() {
        assert(sorted.push(entry) =~= sorted.insert(place, entry));
    } else {
        let front = sorted.drop_last();
        assert(key_before(entry.0, sorted[sorted.len() - 1].0));
        assert forall|j: int| place <= j < front.len() implies key_before(
            entry.0,
            (#[trigger] front[j]).0,
        ) by {
            assert(front[j] == sorted[j]);
        }
        lemma_insert_at(front, entry, place);
        assert(front.insert(place, entry).push(sorted.last()) =~= sorted.insert(place, entry));
    }
}

/// Putting an entry with a new key into ascending entries keeps them
/// ascending, and adds that entry and no other.
pub proof fn lemma_insert_sorted(sorted: ConfigEntries, entry: (Seq<char>, ConfigValueView))
    requires
        ascending(sorted),
        forall|i: int| 0 <= i < sorted.len() ==> (#[trigger] sorted[i]).0 != entry.0,
    ensures
        insert_sorted(sorted, entry).len() == sorted.len() + 1,
        ascending(insert_sorted(sorted, entry)),
        forall|other: (Seq<char>, ConfigValueView)|
            #![trigger insert_sorted(sorted, entry).contains(other)]
            #![trigger sorted.contains(other)]
            insert_sorted(sorted, entry).contains(other) <==> (sorted.contains(other) || other
                == entry),
    decreases sorted.len(),
{
    let result = insert_sorted(sorted, entry);
    if sorted.len() == 0 {
        assert(result[0] == entry);
        assert forall|other: (Seq<char>, ConfigValueView)| result.contains(other) <==> (
        sorted.contains(other) || other == entry) by {
            if other == entry {
                assert(result[0] == other);
            }
        }
    } else if key_before(entry.0, sorted.last().0) {
        let front = sorted.drop_last();
        let last = sorted.last();
        assert forall|i: int, j: int| 0 <= i < j < front.len() implies key_before(
            (#[trigger] front[i]).0,
            (#[trigger] front[j]).0,
        ) by {
            assert(front[i] == sorted[i]);
            assert(front[j] == sorted[j]);
        }
        assert forall|i: int| 0 <= i < front.len() implies (#[trigger] front[i]).0 != entry.0 by {
            assert(front[i] == sorted[i]);
        }
        lemma_insert_sorted(front, entry);
        let inner = insert_sorted(front, entry);
        assert(result == inner.push(last));
        assert forall|i: int, j: int| 0 <= i < j < result.len() implies key_before(
            (#[trigger] result[i]).0,
            (#[trigger] result[j]).0,
        ) by {
            if j < inner.len() {
                assert(result[i] == inner[i]);
                assert(result[j] == inner[j]);
            } else {
                assert(result[i] == inner[i]);
                assert(inner.contains(inner[i]));
                if inner[i] == entry {
                } else {
                    assert(front.contains(inner[i]));
                    let k = choose|k: int| 0 <= k < front.len() && front[k] == inner[i];
                    assert(sorted[k] == inner[i]);
                    assert(key_before(sorted[k].0, sorted[sorted.len() - 1].0));
                }
            }
        }
        assert forall|other: (Seq<char>, ConfigValueView)| result.contains(other) <==> (
        sorted.contains(other) || other == entry) by {
            if result.contains(other) {
                let k = choose|k: int| 0 <= k < result.len() && result[k] == other;
                if k < inner.len() {
                    assert(inner[k] == other);
                    assert(inner.contains(other));
                    if other != entry {
                        assert(front.contains(other));
                        let m = choose|m: int| 0 <= m < front.len() && front[m] == other;
                        assert(sorted[m] == other);
                    }
                } else {
                    assert(sorted[sorted.len() - 1] == other);
                }
            }
            if sorted.contains(other) {
                let k = choose|k: int| 0 <= k < sorted.len() && sorted[k] == other;
                if k < front.len() {
                    assert(front[k] == other);
                    assert(front.contains(other));
                    assert(inner.contains(other));
                    let m = choose|m: int| 0 <= m < inner.len() && inner[m] == other;
                    assert(result[m] == other);
                } else {
                    assert(result[result.len() - 1] == other);
                }
            }
            if other == entry {
                assert(inner.contains(entry));
                let m = choose|m: int| 0 <= m < inner.len() && inner[m] == entry;
                assert(result[m] == other);
            }
        }
    } else {
        let last = sorted.last();
        assert(sorted[sorted.len() - 1].0 != entry.0);
        lemma_key_order_total(entry.0, last.0);
        assert(key_before(last.0, entry.0));
        assert forall|i: int, j: int| 0 <= i < j < result.len() implies key_before(
            (#[trigger] result[i]).0,
            (#[trigger] result[j]).0,
        ) by {
            if j < sorted.len() {
                assert(result[i] == sorted[i]);
                assert(result[j] == sorted[j]);
            } else if i == sorted.len() - 1 {
            } else {
                assert(result[i] == sorted[i]);
                assert(key_before(sorted[i].0, sorted[sorted.len() - 1].0));
                lemma_lex_transitive(
                    encode_utf8(sorted[i].0),
                    encode_utf8(last.0),
                    encode_utf8(entry.0),
                );
            }
        }
        assert forall|other: (Seq<char>, ConfigValueView)| result.contains(other) <==> (
        sorted.contains(other) || other == entry) by {
            if result.contains(other) {
                let k = choose|k: int| 0 <= k < result.len() && result[k] == other;
                if k < sorted.len() {
                    assert(sorted[k] == other);
                }
            }
            if sorted.contains(other) {
                let k = choose|k: int| 0 <= k < sorted.len() && sorted[k] == other;
                assert(result[k] == other);
            }
            if other == entry {
                assert(result[result.len() - 1] == other);
            }
        }
    }
}

/// Sorting entries with distinct keys gives the same entries, ascending.
pub proof fn lemma_sort_entries(entries: ConfigEntries)
    requires
        keys_distinct(entries),
    ensures
        sort_entries(entries).len() == entries.len(),
        ascending(sort_entries(entries)),
        same_entries(sort_entries(entries), entries),
    decreases entries.len(),
{
    if entries.len() > 0 {
        let front = entries.drop_last();
        let last = entries.last();
        assert forall|i: int, j: int| 0 <= i < j < front.len() implies (#[trigger] front[i]).0 != (
        #[trigger] front[j]).0 by {
            assert(front[i] == entries[i]);
            assert(front[j] == entries[j]);
        }
        lemma_sort_entries(front);
        let sorted = sort_entries(front);
        assert forall|i: int| 0 <= i < sorted.len() implies (#[trigger] sorted[i]).0 != last.0 by {
            assert(sorted.contains(sorted[i]));
            assert(front.contains(sorted[i]));
            let k = choose|k: int| 0 <= k < front.len() && front[k] == sorted[i];
            assert(entries[k] == sorted[i]);
            assert(entries[k].0 != entries[entries.len() - 1].0);
        }
        lemma_insert_sorted(sorted, last);
        let result = sort_entries(entries);
        assert forall|other: (Seq<char>, ConfigValueView)| result.contains(other)
            <==> entries.contains(other) by {
            if entries.contains(other) {
                let k = choose|k: int| 0 <= k < entries.len() && entries[k] == other;
                if k < front.len() {
                    assert(front[k] == other);
                    assert(front.contains(other));
                }
            }
            if front.contains(other) {
                let k = choose|k: int| 0 <= k < front.len() && front[k] == other;
                assert(entries[k] == other);
            }
            if other == last {
                assert(entries[entries.len() - 1] == other);
            }
        }
    }
}

/// Ascending entries are fixed by what they hold: two ascending lists of the
/// same entries are the same list.
pub proof fn lemma_ascending_unique(a: ConfigEntries, b: ConfigEntries)
    requires
        ascending(a),
        ascending(b),
        same_entries(a, b),
    ensures
        a == b,
    decreases a.len(),
{
    if a.len() == 0 {
        if b.len() > 0 {
            assert(b.contains(b[0]));
            assert(a.contains(b[0]));
        }
        assert(a =~= b);
    } else {
        assert(a.contains(a[0]));
        assert(b.contains(a[0]));
        let j = choose|j: int| 0 <= j < b.len() && b[j] == a[0];
        assert(b.contains(b[0]));
        assert(a.contains(b[0]));
        let i = choose|i: int| 0 <= i < a.len() && a[i] == b[0];
        lemma_key_order_total(a[0].0, b[0].0);
        if j > 0 {
            assert(key_before(b[0].0, b[j].0));
            if i > 0 {
                assert(key_before(a[0].0, a[i].0));
            }
        }
        assert(a[0] == b[0]);
        let a_rest = a.drop_first();
        let b_rest = b.drop_first();
        assert forall|i: int, j: int| 0 <= i < j < a_rest.len() implies key_before(
            (#[trigger] a_rest[i]).0,
            (#[trigger] a_rest[j]).0,
        ) by {
            assert(a_rest[i] == a[i + 1]);
            assert(a_rest[j] == a[j + 1]);
        }
        assert forall|i: int, j: int| 0 <= i < j < b_rest.len() implies key_before(
            (#[trigger] b_rest[i]).0,
            (#[trigger] b_rest[j]).0,
        ) by {
            assert(b_rest[i] == b[i + 1]);
            assert(b_rest[j] == b[j + 1]);
        }
        assert forall|entry: (Seq<char>, ConfigValueView)| a_rest.contains(entry)
            <==> b_rest.contains(entry) by {
            lemma_key_order_total(entry.0, a[0].0);
            if a_rest.contains(entry) {
                let k = choose|k: int| 0 <= k < a_rest.len() && a_rest[k] == entry;
                assert(a[k + 1] == entry);
                assert(key_before(a[0].0, a[k + 1].0));
                assert(a.contains(entry));
                assert(b.contains(entry));
                let m = choose|m: int| 0 <= m < b.len() && b[m] == entry;
                assert(m > 0);
                assert(b_rest[m - 1] == entry);
            }
            if b_rest.contains(entry) {
                let k = choose|k: int| 0 <= k < b_rest.len() && b_rest[k] == entry;
                assert(b[k + 1] == entry);
                assert(key_before(b[0].0, b[k + 1].0));
                assert(b.contains(entry));
                assert(a.contains(entry));
                let m = choose|m: int| 0 <= m < a.len() && a[m] == entry;
                assert(m > 0);
                assert(a_rest[m - 1] == entry);
            }
        }
        lemma_ascending_unique(a_rest, b_rest);
        assert(a =~= seq![a[0]] + a_rest);
        assert(b =~= seq![b[0]] + b_rest);
    }
}

/// The order in which a map's keys were set does not show in its sorted
/// entries: two maps that hold the same entries sort to the same list.
pub proof fn lemma_sort_ignores_order(a: ConfigEntries, b: ConfigEntries)
    requires
        keys_distinct(a),
        keys_distinct(b),
        same_entries(a, b),
    ensures
        sort_entries(a) == sort_entries(b),
{
    lemma_sort_entries(a);
    lemma_sort_entries(b);
    lemma_ascending_unique(sort_entries(a), sort_entries(b));
}

/// The places of a map's entries in ascending order of their keys.
pub fn sorted_order(map: &ConfigKeyMap) -> (order: Vec<usize>)
    ensures
        order@.len() == map@.len(),
        forall|i: int| 0 <= i < order@.len() ==> (#[trigger] order@[i]) < map@.len(),
        picked(map@, order@) == sort_entries(map@),
{
    proof {
        lemma_entries_view(map.entries@);
    }
    let mut order: Vec<usize> = Vec::new();
    let mut next: usize = 0;
    proof {
        assert(picked(map@, order@) =~= sort_entries(map@.take(0)));
    }
    while next < map.entries.len()
        invariant
            next <= map.entries.len(),
            map@.len() == map.entries.len(),
            forall|j: int|
                0 <= j < map.entries.len() ==> (#[trigger] map@[j]) == (
                    map.entries[j].0@,
                    map.entries[j].1@,
                ),
            order@.len() == next,
            forall|i: int| 0 <= i < order@.len() ==> (#[trigger] order@[i]) < next,
            picked(map@, order@) == sort_entries(map@.take(next as int)),
        decreases map.entries.len() - next,
    {
        let ghost sorted = picked(map@, order@);
        let ghost entry = map@[next as int];
        let mut place: usize = order.len();
        while place > 0 && str_before(
            map.entries[next].0.as_str(),
            map.entries[order[place - 1]].0.as_str(),
        )
            invariant
                place <= order@.len(),
                next < map.entries.len(),
                map@.len() == map.entries.len(),
                forall|j: int|
                    0 <= j < map.entries.len() ==> (#[trigger] map@[j]) == (
                        map.entries[j].0@,
                        map.entries[j].1@,
                    ),
                forall|i: int| 0 <= i < order@.len() ==> (#[trigger] order@[i]) < next,
                sorted == picked(map@, order@),
                entry == map@[next as int],
                forall|j: int| place <= j < sorted.len() ==> key_before(entry.0, (#[trigger] sorted[j]).0),
            decreases place,
        {
            proof {
                assert(sorted[place - 1] == map@[order@[place - 1] as int]);
            }
            place -= 1;
        }
        proof {
            if place > 0 {
                assert(sorted[place - 1] == map@[order@[place - 1] as int]);
            }
            lemma_insert_at(sorted, entry, place as int);
            let taken = map@.take(next + 1);
            assert(taken.drop_last() =~= map@.take(next as int));
            assert(taken.last() == entry);
        }
        order.insert(place, next);
        proof {
            assert(picked(map@, order@) =~= sorted.insert(place as int, entry));
        }
        next += 1;
    }
    proof {
        assert(map@.take(next as int) =~= map@);
    }
    order
}

} // verus!
