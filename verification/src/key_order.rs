//! The entries of a map in the order of their keys.

use vstd::prelude::*;

use crate::keyed_map::{distinct_keys, lemma_map_of_has, lemma_map_of_key, map_of};
use crate::paths::{char_less, comes_before, lemma_orders_sequences, orders, text_before};
use crate::text::same;

verus! {

/// Whether a text comes before another, going by the first character in which they differ.
pub open spec fn text_less() -> spec_fn(Seq<char>, Seq<char>) -> bool {
    |a: Seq<char>, b: Seq<char>| comes_before(a, b, char_less())
}

/// Whether entries have a key.
pub open spec fn has_key<V>(entries: Seq<(Seq<char>, V)>, key: Seq<char>) -> bool {
    exists|i: int| 0 <= i < entries.len() && (#[trigger] entries[i]).0 == key
}

/// Whether entries are those of a map, in the order of their keys.
pub open spec fn is_listing<V>(entries: Seq<(Seq<char>, V)>, map: Map<Seq<char>, V>) -> bool {
    &&& forall|i: int, j: int|
        0 <= i < j < entries.len() ==> text_less()(
            (#[trigger] entries[i]).0,
            (#[trigger] entries[j]).0,
        )
    &&& forall|i: int|
        0 <= i < entries.len() ==> map.contains_pair(
            (#[trigger] entries[i]).0,
            entries[i].1,
        )
    &&& forall|key: Seq<char>| #[trigger] map.contains_key(key) ==> has_key(entries, key)
}

/// The entries of a map in the order of their keys.
pub open spec fn listing<V>(map: Map<Seq<char>, V>) -> Seq<(Seq<char>, V)> {
    choose|entries: Seq<(Seq<char>, V)>| is_listing(entries, map)
}

proof fn lemma_texts_are_ordered()
    ensures
        orders(text_less()),
{
    assert(orders(char_less()));
    lemma_orders_sequences(char_less());
}

proof fn lemma_same_listing<V>(
    one: Seq<(Seq<char>, V)>,
    two: Seq<(Seq<char>, V)>,
    map: Map<Seq<char>, V>,
)
    requires
        is_listing(one, map),
        is_listing(two, map),
    ensures
        one == two,
    decreases one.len(),
{
    lemma_texts_are_ordered();
    let less = text_less();
    if one.len() == 0 {
        if two.len() > 0 {
            assert(map.contains_key(two[0].0));
            assert(has_key(one, two[0].0));
        }
        assert(one =~= two);
    } else {
        let first = one[0].0;
        assert(map.contains_key(first));
        assert(has_key(two, first));
        let j = choose|j: int| 0 <= j < two.len() && (#[trigger] two[j]).0 == first;
        let other = two[0].0;
        assert(map.contains_key(other));
        assert(has_key(one, other));
        let i = choose|i: int| 0 <= i < one.len() && (#[trigger] one[i]).0 == other;
        assert(first == other) by {
            if j > 0 && i > 0 {
                assert(less(two[0].0, two[j].0));
                assert(less(one[0].0, one[i].0));
            }
        }
        let rest = map.remove(first);
        lemma_listing_rest(one, map);
        lemma_listing_rest(two, map);
        lemma_same_listing(one.skip(1), two.skip(1), rest);
        assert(one[0] == two[0]);
        assert(one =~= seq![one[0]] + one.skip(1));
        assert(two =~= seq![two[0]] + two.skip(1));
    }
}

proof fn lemma_listing_rest<V>(entries: Seq<(Seq<char>, V)>, map: Map<Seq<char>, V>)
    requires
        is_listing(entries, map),
        entries.len() > 0,
    ensures
        is_listing(entries.skip(1), map.remove(entries[0].0)),
{
    lemma_texts_are_ordered();
    let less = text_less();
    let rest = entries.skip(1);
    let left = map.remove(entries[0].0);
    assert forall|i: int, j: int| 0 <= i < j < rest.len() implies less(
        (#[trigger] rest[i]).0,
        (#[trigger] rest[j]).0,
    ) by {
        assert(rest[i] == entries[i + 1] && rest[j] == entries[j + 1]);
    }
    assert forall|i: int| 0 <= i < rest.len() implies left.contains_pair(
        (#[trigger] rest[i]).0,
        rest[i].1,
    ) by {
        assert(rest[i] == entries[i + 1]);
        assert(less(entries[0].0, entries[i + 1].0));
    }
    assert forall|key: Seq<char>| #[trigger] left.contains_key(key) implies has_key(rest, key) by {
        assert(map.contains_key(key));
        assert(has_key(entries, key));
        let i = choose|i: int| 0 <= i < entries.len() && (#[trigger] entries[i]).0 == key;
        assert(rest[i - 1] == entries[i]);
    }
}

/// Entries in the order of their keys are the listing of the map that they stand for.
pub proof fn lemma_listing<V>(entries: Seq<(Seq<char>, V)>, map: Map<Seq<char>, V>)
    requires
        is_listing(entries, map),
    ensures
        listing(map) == entries,
        map_of(entries) == map,
{
    lemma_same_listing(listing(map), entries, map);
    lemma_texts_are_ordered();
    let less = text_less();
    assert(distinct_keys(entries)) by {
        assert forall|i: int, j: int| 0 <= i < j < entries.len() implies (#[trigger] entries[i]).0
            != (#[trigger] entries[j]).0 by {
            assert(less(entries[i].0, entries[j].0));
        }
    }
    assert forall|key: Seq<char>| #[trigger]
        map_of(entries).dom().contains(key) == map.dom().contains(key) && (map.dom().contains(key)
        ==> map_of(entries)[key] == map[key]) by {
        assert(map.dom().contains(key) == map.contains_key(key));
        assert(map_of(entries).dom().contains(key) == map_of(entries).contains_key(key));
        if map.contains_key(key) {
            assert(has_key(entries, key));
            let i = choose|i: int| 0 <= i < entries.len() && (#[trigger] entries[i]).0 == key;
            lemma_map_of_has(entries, i);
        }
        if map_of(entries).contains_key(key) {
            let i = lemma_map_of_key(entries, key);
            assert(map.contains_pair(entries[i].0, entries[i].1));
        }
    }
    assert(map_of(entries) =~= map);
}

proof fn lemma_listing_insert<V>(
    entries: Seq<(Seq<char>, V)>,
    map: Map<Seq<char>, V>,
    at: int,
    key: Seq<char>,
    value: V,
)
    requires
        is_listing(entries, map),
        0 <= at <= entries.len(),
        forall|k: int| 0 <= k < at ==> text_less()((#[trigger] entries[k]).0, key),
        forall|k: int| at <= k < entries.len() ==> text_less()(key, (#[trigger] entries[k]).0),
    ensures
        is_listing(entries.insert(at, (key, value)), map.insert(key, value)),
{
    lemma_texts_are_ordered();
    let less = text_less();
    let more = entries.insert(at, (key, value));
    let grown = map.insert(key, value);
    assert forall|i: int, j: int| 0 <= i < j < more.len() implies less(
        (#[trigger] more[i]).0,
        (#[trigger] more[j]).0,
    ) by {
        if i < at {
            assert(more[i] == entries[i]);
        } else if i > at {
            assert(more[i] == entries[i - 1]);
        }
        if j < at {
            assert(more[j] == entries[j]);
        } else if j > at {
            assert(more[j] == entries[j - 1]);
        }
    }
    assert forall|i: int| 0 <= i < more.len() implies grown.contains_pair(
        (#[trigger] more[i]).0,
        more[i].1,
    ) by {
        if i < at {
            assert(more[i] == entries[i]);
            assert(less(entries[i].0, key));
        } else if i > at {
            assert(more[i] == entries[i - 1]);
            assert(less(key, entries[i - 1].0));
        }
    }
    assert forall|other: Seq<char>| #[trigger] grown.contains_key(other) implies has_key(
        more,
        other,
    ) by {
        if other == key {
            assert(more[at].0 == key);
        } else {
            assert(map.contains_key(other));
            assert(has_key(entries, other));
            let i = choose|i: int| 0 <= i < entries.len() && (#[trigger] entries[i]).0 == other;
            if i < at {
                assert(more[i] == entries[i]);
            } else {
                assert(more[i + 1] == entries[i]);
            }
        }
    }
}

proof fn lemma_listing_update<V>(
    entries: Seq<(Seq<char>, V)>,
    map: Map<Seq<char>, V>,
    at: int,
    value: V,
)
    requires
        is_listing(entries, map),
        0 <= at < entries.len(),
    ensures
        is_listing(
            entries.update(at, (entries[at].0, value)),
            map.insert(entries[at].0, value),
        ),
{
    lemma_texts_are_ordered();
    let less = text_less();
    let key = entries[at].0;
    let updated = entries.update(at, (key, value));
    let changed = map.insert(key, value);
    assert forall|i: int, j: int| 0 <= i < j < updated.len() implies less(
        (#[trigger] updated[i]).0,
        (#[trigger] updated[j]).0,
    ) by {
        assert(updated[i].0 == entries[i].0 && updated[j].0 == entries[j].0);
    }
    assert forall|i: int| 0 <= i < updated.len() implies changed.contains_pair(
        (#[trigger] updated[i]).0,
        updated[i].1,
    ) by {
        if i < at {
            assert(updated[i] == entries[i]);
            assert(less(entries[i].0, entries[at].0));
        } else if i > at {
            assert(updated[i] == entries[i]);
            assert(less(entries[at].0, entries[i].0));
        }
    }
    assert forall|other: Seq<char>| #[trigger] changed.contains_key(other) implies has_key(
        updated,
        other,
    ) by {
        if other == key {
            assert(updated[at].0 == key);
        } else {
            assert(map.contains_key(other));
            assert(has_key(entries, other));
            let i = choose|i: int| 0 <= i < entries.len() && (#[trigger] entries[i]).0 == other;
            assert(updated[i].0 == entries[i].0);
        }
    }
}

/// The entries at some places.
pub open spec fn at_places<V>(entries: Seq<(Seq<char>, V)>, places: Seq<usize>) -> Seq<
    (Seq<char>, V),
> {
    places.map_values(|place: usize| entries[place as int])
}

/// The places of the entries in the order of their keys; of those with the same key the last one
/// counts.
pub fn in_key_order<V: DeepView>(entries: &Vec<(String, V)>) -> (places: Vec<usize>)
    ensures
        forall|k: int| 0 <= k < places@.len() ==> (#[trigger] places@[k]) < entries@.len(),
        at_places(entries.deep_view(), places@) == listing(map_of(entries.deep_view())),
        is_listing(listing(map_of(entries.deep_view())), map_of(entries.deep_view())),
        map_of(at_places(entries.deep_view(), places@)) == map_of(entries.deep_view()),
{
    let ghost all = entries.deep_view();
    let mut places: Vec<usize> = Vec::new();
    let mut i: usize = 0;
    assert(at_places(all, places@) =~= Seq::empty());
    assert(all.take(0) =~= Seq::empty());
    while i < entries.len()
        invariant
            all == entries.deep_view(),
            i <= entries@.len(),
            forall|k: int| 0 <= k < places@.len() ==> (#[trigger] places@[k]) < entries@.len(),
            is_listing(at_places(all, places@), map_of(all.take(i as int))),
        decreases entries@.len() - i,
    {
        let ghost listed = at_places(all, places@);
        let ghost map = map_of(all.take(i as int));
        let key = entries[i].0.as_str();
        let mut at: usize = 0;
        assert(all[i as int] == entries@[i as int].deep_view());
        assert(all.take(i + 1).drop_last() =~= all.take(i as int));
        while at < places.len() && text_before(entries[places[at]].0.as_str(), key)
            invariant
                all == entries.deep_view(),
                listed == at_places(all, places@),
                i < entries@.len(),
                key@ == all[i as int].0,
                at <= places@.len(),
                forall|k: int| 0 <= k < places@.len() ==> (#[trigger] places@[k]) < entries@.len(),
                forall|k: int| 0 <= k < at ==> text_less()((#[trigger] listed[k]).0, key@),
            ensures
                at <= places@.len(),
                forall|k: int| 0 <= k < at ==> text_less()((#[trigger] listed[k]).0, key@),
                at < places@.len() ==> !text_less()(listed[at as int].0, key@),
            decreases places@.len() - at,
        {
            assert(listed[at as int].0 == entries@[places@[at as int] as int].0@);
            at += 1;
        }
        proof {
            lemma_texts_are_ordered();
            if at < places@.len() {
                assert(listed[at as int].0 == entries@[places@[at as int] as int].0@);
            }
        }
        if at < places.len() && same(entries[places[at]].0.as_str(), key) {
            proof {
                lemma_listing_update(listed, map, at as int, all[i as int].1);
            }
            let ghost before = places@;
            places.set(at, i);
            assert(at_places(all, places@) =~= listed.update(
                at as int,
                (listed[at as int].0, all[i as int].1),
            ));
        } else {
            proof {
                let less = text_less();
                assert forall|k: int| at <= k < listed.len() implies less(
                    key@,
                    (#[trigger] listed[k]).0,
                ) by {
                    assert(less(key@, listed[at as int].0) || less(listed[at as int].0, key@));
                    if k > at {
                        assert(less(listed[at as int].0, listed[k].0));
                    }
                }
                lemma_listing_insert(listed, map, at as int, key@, all[i as int].1);
            }
            places.insert(at, i);
            assert(at_places(all, places@) =~= listed.insert(
                at as int,
                (key@, all[i as int].1),
            ));
        }
        i += 1;
    }
    proof {
        assert(all.take(all.len() as int) =~= all);
        lemma_listing(at_places(all, places@), map_of(all));
    }
    places
}

/// Entries whose keys go up, the first character in which two keys differ deciding, are what their
/// map lists.
pub proof fn law_listings_go_by_the_keys<V>(entries: Seq<(Seq<char>, V)>)
    requires
        forall|i: int, j: int|
            0 <= i < j < entries.len() ==> comes_before(
                (#[trigger] entries[i]).0,
                (#[trigger] entries[j]).0,
                char_less(),
            ),
    ensures
        listing(map_of(entries)) == entries,
{
    let map = map_of(entries);
    lemma_texts_are_ordered();
    assert forall|i: int, j: int| 0 <= i < j < entries.len() implies text_less()(
        (#[trigger] entries[i]).0,
        (#[trigger] entries[j]).0,
    ) by {
        assert(comes_before(entries[i].0, entries[j].0, char_less()));
    }
    assert(distinct_keys(entries)) by {
        assert forall|i: int, j: int| 0 <= i < j < entries.len() implies (
        #[trigger] entries[i]).0 != (#[trigger] entries[j]).0 by {
            assert(text_less()(entries[i].0, entries[j].0));
        }
    }
    assert forall|i: int| 0 <= i < entries.len() implies map.contains_pair(
        (#[trigger] entries[i]).0,
        entries[i].1,
    ) by {
        lemma_map_of_has(entries, i);
    }
    assert forall|key: Seq<char>| #[trigger] map.contains_key(key) implies has_key(
        entries,
        key,
    ) by {
        let i = lemma_map_of_key(entries, key);
        assert(entries[i].0 == key);
    }
    assert(is_listing(entries, map));
    lemma_same_listing(entries, listing(map), map);
}

/// The listing of a map has each of its entries once, under keys that go up.
pub proof fn law_listings_are_complete<V>(
    entries: Seq<(Seq<char>, V)>,
    map: Map<Seq<char>, V>,
    i: int,
    j: int,
    key: Seq<char>,
)
    requires
        is_listing(entries, map),
    ensures
        0 <= i < j < entries.len() ==> comes_before(entries[i].0, entries[j].0, char_less()),
        0 <= i < entries.len() ==> map.contains_key(entries[i].0) && map[entries[i].0]
            == entries[i].1,
        map.contains_key(key) ==> exists|k: int|
            0 <= k < entries.len() && (#[trigger] entries[k]).0 == key,
{
    if 0 <= i < j < entries.len() {
        assert(text_less()(entries[i].0, entries[j].0));
    }
    if 0 <= i < entries.len() {
        assert(map.contains_pair(entries[i].0, entries[i].1));
    }
    if map.contains_key(key) {
        assert(has_key(entries, key));
    }
}

} // verus!
