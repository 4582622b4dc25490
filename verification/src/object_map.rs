//! A map from identifiers to values that hands its entries out in the order of the identifiers.

use crate::object::{
    id_less, law_id_order, law_order_is_lexicographic, order_ids, IdOrder, ObjectId,
};
use vstd::prelude::*;

verus! {

/// A map keyed by identifiers, kept as a vector sorted by identifier.
#[derive(Debug)]
pub struct ObjectMap<V> {
    entries: Vec<(ObjectId, V)>,
}

/// The identifiers of `entries` grow strictly from one entry to the next.
pub open spec fn sorted_by_id<V>(entries: Seq<(ObjectId, V)>) -> bool {
    forall|i: int, j: int|
        0 <= i < j < entries.len() ==> #[trigger] id_less(entries[i].0, entries[j].0)
}

/// Some entry holds `id`.
pub open spec fn lists_id<V>(entries: Seq<(ObjectId, V)>, id: ObjectId) -> bool {
    exists|i: int| 0 <= i < entries.len() && (#[trigger] entries[i]).0 == id
}

/// The position of an entry that holds `id`.
pub open spec fn position_of<V>(entries: Seq<(ObjectId, V)>, id: ObjectId) -> int {
    choose|i: int| 0 <= i < entries.len() && (#[trigger] entries[i]).0 == id
}

/// The map that `entries` lists.
pub open spec fn map_of<V>(entries: Seq<(ObjectId, V)>) -> Map<ObjectId, V> {
    Map::new(|id: ObjectId| lists_id(entries, id), |id: ObjectId| entries[position_of(entries, id)].1)
}

impl<V> View for ObjectMap<V> {
    type V = Map<ObjectId, V>;

    open spec fn view(&self) -> Map<ObjectId, V> {
        map_of(self.listing())
    }
}

impl<V> ObjectMap<V> {
    /// The entries in the order in which they are handed out.
    pub closed spec fn listing(&self) -> Seq<(ObjectId, V)> {
        self.entries@
    }

    /// The entries stand in strictly growing order, so no identifier occurs twice.
    pub open spec fn wf(&self) -> bool {
        sorted_by_id(self.listing())
    }

    /// The map without entries.
    pub fn new() -> (map: Self)
        ensures
            map.wf(),
            map@ == Map::<ObjectId, V>::empty(),
            map.listing() == Seq::<(ObjectId, V)>::empty(),
    {
        let map = ObjectMap { entries: Vec::new() };
        assert(map@ =~= Map::<ObjectId, V>::empty());
        map
    }

    /// The number of entries.
    pub fn len(&self) -> (len: usize)
        ensures
            len == self.listing().len(),
    {
        self.entries.len()
    }

    /// True when there is no entry.
    pub fn is_empty(&self) -> (empty: bool)
        ensures
            empty == (self.listing().len() == 0),
    {
        self.entries.len() == 0
    }

    /// The entry at a position, counted in the order of the identifiers.
    pub fn entry(&self, index: usize) -> (entry: &(ObjectId, V))
        requires
            index < self.listing().len(),
        ensures
            *entry == self.listing()[index as int],
    {
        &self.entries[index]
    }

    /// The first position whose identifier does not come before `id`, and whether it holds `id`.
    fn locate(&self, id: &ObjectId) -> (place: (usize, bool))
        requires
            self.wf(),
        ensures
            place.0 <= self.entries@.len(),
            forall|i: int| 0 <= i < place.0 ==> #[trigger] id_less(self.entries@[i].0, *id),
            place.1 ==> place.0 < self.entries@.len() && self.entries@[place.0 as int].0 == *id,
            !place.1 ==> forall|i: int|
                place.0 <= i < self.entries@.len() ==> #[trigger] id_less(
                    *id,
                    self.entries@[i].0,
                ),
    {
        let mut low: usize = 0;
        let mut high: usize = self.entries.len();
        while low < high
            invariant
                self.wf(),
                low <= high <= self.entries@.len(),
                forall|i: int| 0 <= i < low ==> #[trigger] id_less(self.entries@[i].0, *id),
                forall|i: int|
                    high <= i < self.entries@.len() ==> #[trigger] id_less(*id, self.entries@[i].0),
            decreases high - low,
        {
            let middle: usize = low + (high - low) / 2;
            let ghost at = self.entries@[middle as int].0;
            match order_ids(&self.entries[middle].0, id) {
                IdOrder::Less => {
                    assert forall|i: int| 0 <= i < middle + 1 implies #[trigger] id_less(
                        self.entries@[i].0,
                        *id,
                    ) by {
                        if i < middle {
                            assert(id_less(self.entries@[i].0, at));
                            law_id_order(self.entries@[i].0, at, *id);
                        }
                    }
                    low = middle + 1;
                },
                IdOrder::Equal => {
                    assert forall|i: int| 0 <= i < middle implies #[trigger] id_less(
                        self.entries@[i].0,
                        *id,
                    ) by {
                        assert(id_less(self.entries@[i].0, at));
                    }
                    return (middle, true);
                },
                IdOrder::Greater => {
                    assert forall|i: int| middle <= i < self.entries@.len() implies #[trigger] id_less(
                        *id,
                        self.entries@[i].0,
                    ) by {
                        if middle < i {
                            assert(id_less(at, self.entries@[i].0));
                            law_id_order(*id, at, self.entries@[i].0);
                        }
                    }
                    high = middle;
                },
            }
        }
        (low, false)
    }

    /// The value under `id`.
    pub fn get(&self, id: &ObjectId) -> (value: Option<&V>)
        requires
            self.wf(),
        ensures
            value is Some <==> self@.contains_key(*id),
            value matches Some(v) ==> *v == self@[*id],
    {
        let (index, found) = self.locate(id);
        if found {
            proof {
                lemma_entry_in_map(self.entries@, index as int);
            }
            Some(&self.entries[index].1)
        } else {
            assert(!lists_id(self.entries@, *id)) by {
                assert forall|i: int| 0 <= i < self.entries@.len() implies (
                #[trigger] self.entries@[i]).0 != *id by {
                    law_id_order(self.entries@[i].0, *id, *id);
                    if i < index {
                        assert(id_less(self.entries@[i].0, *id));
                    } else {
                        assert(id_less(*id, self.entries@[i].0));
                    }
                }
            }
            None
        }
    }

    /// Puts `value` under `id`, in place of what was there.
    pub fn insert(&mut self, id: ObjectId, value: V)
        requires
            old(self).wf(),
        ensures
            final(self).wf(),
            final(self)@ == old(self)@.insert(id, value),
    {
        let (index, found) = self.locate(&id);
        let ghost before = self.entries@;
        if found {
            self.entries.set(index, (id, value));
            proof {
                assert(self.entries@ == before.update(index as int, (id, value)));
                lemma_update_entry(before, index as int, value);
            }
        } else {
            self.entries.insert(index, (id, value));
            proof {
                assert(self.entries@ == before.insert(index as int, (id, value)));
                lemma_insert_entry(before, index as int, id, value);
            }
        }
    }
}

/// In a sorted listing an identifier stands at one position only.
proof fn lemma_one_position<V>(entries: Seq<(ObjectId, V)>, i: int, j: int)
    requires
        sorted_by_id(entries),
        0 <= i < entries.len(),
        0 <= j < entries.len(),
        entries[i].0 == entries[j].0,
    ensures
        i == j,
{
    if i < j {
        assert(id_less(entries[i].0, entries[j].0));
    }
    if j < i {
        assert(id_less(entries[j].0, entries[i].0));
    }
    law_id_order(entries[i].0, entries[j].0, entries[j].0);
}

/// The listed map sends the identifier of an entry to the value of that entry.
proof fn lemma_entry_in_map<V>(entries: Seq<(ObjectId, V)>, i: int)
    requires
        sorted_by_id(entries),
        0 <= i < entries.len(),
    ensures
        map_of(entries).contains_key(entries[i].0),
        map_of(entries)[entries[i].0] == entries[i].1,
{
    let id = entries[i].0;
    assert(lists_id(entries, id));
    lemma_one_position(entries, i, position_of(entries, id));
}

/// The entries are handed out from the smallest identifier to the largest, compared byte by byte.
pub proof fn law_entries_grow_byte_by_byte<V>(map: ObjectMap<V>, i: int, j: int)
    requires
        map.wf(),
        0 <= i < j < map.listing().len(),
    ensures
        exists|k: int|
            0 <= k < 32 && #[trigger] map.listing()[i].0@[k] < map.listing()[j].0@[k] && forall|
                m: int,
            |
                0 <= m < k ==> #[trigger] map.listing()[i].0@[m] == map.listing()[j].0@[m],
{
    assert(id_less(map.listing()[i].0, map.listing()[j].0));
    law_order_is_lexicographic(map.listing()[i].0, map.listing()[j].0);
}

/// The map holds what it hands out: every entry is found under its identifier, and whatever is
/// found under an identifier is an entry.
pub proof fn law_map_holds_its_entries<V>(map: ObjectMap<V>, id: ObjectId)
    requires
        map.wf(),
    ensures
        map@.contains_key(id) <==> exists|i: int|
            0 <= i < map.listing().len() && (#[trigger] map.listing()[i]).0 == id,
        forall|i: int|
            0 <= i < map.listing().len() && (#[trigger] map.listing()[i]).0 == id ==> map@[id]
                == map.listing()[i].1,
{
    assert forall|i: int|
        0 <= i < map.listing().len() && (#[trigger] map.listing()[i]).0 == id implies map@[id]
        == map.listing()[i].1 by {
        lemma_entry_in_map(map.listing(), i);
    }
}

/// Looking an identifier up finds the value of its entry, and nothing if no entry has it.
pub proof fn law_get_finds_the_entry<V>(
    map: &ObjectMap<V>,
    id: &ObjectId,
    value: Option<&V>,
    i: int,
)
    requires
        map.wf(),
        call_ensures(ObjectMap::<V>::get, (map, id), value),
        0 <= i < map.listing().len(),
    ensures
        map.listing()[i].0 == *id ==> value == Some(&map.listing()[i].1),
        value is None ==> map.listing()[i].0 != *id,
        value is Some ==> exists|k: int|
            0 <= k < map.listing().len() && #[trigger] map.listing()[k] == (*id, *(value->0)),
{
    law_map_holds_its_entries(*map, *id);
    if value is Some {
        let k = choose|k: int| 0 <= k < map.listing().len() && (#[trigger] map.listing()[k]).0 == *id;
        assert(map.listing()[k] == (*id, *(value->0)));
    }
}

/// A map hands its entries out in one way only: two sorted listings of the same map are equal,
/// whatever order the entries were put in.
pub proof fn law_one_listing<V>(a: Seq<(ObjectId, V)>, b: Seq<(ObjectId, V)>)
    requires
        sorted_by_id(a),
        sorted_by_id(b),
        map_of(a) == map_of(b),
    ensures
        a == b,
    decreases a.len(),
{
    if a.len() == 0 {
        if b.len() > 0 {
            lemma_entry_in_map(b, 0);
            assert(lists_id(a, b[0].0));
        }
        assert(a =~= b);
    } else {
        lemma_entry_in_map(a, 0);
        assert(lists_id(b, a[0].0));
        let i = position_of(b, a[0].0);
        lemma_entry_in_map(b, 0);
        assert(lists_id(a, b[0].0));
        let j = position_of(a, b[0].0);
        if i > 0 && j > 0 {
            assert(id_less(b[0].0, b[i].0));
            assert(id_less(a[0].0, a[j].0));
            law_id_order(a[0].0, b[0].0, a[0].0);
        }
        if i == 0 {
            assert(a[0].0 == b[0].0);
        }
        lemma_rest_of_map(a);
        lemma_rest_of_map(b);
        law_one_listing(a.drop_first(), b.drop_first());
        assert(a =~= seq![a[0]] + a.drop_first());
        assert(b =~= seq![b[0]] + b.drop_first());
    }
}

/// Without its first entry, a sorted listing lists the map without the first identifier.
proof fn lemma_rest_of_map<V>(entries: Seq<(ObjectId, V)>)
    requires
        sorted_by_id(entries),
        entries.len() > 0,
    ensures
        sorted_by_id(entries.drop_first()),
        map_of(entries.drop_first()) == map_of(entries).remove(entries[0].0),
{
    let rest = entries.drop_first();
    assert forall|i: int, j: int| 0 <= i < j < rest.len() implies #[trigger] id_less(
        rest[i].0,
        rest[j].0,
    ) by {
        assert(id_less(entries[i + 1].0, entries[j + 1].0));
    }
    let expected = map_of(entries).remove(entries[0].0);
    assert forall|key: ObjectId| map_of(rest).contains_key(key) <==> expected.contains_key(
        key,
    ) by {
        if lists_id(rest, key) {
            let i = position_of(rest, key);
            assert(entries[i + 1].0 == key);
            if key == entries[0].0 {
                lemma_one_position(entries, 0, i + 1);
            }
        }
        if lists_id(entries, key) && key != entries[0].0 {
            let i = position_of(entries, key);
            assert(rest[i - 1].0 == key);
        }
    }
    assert forall|key: ObjectId| map_of(rest).contains_key(key) implies map_of(rest)[key]
        == expected[key] by {
        let i = position_of(rest, key);
        assert(0 <= i < rest.len() && rest[i].0 == key);
        assert(rest[i] == entries[i + 1]);
        lemma_entry_in_map(rest, i);
        lemma_entry_in_map(entries, i + 1);
        if key == entries[0].0 {
            lemma_one_position(entries, 0, i + 1);
        }
    }
    assert(map_of(rest) =~= expected);
}

/// Replacing the value of an entry replaces it in the map.
proof fn lemma_update_entry<V>(entries: Seq<(ObjectId, V)>, index: int, value: V)
    requires
        sorted_by_id(entries),
        0 <= index < entries.len(),
    ensures
        sorted_by_id(entries.update(index, (entries[index].0, value))),
        map_of(entries.update(index, (entries[index].0, value))) == map_of(entries).insert(
            entries[index].0,
            value,
        ),
{
    let id = entries[index].0;
    let after = entries.update(index, (id, value));
    assert forall|i: int, j: int| 0 <= i < j < after.len() implies #[trigger] id_less(
        after[i].0,
        after[j].0,
    ) by {
        assert(after[i].0 == entries[i].0 && after[j].0 == entries[j].0);
        assert(id_less(entries[i].0, entries[j].0));
    }
    let expected = map_of(entries).insert(id, value);
    assert forall|key: ObjectId| map_of(after).contains_key(key) <==> expected.contains_key(
        key,
    ) by {
        if lists_id(after, key) {
            let i = position_of(after, key);
            assert(entries[i].0 == key);
        }
        if lists_id(entries, key) {
            let i = position_of(entries, key);
            assert(after[i].0 == key);
        }
        assert(after[index].0 == id);
    }
    assert forall|key: ObjectId| map_of(after).contains_key(key) implies map_of(after)[key]
        == expected[key] by {
        let i = position_of(after, key);
        assert(0 <= i < after.len() && after[i].0 == key);
        lemma_entry_in_map(after, i);
        if i == index {
        } else {
            lemma_entry_in_map(entries, i);
            if key == id {
                lemma_one_position(entries, i, index);
            }
        }
    }
    assert(map_of(after) =~= expected);
}

/// Putting a new identifier where it belongs adds it to the map.
proof fn lemma_insert_entry<V>(entries: Seq<(ObjectId, V)>, index: int, id: ObjectId, value: V)
    requires
        sorted_by_id(entries),
        0 <= index <= entries.len(),
        forall|i: int| 0 <= i < index ==> #[trigger] id_less(entries[i].0, id),
        forall|i: int| index <= i < entries.len() ==> #[trigger] id_less(id, entries[i].0),
    ensures
        sorted_by_id(entries.insert(index, (id, value))),
        map_of(entries.insert(index, (id, value))) == map_of(entries).insert(id, value),
{
    let after = entries.insert(index, (id, value));
    assert forall|i: int, j: int| 0 <= i < j < after.len() implies #[trigger] id_less(
        after[i].0,
        after[j].0,
    ) by {
        if i < index {
            assert(after[i] == entries[i]);
            assert(id_less(entries[i].0, id));
        }
        if index < j {
            assert(after[j] == entries[j - 1]);
            assert(id_less(id, entries[j - 1].0));
        }
        if j < index {
            assert(after[j] == entries[j]);
            assert(id_less(entries[i].0, entries[j].0));
        } else if index < i {
            assert(after[i] == entries[i - 1]);
            assert(id_less(entries[i - 1].0, entries[j - 1].0));
        } else if i < index && index < j {
            assert(id_less(entries[i].0, entries[j - 1].0));
        }
    }
    let expected = map_of(entries).insert(id, value);
    assert(after[index].0 == id);
    assert forall|key: ObjectId| map_of(after).contains_key(key) <==> expected.contains_key(
        key,
    ) by {
        if lists_id(after, key) {
            let i = position_of(after, key);
            if i < index {
                assert(entries[i].0 == key);
            } else if index < i {
                assert(entries[i - 1].0 == key);
            }
        }
        if lists_id(entries, key) {
            let i = position_of(entries, key);
            if i < index {
                assert(after[i].0 == key);
            } else {
                assert(after[i + 1].0 == key);
            }
        }
    }
    assert forall|key: ObjectId| map_of(after).contains_key(key) implies map_of(after)[key]
        == expected[key] by {
        let i = position_of(after, key);
        assert(0 <= i < after.len() && after[i].0 == key);
        lemma_entry_in_map(after, i);
        if i != index {
            let k = if i < index { i } else { i - 1 };
            assert(after[i] == entries[k]);
            lemma_entry_in_map(entries, k);
            law_id_order(key, id, id);
            if i < index {
                assert(id_less(entries[k].0, id));
            } else {
                assert(id_less(id, entries[k].0));
            }
        }
    }
    assert(map_of(after) =~= expected);
}

} // verus!
