//! What the stores share: values found by an id and kept in the order of a
//! time, stated once over sequences.
use vstd::prelude::*;

verus! {

/// A value that a store finds by its id.
pub trait Identified: Sized {
    spec fn ident(self) -> int;
}

/// A value that a store orders by a time.
pub trait Timed: Sized {
    spec fn time(self) -> int;
}

/// No value comes later than one that follows it.
pub open spec fn sorted<T: Timed>(values: Seq<T>) -> bool {
    forall|i: int, j: int| 0 <= i <= j < values.len() ==> values[i].time() <= values[j].time()
}

/// `index` parts the values that come before `time` from those that come at
/// `time` or later.
pub open spec fn is_insertion_index<T: Timed>(values: Seq<T>, time: int, index: int) -> bool {
    &&& 0 <= index <= values.len()
    &&& forall|j: int| 0 <= j < index ==> (#[trigger] values[j]).time() < time
    &&& forall|j: int| index <= j < values.len() ==> time <= (#[trigger] values[j]).time()
}

/// Where a value of `time` enters sorted values: in front of every value that
/// comes at `time` or later.
pub open spec fn insertion_index<T: Timed>(values: Seq<T>, time: int) -> int {
    choose|index: int| is_insertion_index(values, time, index)
}

/// The values with `value` added at its insertion index.
pub open spec fn insert_sorted<T: Timed>(values: Seq<T>, value: T) -> Seq<T> {
    values.insert(insertion_index(values, value.time()), value)
}

/// The values after the one at `index` became `value`: replaced where it
/// stands if that keeps the order, moved to its insertion index if not.
pub open spec fn replace_sorted<T: Timed>(values: Seq<T>, index: int, value: T) -> Seq<T> {
    if sorted(values.update(index, value)) {
        values.update(index, value)
    } else {
        insert_sorted(values.remove(index), value)
    }
}

/// `index` is the place of the first value that carries `id`.
pub open spec fn is_first_with_id<T: Identified>(values: Seq<T>, id: int, index: int) -> bool {
    &&& 0 <= index < values.len()
    &&& values[index].ident() == id
    &&& forall|j: int| 0 <= j < index ==> (#[trigger] values[j]).ident() != id
}

/// The place of the first value that carries `id`, if there is one.
pub open spec fn position_of_id<T: Identified>(values: Seq<T>, id: int) -> Option<int> {
    if exists|index: int| is_first_with_id(values, id, index) {
        Some(choose|index: int| is_first_with_id(values, id, index))
    } else {
        None
    }
}

/// What makes `found` the position of `id`: it is the place of the first
/// value that carries `id`, or no value carries `id` and it is `None`.
pub open spec fn is_position_of_id<T: Identified>(
    values: Seq<T>,
    id: int,
    found: Option<int>,
) -> bool {
    match found {
        Some(index) => is_first_with_id(values, id, index),
        None => forall|j: int| 0 <= j < values.len() ==> (#[trigger] values[j]).ident() != id,
    }
}

/// The first value that carries `id` stands at `index` and nowhere else.
pub proof fn lemma_position_found<T: Identified>(values: Seq<T>, id: int, index: int)
    requires
        is_first_with_id(values, id, index),
    ensures
        position_of_id(values, id) == Some(index),
{
    let chosen = choose|k: int| is_first_with_id(values, id, k);
    if chosen < index {
        assert(values[chosen].ident() != id);
    } else if index < chosen {
        assert(values[index].ident() != id);
    }
}

/// Where no value carries `id`, there is no first one.
pub proof fn lemma_position_absent<T: Identified>(values: Seq<T>, id: int)
    requires
        forall|j: int| 0 <= j < values.len() ==> (#[trigger] values[j]).ident() != id,
    ensures
        position_of_id(values, id) is None,
{
}

/// What a found position says of the values.
pub proof fn lemma_position_is_first<T: Identified>(values: Seq<T>, id: int)
    ensures
        is_position_of_id(values, id, position_of_id(values, id)),
{
    if position_of_id(values, id) is None {
        assert forall|j: int| 0 <= j < values.len() implies (#[trigger] values[j]).ident()
            != id by {
            if values[j].ident() == id {
                lemma_first_exists(values, id, j);
            }
        }
    }
}

/// A value that carries `id` has a first one in front of it or is the first.
pub proof fn lemma_first_exists<T: Identified>(values: Seq<T>, id: int, index: int)
    requires
        0 <= index < values.len(),
        values[index].ident() == id,
    ensures
        exists|first: int| is_first_with_id(values, id, first) && first <= index,
    decreases index,
{
    if exists|j: int| 0 <= j < index && (#[trigger] values[j]).ident() == id {
        let j = choose|j: int| 0 <= j < index && (#[trigger] values[j]).ident() == id;
        lemma_first_exists(values, id, j);
    } else {
        assert(is_first_with_id(values, id, index));
    }
}

/// An insertion index is the only one.
pub proof fn lemma_insertion_index_unique<T: Timed>(values: Seq<T>, time: int, index: int)
    requires
        is_insertion_index(values, time, index),
    ensures
        insertion_index(values, time) == index,
{
    let chosen = insertion_index(values, time);
    if chosen < index {
        assert(values[chosen].time() < time);
    } else if index < chosen {
        assert(values[index].time() < time);
    }
}

/// Sorted values have an insertion index for every time.
pub proof fn lemma_insertion_index_exists<T: Timed>(values: Seq<T>, time: int)
    requires
        sorted(values),
    ensures
        is_insertion_index(values, time, insertion_index(values, time)),
    decreases values.len(),
{
    if values.len() == 0 {
        assert(is_insertion_index(values, time, 0));
    } else if values.last().time() < time {
        assert(is_insertion_index(values, time, values.len() as int));
    } else {
        let front = values.drop_last();
        lemma_insertion_index_exists(front, time);
        let index = insertion_index(front, time);
        assert(is_insertion_index(values, time, index)) by {
            assert forall|j: int| 0 <= j < index implies (#[trigger] values[j]).time() < time by {
                assert(values[j] == front[j]);
            }
            assert forall|j: int| index <= j < values.len() implies time <= (
            #[trigger] values[j]).time() by {
                if j < front.len() {
                    assert(values[j] == front[j]);
                }
            }
        }
    }
}

/// Adding a value at its insertion index keeps sorted values sorted.
pub proof fn lemma_insert_sorted_keeps_order<T: Timed>(values: Seq<T>, value: T)
    requires
        sorted(values),
    ensures
        sorted(insert_sorted(values, value)),
{
    lemma_insertion_index_exists(values, value.time());
}

/// Taking a value away keeps sorted values sorted.
pub proof fn lemma_remove_keeps_order<T: Timed>(values: Seq<T>, index: int)
    requires
        sorted(values),
        0 <= index < values.len(),
    ensures
        sorted(values.remove(index)),
{
}

/// An update keeps sorted values sorted, whatever the time of the new value.
pub proof fn lemma_replace_sorted_keeps_order<T: Timed>(values: Seq<T>, index: int, value: T)
    requires
        sorted(values),
        0 <= index < values.len(),
    ensures
        sorted(replace_sorted(values, index, value)),
{
    if !sorted(values.update(index, value)) {
        lemma_insert_sorted_keeps_order(values.remove(index), value);
    }
}

/// A value that fits between its neighbours can be replaced where it stands.
pub proof fn lemma_update_in_place<T: Timed>(values: Seq<T>, index: int, value: T)
    requires
        sorted(values),
        0 <= index < values.len(),
    ensures
        sorted(values.update(index, value)) <==> (index == 0 || values[index - 1].time()
            <= value.time()) && (index + 1 == values.len() || value.time() <= values[index
            + 1].time()),
{
    let replaced = values.update(index, value);
    let fits_before = index == 0 || values[index - 1].time() <= value.time();
    let fits_after = index + 1 == values.len() || value.time() <= values[index + 1].time();
    if !fits_before {
        assert(replaced[index - 1].time() > replaced[index].time());
    } else if !fits_after {
        assert(replaced[index].time() > replaced[index + 1].time());
    }
}

/// A change that leaves every time as it was leaves the order as it was.
pub proof fn lemma_same_times_keep_order<T: Timed>(before: Seq<T>, after: Seq<T>)
    requires
        sorted(before),
        before.len() == after.len(),
        forall|i: int| 0 <= i < before.len() ==> (#[trigger] after[i]).time() == before[i].time(),
    ensures
        sorted(after),
{
}

/// Every value carries an id below `bound`.
pub open spec fn ids_below<T: Identified>(values: Seq<T>, bound: int) -> bool {
    forall|i: int| 0 <= i < values.len() ==> (#[trigger] values[i]).ident() < bound
}

/// A value with an id below the bound can enter at its insertion index.
pub proof fn lemma_insert_sorted_keeps_ids_below<T: Identified + Timed>(
    values: Seq<T>,
    value: T,
    bound: int,
)
    requires
        sorted(values),
        ids_below(values, bound),
        value.ident() < bound,
    ensures
        ids_below(insert_sorted(values, value), bound),
{
    lemma_insertion_index_exists(values, value.time());
    let index = insertion_index(values, value.time());
    let after = insert_sorted(values, value);
    assert forall|i: int| 0 <= i < after.len() implies (#[trigger] after[i]).ident() < bound by {
        if i < index {
            assert(after[i] == values[i]);
        } else if i > index {
            assert(after[i] == values[i - 1]);
        }
    }
}

/// Taking a value away leaves the ids below the bound.
pub proof fn lemma_remove_keeps_ids_below<T: Identified>(values: Seq<T>, index: int, bound: int)
    requires
        ids_below(values, bound),
        0 <= index < values.len(),
    ensures
        ids_below(values.remove(index), bound),
{
    let after = values.remove(index);
    assert forall|i: int| 0 <= i < after.len() implies (#[trigger] after[i]).ident() < bound by {
        assert(after[i] == values[if i < index { i } else { i + 1 }]);
    }
}

/// An update to a value with an id below the bound leaves the ids below it.
pub proof fn lemma_replace_sorted_keeps_ids_below<T: Identified + Timed>(
    values: Seq<T>,
    index: int,
    value: T,
    bound: int,
)
    requires
        sorted(values),
        ids_below(values, bound),
        0 <= index < values.len(),
        value.ident() < bound,
    ensures
        ids_below(replace_sorted(values, index, value), bound),
{
    if sorted(values.update(index, value)) {
        let after = values.update(index, value);
        assert forall|i: int| 0 <= i < after.len() implies (#[trigger] after[i]).ident()
            < bound by {
            if i != index {
                assert(after[i] == values[i]);
            }
        }
    } else {
        lemma_remove_keeps_order(values, index);
        lemma_remove_keeps_ids_below(values, index, bound);
        lemma_insert_sorted_keeps_ids_below(values.remove(index), value, bound);
    }
}

/// Picking among the values leaves the ids below the bound.
pub proof fn lemma_filter_keeps_ids_below<T: Identified>(
    values: Seq<T>,
    pick: spec_fn(T) -> bool,
    bound: int,
)
    requires
        ids_below(values, bound),
    ensures
        ids_below(values.filter(pick), bound),
    decreases values.len(),
{
    reveal(Seq::filter);
    if values.len() > 0 {
        let front = values.drop_last();
        assert forall|i: int| 0 <= i < front.len() implies (#[trigger] front[i]).ident()
            < bound by {
            assert(front[i] == values[i]);
        }
        lemma_filter_keeps_ids_below(front, pick, bound);
        assert(values.last() == values[values.len() - 1]);
    }
}

/// No two values carry one id.
pub open spec fn distinct_ids<T: Identified>(values: Seq<T>) -> bool {
    forall|i: int, j: int|
        0 <= i < j < values.len() ==> (#[trigger] values[i]).ident() != (
        #[trigger] values[j]).ident()
}

/// Where each id has one value, a value is the first that carries its id.
pub proof fn lemma_distinct_position<T: Identified>(values: Seq<T>, index: int)
    requires
        distinct_ids(values),
        0 <= index < values.len(),
    ensures
        position_of_id(values, values[index].ident()) == Some(index),
{
    assert forall|j: int| 0 <= j < index implies (#[trigger] values[j]).ident()
        != values[index].ident() by {
        assert(values[j].ident() != values[index].ident());
    }
    lemma_position_found(values, values[index].ident(), index);
}

/// Taking a value away leaves each id with one value.
pub proof fn lemma_remove_keeps_ids_distinct<T: Identified>(values: Seq<T>, index: int)
    requires
        distinct_ids(values),
        0 <= index < values.len(),
    ensures
        distinct_ids(values.remove(index)),
{
    let after = values.remove(index);
    assert forall|i: int, j: int| 0 <= i < j < after.len() implies (#[trigger] after[i]).ident()
        != (#[trigger] after[j]).ident() by {
        let from_i = if i < index { i } else { i + 1 };
        let from_j = if j < index { j } else { j + 1 };
        assert(after[i] == values[from_i]);
        assert(after[j] == values[from_j]);
        assert(values[from_i].ident() != values[from_j].ident());
    }
}

/// A value whose id no other value carries can enter at its insertion index
/// and leave each id with one value.
pub proof fn lemma_insert_sorted_keeps_ids_distinct<T: Identified + Timed>(
    values: Seq<T>,
    value: T,
)
    requires
        sorted(values),
        distinct_ids(values),
        forall|i: int| 0 <= i < values.len() ==> (#[trigger] values[i]).ident() != value.ident(),
    ensures
        distinct_ids(insert_sorted(values, value)),
{
    lemma_insertion_index_exists(values, value.time());
    let index = insertion_index(values, value.time());
    let after = insert_sorted(values, value);
    assert forall|i: int, j: int| 0 <= i < j < after.len() implies (#[trigger] after[i]).ident()
        != (#[trigger] after[j]).ident() by {
        let from_i = if i < index { i } else { i - 1 };
        let from_j = if j < index { j } else { j - 1 };
        if i != index {
            assert(after[i] == values[from_i]);
        }
        if j != index {
            assert(after[j] == values[from_j]);
        }
        if i != index && j != index {
            assert(values[from_i].ident() != values[from_j].ident());
        }
    }
}

/// An update to a value that carries the id of the value it replaces leaves
/// each id with one value.
pub proof fn lemma_replace_sorted_keeps_ids_distinct<T: Identified + Timed>(
    values: Seq<T>,
    index: int,
    value: T,
)
    requires
        sorted(values),
        distinct_ids(values),
        0 <= index < values.len(),
        value.ident() == values[index].ident(),
    ensures
        distinct_ids(replace_sorted(values, index, value)),
{
    if sorted(values.update(index, value)) {
        let after = values.update(index, value);
        assert forall|i: int, j: int| 0 <= i < j < after.len() implies (
        #[trigger] after[i]).ident() != (#[trigger] after[j]).ident() by {
            assert(after[i].ident() == values[i].ident());
            assert(after[j].ident() == values[j].ident());
            assert(values[i].ident() != values[j].ident());
        }
    } else {
        let rest = values.remove(index);
        lemma_remove_keeps_order(values, index);
        lemma_remove_keeps_ids_distinct(values, index);
        assert forall|i: int| 0 <= i < rest.len() implies (#[trigger] rest[i]).ident()
            != value.ident() by {
            if i < index {
                assert(rest[i] == values[i]);
                assert(values[i].ident() != values[index].ident());
            } else {
                assert(rest[i] == values[i + 1]);
                assert(values[index].ident() != values[i + 1].ident());
            }
        }
        lemma_insert_sorted_keeps_ids_distinct(rest, value);
    }
}

/// A change that leaves every id as it was leaves each id with one value.
pub proof fn lemma_same_ids_stay_distinct<T: Identified>(before: Seq<T>, after: Seq<T>)
    requires
        distinct_ids(before),
        before.len() == after.len(),
        forall|i: int|
            0 <= i < before.len() ==> (#[trigger] after[i]).ident() == before[i].ident(),
    ensures
        distinct_ids(after),
{
    assert forall|i: int, j: int| 0 <= i < j < after.len() implies (#[trigger] after[i]).ident()
        != (#[trigger] after[j]).ident() by {
        assert(after[i].ident() == before[i].ident());
        assert(after[j].ident() == before[j].ident());
        assert(before[i].ident() != before[j].ident());
    }
}

/// A change that leaves every id as it was leaves the ids below the bound.
pub proof fn lemma_same_ids_stay_below<T: Identified>(before: Seq<T>, after: Seq<T>, bound: int)
    requires
        ids_below(before, bound),
        before.len() == after.len(),
        forall|i: int|
            0 <= i < before.len() ==> (#[trigger] after[i]).ident() == before[i].ident(),
    ensures
        ids_below(after, bound),
{
    assert forall|i: int| 0 <= i < after.len() implies (#[trigger] after[i]).ident() < bound by {
        assert(after[i].ident() == before[i].ident());
    }
}

} // verus!
