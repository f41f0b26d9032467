use crate::editor::state::difficulty::Difficulty;
use crate::editor::state::hitobject::{
    ids_of, views, HitObject, HitObjectState, HitObjectView,
};
use crate::editor::state::order::{
    distinct_ids, ids_below, insert_sorted, insertion_index, lemma_insert_sorted_keeps_ids_below,
    lemma_insert_sorted_keeps_ids_distinct, lemma_insert_sorted_keeps_order,
    lemma_insertion_index_exists, sorted, Identified, Timed,
};
use crate::editor::state::timing::{TimingPoint, TimingState};
use crate::editor::state::user::{UserInfoView, UserState};
use vstd::prelude::*;

pub mod difficulty;
pub mod hitobject;
pub mod order;
pub mod timing;
pub mod user;

verus! {

/// A change of the roster that waits for the next tick.
#[derive(Clone, Copy, Debug, PartialEq, Eq, Structural)]
pub enum EditorEvent {
    UserJoined { id: usize },
    UserLeft { id: usize },
}

/// The document of a session with what the session keeps beside it: the
/// users, the roster changes that wait, the count of ticks without anybody
/// connected, and the ids that the next new entities get.
#[derive(Debug, PartialEq, Eq)]
pub struct EditorState {
    pub empty_ticks: u32,
    pub events: Vec<EditorEvent>,
    pub users: UserState,
    pub hit_objects: HitObjectState,
    pub timing: TimingState,
    pub difficulty: Difficulty,
    pub next_hit_object_id: u32,
    pub next_timing_point_id: u32,
}

/// The value of an [`EditorState`].
pub ghost struct EditorStateView {
    pub empty_ticks: u32,
    pub events: Seq<EditorEvent>,
    pub users: Seq<UserInfoView>,
    pub hit_objects: Seq<HitObjectView>,
    pub timing: Seq<TimingPoint>,
    pub difficulty: Difficulty,
    pub next_hit_object_id: u32,
    pub next_timing_point_id: u32,
}

impl View for EditorState {
    type V = EditorStateView;

    open spec fn view(&self) -> EditorStateView {
        EditorStateView {
            empty_ticks: self.empty_ticks,
            events: self.events@,
            users: self.users@,
            hit_objects: self.hit_objects@,
            timing: self.timing@,
            difficulty: self.difficulty,
            next_hit_object_id: self.next_hit_object_id,
            next_timing_point_id: self.next_timing_point_id,
        }
    }
}

/// The values of `values` entered one by one into a sorted store that was
/// empty.
pub open spec fn entered<T: Timed>(values: Seq<T>) -> Seq<T>
    decreases values.len(),
{
    if values.len() == 0 {
        Seq::empty()
    } else {
        insert_sorted(entered(values.drop_last()), values.last())
    }
}

/// The first id that a counter may hand out when `ids` are in use: it comes
/// after the largest of them. The id `u32::MAX` has none after it and is left
/// out of account.
pub open spec fn first_free_id(ids: Seq<u32>) -> u32
    decreases ids.len(),
{
    if ids.len() == 0 {
        0
    } else {
        let before = first_free_id(ids.drop_last());
        if before <= ids.last() < u32::MAX {
            (ids.last() + 1) as u32
        } else {
            before
        }
    }
}

/// Every id in use, `u32::MAX` apart, lies below the first free id.
pub proof fn lemma_first_free_id_is_free(ids: Seq<u32>)
    ensures
        forall|i: int| 0 <= i < ids.len() && ids[i] < u32::MAX ==> ids[i] < first_free_id(ids),
    decreases ids.len(),
{
    if ids.len() > 0 {
        lemma_first_free_id_is_free(ids.drop_last());
        assert forall|i: int| 0 <= i < ids.len() && ids[i] < u32::MAX implies ids[i]
            < first_free_id(ids) by {
            if i < ids.len() - 1 {
                assert(ids.drop_last()[i] == ids[i]);
            }
        }
    }
}

/// Values entered one by one stand in order, and their ids stay below a bound
/// that held them before.
pub proof fn lemma_entered_keeps_ids_below<T: Identified + Timed>(values: Seq<T>, bound: int)
    requires
        ids_below(values, bound),
    ensures
        sorted(entered(values)),
        ids_below(entered(values), bound),
    decreases values.len(),
{
    if values.len() > 0 {
        let front = values.drop_last();
        assert forall|i: int| 0 <= i < front.len() implies (#[trigger] front[i]).ident()
            < bound by {
            assert(front[i] == values[i]);
        }
        lemma_entered_keeps_ids_below(front, bound);
        assert(values.last() == values[values.len() - 1]);
        lemma_insert_sorted_keeps_order(entered(front), values.last());
        lemma_insert_sorted_keeps_ids_below(entered(front), values.last(), bound);
    }
}

/// Values entered one by one stand in order.
pub proof fn lemma_entered_in_order<T: Timed>(values: Seq<T>)
    ensures
        sorted(entered(values)),
    decreases values.len(),
{
    if values.len() > 0 {
        lemma_entered_in_order(values.drop_last());
        lemma_insert_sorted_keeps_order(entered(values.drop_last()), values.last());
    }
}

/// Values entered one by one carry no id that none of them carried before.
pub proof fn lemma_entered_carries_no_new_id<T: Identified + Timed>(values: Seq<T>, id: int)
    requires
        forall|i: int| 0 <= i < values.len() ==> (#[trigger] values[i]).ident() != id,
    ensures
        forall|i: int| 0 <= i < entered(values).len() ==> (#[trigger] entered(values)[i]).ident()
            != id,
    decreases values.len(),
{
    if values.len() > 0 {
        let front = values.drop_last();
        assert forall|i: int| 0 <= i < front.len() implies (#[trigger] front[i]).ident()
            != id by {
            assert(front[i] == values[i]);
        }
        lemma_entered_carries_no_new_id(front, id);
        lemma_entered_in_order(front);
        assert(values.last() == values[values.len() - 1]);
        let base = entered(front);
        lemma_insertion_index_exists(base, values.last().time());
        let index = insertion_index(base, values.last().time());
        let after = entered(values);
        assert forall|i: int| 0 <= i < after.len() implies (#[trigger] after[i]).ident()
            != id by {
            if i < index {
                assert(after[i] == base[i]);
            } else if i > index {
                assert(after[i] == base[i - 1]);
            }
        }
    }
}

/// Values with ids of their own, entered one by one, have ids of their own.
pub proof fn lemma_entered_keeps_ids_distinct<T: Identified + Timed>(values: Seq<T>)
    requires
        distinct_ids(values),
    ensures
        distinct_ids(entered(values)),
    decreases values.len(),
{
    if values.len() > 0 {
        let front = values.drop_last();
        let last = values.last();
        assert(last == values[values.len() - 1]);
        assert forall|i: int, j: int| 0 <= i < j < front.len() implies (
        #[trigger] front[i]).ident() != (#[trigger] front[j]).ident() by {
            assert(front[i] == values[i] && front[j] == values[j]);
            assert(values[i].ident() != values[j].ident());
        }
        lemma_entered_keeps_ids_distinct(front);
        assert forall|i: int| 0 <= i < front.len() implies (#[trigger] front[i]).ident()
            != last.ident() by {
            assert(front[i] == values[i]);
            assert(values[i].ident() != values[values.len() - 1].ident());
        }
        lemma_entered_carries_no_new_id(front, last.ident());
        lemma_entered_in_order(front);
        lemma_insert_sorted_keeps_ids_distinct(entered(front), last);
    }
}

impl EditorStateView {
    /// Every hit object has an id of its own, and so has every timing point.
    pub open spec fn ids_distinct(self) -> bool {
        distinct_ids(self.hit_objects) && distinct_ids(self.timing)
    }

    /// Every id in use lies below the counter that hands out the next one,
    /// for the hit objects and for the timing points. While that is so, no
    /// new entity gets an id that is in use.
    pub open spec fn ids_fresh(self) -> bool {
        &&& ids_below(self.hit_objects, self.next_hit_object_id as int)
        &&& ids_below(self.timing, self.next_timing_point_id as int)
    }

    /// Each counter can hand out `count` more ids before it starts again at
    /// zero.
    pub open spec fn has_room(self, count: int) -> bool {
        &&& self.next_hit_object_id + count <= u32::MAX
        &&& self.next_timing_point_id + count <= u32::MAX
    }
}

/// The ids of the timing points, in order.
pub open spec fn timing_ids(points: Seq<TimingPoint>) -> Seq<u32> {
    points.map_values(|point: TimingPoint| point.id)
}

impl EditorState {
    /// The state of a session that starts on a document: the hit objects and
    /// the timing points enter their stores one by one, nobody is connected,
    /// and the id counters stand behind the largest id of the document.
    pub fn from_document(
        difficulty: Difficulty,
        hit_objects: Vec<HitObject>,
        timing_points: Vec<TimingPoint>,
    ) -> (state: Self)
        ensures
            state@ == (EditorStateView {
                empty_ticks: 0,
                events: Seq::empty(),
                users: Seq::empty(),
                hit_objects: entered(views(hit_objects@)),
                timing: entered(timing_points@),
                difficulty,
                next_hit_object_id: first_free_id(ids_of(views(hit_objects@))),
                next_timing_point_id: first_free_id(timing_ids(timing_points@)),
            }),
            ids_below(views(hit_objects@), u32::MAX as int) && ids_below(
                timing_points@,
                u32::MAX as int,
            ) ==> state@.ids_fresh(),
            distinct_ids(views(hit_objects@)) && distinct_ids(timing_points@)
                ==> state@.ids_distinct(),
    {
        let mut state = EditorState {
            empty_ticks: 0,
            events: Vec::new(),
            users: UserState::default(),
            hit_objects: HitObjectState::default(),
            timing: TimingState::default(),
            difficulty,
            next_hit_object_id: 0,
            next_timing_point_id: 0,
        };
        let ghost objects = views(hit_objects@);
        let mut index: usize = 0;
        while index < hit_objects.len()
            invariant
                index <= hit_objects.len(),
                objects == views(hit_objects@),
                state.hit_objects@ == entered(objects.take(index as int)),
                state.next_hit_object_id == first_free_id(ids_of(objects.take(index as int))),
                state.timing@ == Seq::<TimingPoint>::empty(),
                state.users@ == Seq::<UserInfoView>::empty(),
                state.events@ == Seq::<EditorEvent>::empty(),
                state.empty_ticks == 0,
                state.difficulty == difficulty,
                state.next_timing_point_id == 0,
            decreases hit_objects.len() - index,
        {
            let object = hit_objects[index].clone();
            proof {
                assert(objects.take(index + 1).drop_last() == objects.take(index as int));
                assert(ids_of(objects.take(index + 1)).drop_last() == ids_of(
                    objects.take(index as int),
                ));
            }
            if state.next_hit_object_id <= object.id && object.id < u32::MAX {
                state.next_hit_object_id = object.id + 1;
            }
            state.hit_objects.insert_hitobject(object);
            index += 1;
        }
        assert(objects.take(index as int) == objects);
        let mut index: usize = 0;
        while index < timing_points.len()
            invariant
                index <= timing_points.len(),
                state.hit_objects@ == entered(objects),
                state.next_hit_object_id == first_free_id(ids_of(objects)),
                state.timing@ == entered(timing_points@.take(index as int)),
                state.next_timing_point_id == first_free_id(
                    timing_ids(timing_points@.take(index as int)),
                ),
                state.users@ == Seq::<UserInfoView>::empty(),
                state.events@ == Seq::<EditorEvent>::empty(),
                state.empty_ticks == 0,
                state.difficulty == difficulty,
            decreases timing_points.len() - index,
        {
            let point = timing_points[index];
            proof {
                assert(timing_points@.take(index + 1).drop_last() == timing_points@.take(
                    index as int,
                ));
                assert(timing_ids(timing_points@.take(index + 1)).drop_last() == timing_ids(
                    timing_points@.take(index as int),
                ));
            }
            if state.next_timing_point_id <= point.id && point.id < u32::MAX {
                state.next_timing_point_id = point.id + 1;
            }
            state.timing.insert_timing_point(point);
            index += 1;
        }
        assert(timing_points@.take(index as int) == timing_points@);
        proof {
            if distinct_ids(objects) && distinct_ids(timing_points@) {
                lemma_entered_keeps_ids_distinct(objects);
                lemma_entered_keeps_ids_distinct(timing_points@);
            }
            let points = timing_points@;
            if ids_below(objects, u32::MAX as int) && ids_below(points, u32::MAX as int) {
                lemma_first_free_id_is_free(ids_of(objects));
                lemma_first_free_id_is_free(timing_ids(points));
                assert forall|i: int| 0 <= i < objects.len() implies (
                #[trigger] objects[i]).ident() < state.next_hit_object_id by {
                    assert(ids_of(objects)[i] == objects[i].id);
                }
                assert forall|i: int| 0 <= i < points.len() implies (#[trigger] points[i]).ident()
                    < state.next_timing_point_id by {
                    assert(timing_ids(points)[i] == points[i].id);
                }
                lemma_entered_keeps_ids_below(objects, state.next_hit_object_id as int);
                lemma_entered_keeps_ids_below(points, state.next_timing_point_id as int);
            }
        }
        state
    }
}

impl Default for EditorState {
    fn default() -> (state: Self)
        ensures
            state@ == (EditorStateView {
                empty_ticks: 0,
                events: Seq::empty(),
                users: Seq::empty(),
                hit_objects: Seq::empty(),
                timing: Seq::empty(),
                difficulty: Difficulty::standard(),
                next_hit_object_id: 0,
                next_timing_point_id: 0,
            }),
    {
        EditorState {
            empty_ticks: 0,
            events: Vec::new(),
            users: UserState::default(),
            hit_objects: HitObjectState::default(),
            timing: TimingState::default(),
            difficulty: Difficulty::default(),
            next_hit_object_id: 0,
            next_timing_point_id: 0,
        }
    }
}

} // verus!
