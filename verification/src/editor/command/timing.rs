use crate::editor::command::hitobject::counter_after;
use crate::editor::command::messages::{ServerCommand, ServerCommandView};
use crate::editor::dispatcher::{to_all, Dispatcher, DispatcherMessageView};
use crate::editor::state::order::{
    distinct_ids, ids_below, insert_sorted, lemma_insert_sorted_keeps_ids_below,
    lemma_insert_sorted_keeps_ids_distinct, lemma_position_is_first,
    lemma_remove_keeps_ids_below, lemma_remove_keeps_ids_distinct, lemma_remove_keeps_order,
    lemma_replace_sorted_keeps_ids_below, lemma_replace_sorted_keeps_ids_distinct,
    position_of_id, replace_sorted, sorted,
};
use crate::editor::state::timing::{TimingPoint, TimingPointId};
use crate::editor::state::EditorStateView;
use crate::editor::{EditorSession, EditorSessionView, Presence};
use vstd::prelude::*;

verus! {

/// The session with other timing points, and all else as it was.
pub open spec fn with_timing(
    session: EditorSessionView,
    timing: Seq<TimingPoint>,
) -> EditorSessionView {
    EditorSessionView { state: EditorStateView { timing, ..session.state }, ..session }
}

/// The point that a creation stores: the payload under the next id.
pub open spec fn created_point(
    session: EditorSessionView,
    timing_point: TimingPoint,
) -> TimingPoint {
    TimingPoint { id: session.state.next_timing_point_id, ..timing_point }
}

/// The session after the creation of `timing_point`.
pub open spec fn after_timing_creation(
    session: EditorSessionView,
    timing_point: TimingPoint,
) -> EditorSessionView {
    EditorSessionView {
        state: EditorStateView {
            timing: insert_sorted(session.state.timing, created_point(session, timing_point)),
            next_timing_point_id: counter_after(session.state.next_timing_point_id),
            ..session.state
        },
        ..session
    }
}

/// No point carries `id`.
pub open spec fn point_id_unused(points: Seq<TimingPoint>, id: TimingPointId) -> bool {
    forall|i: int| 0 <= i < points.len() ==> (#[trigger] points[i]).id != id
}

/// While the ids in use lie below the counter, a creation leaves every point
/// with an id of its own: the new point takes the id at the counter, which no
/// point carried.
pub proof fn lemma_timing_creation_keeps_ids_distinct(
    session: EditorSessionView,
    timing_point: TimingPoint,
)
    requires
        sorted(session.state.timing),
        distinct_ids(session.state.timing),
        ids_below(session.state.timing, session.state.next_timing_point_id as int),
    ensures
        distinct_ids(after_timing_creation(session, timing_point).state.timing),
{
    lemma_insert_sorted_keeps_ids_distinct(
        session.state.timing,
        created_point(session, timing_point),
    );
}

/// While the ids in use lie below the counter and the counter has an id
/// left, a creation keeps them below it: the new point takes the id at the
/// counter, which no point carried, and the counter moves on.
pub proof fn lemma_timing_creation_keeps_ids_below(
    session: EditorSessionView,
    timing_point: TimingPoint,
)
    requires
        sorted(session.state.timing),
        ids_below(session.state.timing, session.state.next_timing_point_id as int),
        session.state.next_timing_point_id < u32::MAX,
    ensures
        ids_below(
            after_timing_creation(session, timing_point).state.timing,
            after_timing_creation(session, timing_point).state.next_timing_point_id as int,
        ),
{
    let bound = session.state.next_timing_point_id + 1;
    assert(ids_below(session.state.timing, bound));
    lemma_insert_sorted_keeps_ids_below(
        session.state.timing,
        created_point(session, timing_point),
        bound,
    );
}

/// Stores `timing_point` under the next id and announces it to everybody.
/// Any presence may do so. While the ids in use lie below the counter, the
/// new id is one that no point carried.
pub fn handle_create_timing_point(
    session: &mut EditorSession,
    _presence: &Presence,
    timing_point: TimingPoint,
    dispatcher: &mut Dispatcher,
)
    ensures
        final(session)@ == after_timing_creation(old(session)@, timing_point),
        final(dispatcher)@ == old(dispatcher)@.push(
            to_all(
                ServerCommandView::TimingPointCreated(created_point(old(session)@, timing_point)),
            ),
        ),
        old(session)@.state.ids_fresh() ==> point_id_unused(
            old(session)@.state.timing,
            old(session)@.state.next_timing_point_id,
        ),
        old(session)@.state.ids_fresh() && old(session)@.state.next_timing_point_id < u32::MAX
            ==> final(session)@.state.ids_fresh(),
        sorted(final(session)@.state.timing),
{
    proof {
        use_type_invariant(&session.state.timing);
        if session@.state.ids_fresh() && session@.state.next_timing_point_id < u32::MAX {
            lemma_timing_creation_keeps_ids_below(session@, timing_point);
        }
    }
    let mut created = timing_point;
    created.id = TimingPoint::next_id(&mut session.state.next_timing_point_id);
    session.state.timing.insert_timing_point(created);
    dispatcher.broadcast(ServerCommand::TimingPointCreated(created), None)
}

/// The timing points after an update to `timing_point`: the first point that
/// carries its id takes its value, and nothing changes if no point does.
pub open spec fn timing_updated(points: Seq<TimingPoint>, timing_point: TimingPoint) -> Seq<
    TimingPoint,
> {
    match position_of_id(points, timing_point.id as int) {
        Some(index) => replace_sorted(points, index, timing_point),
        None => points,
    }
}

/// An update leaves every point with an id of its own: the new value carries
/// the id of the point that it replaces.
pub proof fn lemma_timing_update_keeps_ids_distinct(
    points: Seq<TimingPoint>,
    timing_point: TimingPoint,
)
    requires
        sorted(points),
        distinct_ids(points),
    ensures
        distinct_ids(timing_updated(points, timing_point)),
{
    lemma_position_is_first(points, timing_point.id as int);
    if let Some(index) = position_of_id(points, timing_point.id as int) {
        lemma_replace_sorted_keeps_ids_distinct(points, index, timing_point);
    }
}

/// An update leaves the ids of the points below a bound that held them
/// before: the new value carries the id of the point that it replaces.
pub proof fn lemma_timing_update_keeps_ids_below(
    points: Seq<TimingPoint>,
    timing_point: TimingPoint,
    bound: int,
)
    requires
        sorted(points),
        ids_below(points, bound),
    ensures
        ids_below(timing_updated(points, timing_point), bound),
{
    lemma_position_is_first(points, timing_point.id as int);
    if let Some(index) = position_of_id(points, timing_point.id as int) {
        assert(points[index].id < bound);
        lemma_replace_sorted_keeps_ids_below(points, index, timing_point, bound);
    }
}

/// Replaces the first timing point that carries the id of `timing_point` and
/// announces the new value to everybody. If no point carries the id, nothing
/// changes and nothing is announced. Any presence may do so.
pub fn handle_update_timing_point(
    session: &mut EditorSession,
    _presence: &Presence,
    timing_point: TimingPoint,
    dispatcher: &mut Dispatcher,
)
    ensures
        final(session)@ == with_timing(
            old(session)@,
            timing_updated(old(session)@.state.timing, timing_point),
        ),
        final(dispatcher)@ == (if position_of_id(
            old(session)@.state.timing,
            timing_point.id as int,
        ) is Some {
            old(dispatcher)@.push(to_all(ServerCommandView::TimingPointUpdated(timing_point)))
        } else {
            old(dispatcher)@
        }),
        old(session)@.state.ids_fresh() ==> final(session)@.state.ids_fresh(),
        sorted(final(session)@.state.timing),
{
    proof {
        use_type_invariant(&session.state.timing);
        if session@.state.ids_fresh() {
            lemma_timing_update_keeps_ids_below(
                session@.state.timing,
                timing_point,
                session@.state.next_timing_point_id as int,
            );
        }
    }
    if session.state.timing.update_timing_point(timing_point.id, timing_point).is_ok() {
        dispatcher.broadcast(ServerCommand::TimingPointUpdated(timing_point), None)
    }
}

/// What a deletion has done so far: the points that are left, and the ids of
/// the points that went, in the order in which they went.
pub ghost struct TimingDeletion {
    pub points: Seq<TimingPoint>,
    pub deleted: Seq<TimingPointId>,
}

/// Deletes the first point that carries `id`, if there is one.
pub open spec fn delete_point(before: TimingDeletion, id: TimingPointId) -> TimingDeletion {
    match position_of_id(before.points, id as int) {
        Some(index) => TimingDeletion {
            points: before.points.remove(index),
            deleted: before.deleted.push(id),
        },
        None => before,
    }
}

/// Deletes for each of `ids` in turn.
pub open spec fn delete_points(start: TimingDeletion, ids: Seq<TimingPointId>) -> TimingDeletion
    decreases ids.len(),
{
    if ids.len() == 0 {
        start
    } else {
        delete_point(delete_points(start, ids.drop_last()), ids.last())
    }
}

/// What the deletion of `ids` does to `points`.
pub open spec fn timing_deletion(
    points: Seq<TimingPoint>,
    ids: Seq<TimingPointId>,
) -> TimingDeletion {
    delete_points(TimingDeletion { points, deleted: Seq::empty() }, ids)
}

/// A deletion keeps sorted points sorted.
pub proof fn lemma_timing_deletion_keeps_order(points: Seq<TimingPoint>, ids: Seq<TimingPointId>)
    requires
        sorted(points),
    ensures
        sorted(timing_deletion(points, ids).points),
    decreases ids.len(),
{
    if ids.len() > 0 {
        lemma_timing_deletion_keeps_order(points, ids.drop_last());
        let before = timing_deletion(points, ids.drop_last());
        match position_of_id(before.points, ids.last() as int) {
            Some(index) => {
                lemma_position_is_first(before.points, ids.last() as int);
                lemma_remove_keeps_order(before.points, index);
            },
            None => {},
        }
    }
}

/// A deletion leaves every point with an id of its own.
pub proof fn lemma_timing_deletion_keeps_ids_distinct(
    points: Seq<TimingPoint>,
    ids: Seq<TimingPointId>,
)
    requires
        distinct_ids(points),
    ensures
        distinct_ids(timing_deletion(points, ids).points),
    decreases ids.len(),
{
    if ids.len() > 0 {
        lemma_timing_deletion_keeps_ids_distinct(points, ids.drop_last());
        let before = timing_deletion(points, ids.drop_last());
        lemma_position_is_first(before.points, ids.last() as int);
        if let Some(index) = position_of_id(before.points, ids.last() as int) {
            lemma_remove_keeps_ids_distinct(before.points, index);
        }
    }
}

/// A deletion leaves the ids of the points below a bound that held them
/// before.
pub proof fn lemma_timing_deletion_keeps_ids_below(
    points: Seq<TimingPoint>,
    ids: Seq<TimingPointId>,
    bound: int,
)
    requires
        ids_below(points, bound),
    ensures
        ids_below(timing_deletion(points, ids).points, bound),
    decreases ids.len(),
{
    if ids.len() > 0 {
        lemma_timing_deletion_keeps_ids_below(points, ids.drop_last(), bound);
        let before = timing_deletion(points, ids.drop_last());
        lemma_position_is_first(before.points, ids.last() as int);
        if let Some(index) = position_of_id(before.points, ids.last() as int) {
            lemma_remove_keeps_ids_below(before.points, index, bound);
        }
    }
}

/// One notice of deletion for each id, for everybody.
pub open spec fn timing_deletion_notices(ids: Seq<TimingPointId>) -> Seq<DispatcherMessageView> {
    ids.map_values(|id: TimingPointId| to_all(ServerCommandView::TimingPointDeleted(id)))
}

/// Deletes the timing points among `ids`, each looked up when its turn
/// comes, and announces every point that goes to everybody. Any presence may
/// do so.
pub fn handle_delete_timing_point(
    session: &mut EditorSession,
    _presence: &Presence,
    ids: Vec<TimingPointId>,
    dispatcher: &mut Dispatcher,
)
    ensures
        final(session)@ == with_timing(
            old(session)@,
            timing_deletion(old(session)@.state.timing, ids@).points,
        ),
        final(dispatcher)@ == old(dispatcher)@ + timing_deletion_notices(
            timing_deletion(old(session)@.state.timing, ids@).deleted,
        ),
        old(session)@.state.ids_fresh() ==> final(session)@.state.ids_fresh(),
        sorted(final(session)@.state.timing),
{
    proof {
        if session@.state.ids_fresh() {
            lemma_timing_deletion_keeps_ids_below(
                session@.state.timing,
                ids@,
                session@.state.next_timing_point_id as int,
            );
        }
    }
    let ghost start = TimingDeletion { points: session@.state.timing, deleted: Seq::empty() };
    let ghost mut done = start;
    let mut index: usize = 0;
    while index < ids.len()
        invariant
            index <= ids.len(),
            start == (TimingDeletion { points: old(session)@.state.timing, deleted: Seq::empty() }),
            done == delete_points(start, ids@.take(index as int)),
            session@ == with_timing(old(session)@, done.points),
            dispatcher@ == old(dispatcher)@ + timing_deletion_notices(done.deleted),
        decreases ids.len() - index,
    {
        let id: TimingPointId = ids[index];
        proof {
            assert(ids@.take(index + 1).drop_last() == ids@.take(index as int));
        }
        if session.state.timing.find_by_id(id).is_some() {
            let _ = session.state.timing.delete_timing_point(id);
            dispatcher.broadcast(ServerCommand::TimingPointDeleted(id), None);
            proof {
                done = delete_point(done, id);
            }
        }
        index += 1;
    }
    assert(ids@.take(index as int) == ids@);
    proof {
        use_type_invariant(&session.state.timing);
    }
}

} // verus!
