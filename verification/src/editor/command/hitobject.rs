use crate::editor::command::messages::{
    text_view, ServerCommand, ServerCommandView, ServerToClientMessageView,
};
use crate::editor::dispatcher::{to_all, Dispatcher, DispatcherMessageView};
use crate::editor::state::hitobject::{
    held_outside, ids_of, lemma_change_unpicked, lemma_insert_unpicked,
    lemma_picked_carry_no_new_id, lemma_picked_position, lemma_remove_unpicked,
    lemma_same_pick_among, lemma_unpick_one, ref_views, released, starting_at, HitObject,
    HitObjectId, HitObjectView,
};
use crate::editor::state::order::{
    distinct_ids, ids_below, insert_sorted, insertion_index, lemma_distinct_position,
    lemma_insert_sorted_keeps_ids_below,
    lemma_insert_sorted_keeps_ids_distinct, lemma_remove_keeps_ids_distinct,
    lemma_replace_sorted_keeps_ids_distinct, lemma_same_ids_stay_distinct,
    lemma_insert_sorted_keeps_order, lemma_insertion_index_exists, lemma_position_absent,
    lemma_position_found, lemma_position_is_first, Identified,
    lemma_remove_keeps_ids_below, lemma_remove_keeps_order,
    lemma_replace_sorted_keeps_ids_below, lemma_replace_sorted_keeps_order,
    lemma_same_ids_stay_below, lemma_same_times_keep_order, position_of_id, replace_sorted,
    sorted,
};
use crate::editor::state::EditorStateView;
use crate::editor::{EditorSession, EditorSessionView, Presence};
use vstd::prelude::*;

verus! {

/// The session with other hit objects, and all else as it was.
pub open spec fn with_hit_objects(
    session: EditorSessionView,
    hit_objects: Seq<HitObjectView>,
) -> EditorSessionView {
    EditorSessionView { state: EditorStateView { hit_objects, ..session.state }, ..session }
}

/// Whether `requester` may delete `object`: it holds the object's lock, or
/// nobody does and the deletion takes unlocked objects too.
pub open spec fn may_delete(object: HitObjectView, requester: usize, and_unselected: bool) -> bool {
    object.selected_by == Some(requester) || (object.selected_by is None && and_unselected)
}

/// What a deletion has done so far: the objects that are left, and the ids
/// of the objects that went, in the order in which they went.
pub ghost struct Deletion {
    pub objects: Seq<HitObjectView>,
    pub deleted: Seq<HitObjectId>,
}

/// Deletes the first object that carries `id`, if `requester` may delete it.
pub open spec fn delete_one(
    before: Deletion,
    requester: usize,
    id: HitObjectId,
    and_unselected: bool,
) -> Deletion {
    match position_of_id(before.objects, id as int) {
        Some(index) if may_delete(before.objects[index], requester, and_unselected) => Deletion {
            objects: before.objects.remove(index),
            deleted: before.deleted.push(id),
        },
        _ => before,
    }
}

/// Deletes for each of `ids` in turn.
pub open spec fn delete_each(
    start: Deletion,
    requester: usize,
    ids: Seq<HitObjectId>,
    and_unselected: bool,
) -> Deletion
    decreases ids.len(),
{
    if ids.len() == 0 {
        start
    } else {
        delete_one(
            delete_each(start, requester, ids.drop_last(), and_unselected),
            requester,
            ids.last(),
            and_unselected,
        )
    }
}

/// What the deletion of `ids` by `requester` does to `objects`.
pub open spec fn deletion(
    objects: Seq<HitObjectView>,
    requester: usize,
    ids: Seq<HitObjectId>,
    and_unselected: bool,
) -> Deletion {
    delete_each(Deletion { objects, deleted: Seq::empty() }, requester, ids, and_unselected)
}

/// The objects that `pick` picks are in `after` what they are in `before`,
/// one for one and in the same order.
pub open spec fn same_picked(
    before: Seq<HitObjectView>,
    after: Seq<HitObjectView>,
    pick: spec_fn(HitObjectView) -> bool,
) -> bool {
    after.filter(pick) == before.filter(pick)
}

/// Picks the objects that `requester` may not delete.
pub open spec fn out_of_reach(requester: usize, and_unselected: bool) -> spec_fn(
    HitObjectView,
) -> bool {
    |object: HitObjectView| !may_delete(object, requester, and_unselected)
}

/// Whatever ids a deletion names, the objects that the requester may not
/// delete stay, each in its place among them: an object that another
/// presence holds is never taken, and without `and_unselected` neither is an
/// object that nobody holds.
pub proof fn lemma_deletion_spares_others(
    objects: Seq<HitObjectView>,
    requester: usize,
    ids: Seq<HitObjectId>,
    and_unselected: bool,
)
    ensures
        same_picked(
            objects,
            deletion(objects, requester, ids, and_unselected).objects,
            out_of_reach(requester, and_unselected),
        ),
    decreases ids.len(),
{
    if ids.len() > 0 {
        lemma_deletion_spares_others(objects, requester, ids.drop_last(), and_unselected);
        let before = deletion(objects, requester, ids.drop_last(), and_unselected);
        match position_of_id(before.objects, ids.last() as int) {
            Some(index) => {
                if may_delete(before.objects[index], requester, and_unselected) {
                    lemma_remove_unpicked(
                        before.objects,
                        index,
                        out_of_reach(requester, and_unselected),
                    );
                }
            },
            None => {},
        }
    }
}

/// A deletion that names only objects which the requester may not delete,
/// or ids that no object carries, changes nothing and announces nothing.
pub proof fn lemma_refused_deletion_changes_nothing(
    objects: Seq<HitObjectView>,
    requester: usize,
    ids: Seq<HitObjectId>,
    and_unselected: bool,
)
    requires
        forall|k: int|
            0 <= k < ids.len() ==> match position_of_id(objects, #[trigger] ids[k] as int) {
                Some(index) => !may_delete(objects[index], requester, and_unselected),
                None => true,
            },
    ensures
        deletion(objects, requester, ids, and_unselected) == (Deletion {
            objects,
            deleted: Seq::empty(),
        }),
    decreases ids.len(),
{
    if ids.len() > 0 {
        let front = ids.drop_last();
        assert forall|k: int| 0 <= k < front.len() implies match position_of_id(
            objects,
            #[trigger] front[k] as int,
        ) {
            Some(index) => !may_delete(objects[index], requester, and_unselected),
            None => true,
        } by {
        }
        lemma_refused_deletion_changes_nothing(objects, requester, front, and_unselected);
    }
}

/// A deletion keeps sorted objects sorted.
pub proof fn lemma_deletion_keeps_order(
    objects: Seq<HitObjectView>,
    requester: usize,
    ids: Seq<HitObjectId>,
    and_unselected: bool,
)
    requires
        sorted(objects),
    ensures
        sorted(deletion(objects, requester, ids, and_unselected).objects),
    decreases ids.len(),
{
    if ids.len() > 0 {
        lemma_deletion_keeps_order(objects, requester, ids.drop_last(), and_unselected);
        let before = deletion(objects, requester, ids.drop_last(), and_unselected);
        match position_of_id(before.objects, ids.last() as int) {
            Some(index) => {
                lemma_position_is_first(before.objects, ids.last() as int);
                lemma_remove_keeps_order(before.objects, index);
            },
            None => {},
        }
    }
}

/// Picks the objects that a deletion of `ids` by `requester` leaves: those
/// that are not named, and those that are named but not for `requester` to
/// delete.
pub open spec fn left_by_deletion(
    ids: Seq<HitObjectId>,
    requester: usize,
    and_unselected: bool,
) -> spec_fn(HitObjectView) -> bool {
    |object: HitObjectView|
        !(ids.contains(object.id) && may_delete(object, requester, and_unselected))
}

/// Picks the ids of objects that `requester` may delete.
pub open spec fn names_deletable(
    objects: Seq<HitObjectView>,
    requester: usize,
    and_unselected: bool,
) -> spec_fn(HitObjectId) -> bool {
    |id: HitObjectId|
        match position_of_id(objects, id as int) {
            Some(index) => may_delete(objects[index], requester, and_unselected),
            None => false,
        }
}

/// An id is among `ids` if it is the last of them or among the others.
pub proof fn lemma_contains_last_or_front(ids: Seq<HitObjectId>, id: HitObjectId)
    requires
        ids.len() > 0,
    ensures
        ids.contains(id) <==> ids.drop_last().contains(id) || ids.last() == id,
{
    let front = ids.drop_last();
    if ids.contains(id) {
        let i = choose|i: int| 0 <= i < ids.len() && ids[i] == id;
        if i < front.len() {
            assert(front[i] == id);
        }
    }
    if front.contains(id) {
        let i = choose|i: int| 0 <= i < front.len() && front[i] == id;
        assert(ids[i] == id);
    }
    if ids.last() == id {
        assert(ids[ids.len() - 1] == id);
    }
}

/// Where every object has an id of its own and no id is named twice, a
/// deletion takes exactly the objects that are named and that the requester
/// may delete. All others stay as they are and in their order, and the ids
/// announced are the ids of the objects taken, in the order in which they
/// were named.
pub proof fn lemma_deletion_takes_what_is_named(
    objects: Seq<HitObjectView>,
    requester: usize,
    ids: Seq<HitObjectId>,
    and_unselected: bool,
)
    requires
        distinct_ids(objects),
        ids.no_duplicates(),
    ensures
        deletion(objects, requester, ids, and_unselected).objects == objects.filter(
            left_by_deletion(ids, requester, and_unselected),
        ),
        deletion(objects, requester, ids, and_unselected).deleted == ids.filter(
            names_deletable(objects, requester, and_unselected),
        ),
    decreases ids.len(),
{
    reveal(Seq::filter);
    let named = names_deletable(objects, requester, and_unselected);
    let left = left_by_deletion(ids, requester, and_unselected);
    if ids.len() == 0 {
        assert forall|i: int| 0 <= i < objects.len() implies left(#[trigger] objects[i]) by {}
        lemma_all_left(objects, left);
    } else {
        let front = ids.drop_last();
        let last = ids.last();
        let left_before = left_by_deletion(front, requester, and_unselected);
        assert(front.no_duplicates()) by {
            assert forall|i: int, j: int|
                0 <= i < front.len() && 0 <= j < front.len() && i != j implies front[i]
                != front[j] by {
                assert(front[i] == ids[i] && front[j] == ids[j]);
            }
        }
        lemma_deletion_takes_what_is_named(objects, requester, front, and_unselected);
        let before = deletion(objects, requester, front, and_unselected);
        assert(!front.contains(last)) by {
            if front.contains(last) {
                let i = choose|i: int| 0 <= i < front.len() && front[i] == last;
                assert(ids[i] == ids[ids.len() - 1]);
            }
        }
        lemma_position_is_first(objects, last as int);
        match position_of_id(objects, last as int) {
            None => {
                lemma_picked_carry_no_new_id(objects, left_before, last);
                lemma_position_absent(before.objects, last as int);
                assert forall|i: int| 0 <= i < objects.len() implies left(
                    #[trigger] objects[i],
                ) == left_before(objects[i]) by {
                    lemma_contains_last_or_front(ids, objects[i].id);
                }
                lemma_same_pick_among(objects, left, left_before);
            },
            Some(index) => {
                let object = objects[index];
                assert(left_before(object));
                lemma_picked_position(objects, index, left_before);
                let place = objects.take(index).filter(left_before).len() as int;
                lemma_position_found(before.objects, last as int, place);
                assert forall|i: int| 0 <= i < objects.len() && i != index implies left(
                    #[trigger] objects[i],
                ) == left_before(objects[i]) by {
                    lemma_contains_last_or_front(ids, objects[i].id);
                    if i < index {
                        assert(objects[i].ident() != objects[index].ident());
                    } else {
                        assert(objects[index].ident() != objects[i].ident());
                    }
                }
                lemma_contains_last_or_front(ids, object.id);
                if may_delete(object, requester, and_unselected) {
                    lemma_unpick_one(objects, index, left_before, left);
                } else {
                    lemma_same_pick_among(objects, left, left_before);
                }
            },
        }
    }
}

/// Objects that are all picked are the picked objects.
pub proof fn lemma_all_left(objects: Seq<HitObjectView>, pick: spec_fn(HitObjectView) -> bool)
    requires
        forall|i: int| 0 <= i < objects.len() ==> pick(#[trigger] objects[i]),
    ensures
        objects.filter(pick) == objects,
    decreases objects.len(),
{
    reveal(Seq::filter);
    if objects.len() > 0 {
        let front = objects.drop_last();
        assert forall|i: int| 0 <= i < front.len() implies pick(#[trigger] front[i]) by {
            assert(front[i] == objects[i]);
        }
        lemma_all_left(front, pick);
        assert(pick(objects[objects.len() - 1]));
        assert(front.push(objects.last()) =~= objects);
    }
}

/// A deletion leaves every object with an id of its own.
pub proof fn lemma_deletion_keeps_ids_distinct(
    objects: Seq<HitObjectView>,
    requester: usize,
    ids: Seq<HitObjectId>,
    and_unselected: bool,
)
    requires
        distinct_ids(objects),
    ensures
        distinct_ids(deletion(objects, requester, ids, and_unselected).objects),
    decreases ids.len(),
{
    if ids.len() > 0 {
        lemma_deletion_keeps_ids_distinct(objects, requester, ids.drop_last(), and_unselected);
        let before = deletion(objects, requester, ids.drop_last(), and_unselected);
        lemma_position_is_first(before.objects, ids.last() as int);
        if let Some(index) = position_of_id(before.objects, ids.last() as int) {
            lemma_remove_keeps_ids_distinct(before.objects, index);
        }
    }
}

/// A deletion leaves the ids of the objects below a bound that held them
/// before.
pub proof fn lemma_deletion_keeps_ids_below(
    objects: Seq<HitObjectView>,
    requester: usize,
    ids: Seq<HitObjectId>,
    and_unselected: bool,
    bound: int,
)
    requires
        ids_below(objects, bound),
    ensures
        ids_below(deletion(objects, requester, ids, and_unselected).objects, bound),
    decreases ids.len(),
{
    if ids.len() > 0 {
        lemma_deletion_keeps_ids_below(objects, requester, ids.drop_last(), and_unselected, bound);
        let before = deletion(objects, requester, ids.drop_last(), and_unselected);
        lemma_position_is_first(before.objects, ids.last() as int);
        if let Some(index) = position_of_id(before.objects, ids.last() as int) {
            lemma_remove_keeps_ids_below(before.objects, index, bound);
        }
    }
}

/// One notice of deletion for each id, for everybody.
pub open spec fn deletion_notices(ids: Seq<HitObjectId>) -> Seq<DispatcherMessageView> {
    ids.map_values(|id: HitObjectId| to_all(ServerCommandView::HitObjectDeleted(id)))
}

/// Deletes the hit objects among `ids` that `presence` may delete: those that
/// it holds and, with `and_unselected`, those that nobody holds. Each id is
/// looked up when its turn comes. Every object that goes is announced to
/// everybody; nothing else is. Where every object has an id of its own and
/// no id is named twice, exactly the objects go that are named and that
/// `presence` may delete, and they are announced in the order of `ids`.
pub fn handle_delete_hitobjects(
    session: &mut EditorSession,
    presence: &Presence,
    ids: Vec<HitObjectId>,
    dispatcher: &mut Dispatcher,
    and_unselected: bool,
)
    ensures
        final(session)@ == with_hit_objects(
            old(session)@,
            deletion(old(session)@.state.hit_objects, presence.id, ids@, and_unselected).objects,
        ),
        final(dispatcher)@ == old(dispatcher)@ + deletion_notices(
            deletion(old(session)@.state.hit_objects, presence.id, ids@, and_unselected).deleted,
        ),
        same_picked(
            old(session)@.state.hit_objects,
            final(session)@.state.hit_objects,
            out_of_reach(presence.id, and_unselected),
        ),
        distinct_ids(old(session)@.state.hit_objects) && ids@.no_duplicates() ==> {
            &&& final(session)@.state.hit_objects == old(session)@.state.hit_objects.filter(
                left_by_deletion(ids@, presence.id, and_unselected),
            )
            &&& final(dispatcher)@ == old(dispatcher)@ + deletion_notices(
                ids@.filter(
                    names_deletable(old(session)@.state.hit_objects, presence.id, and_unselected),
                ),
            )
        },
        old(session)@.state.ids_fresh() ==> final(session)@.state.ids_fresh(),
        sorted(final(session)@.state.hit_objects),
{
    proof {
        if distinct_ids(session@.state.hit_objects) && ids@.no_duplicates() {
            lemma_deletion_takes_what_is_named(
                session@.state.hit_objects,
                presence.id,
                ids@,
                and_unselected,
            );
        }
        if session@.state.ids_fresh() {
            lemma_deletion_keeps_ids_below(
                session@.state.hit_objects,
                presence.id,
                ids@,
                and_unselected,
                session@.state.next_hit_object_id as int,
            );
        }
        lemma_deletion_spares_others(
            session@.state.hit_objects,
            presence.id,
            ids@,
            and_unselected,
        );
    }
    let ghost start = Deletion { objects: session@.state.hit_objects, deleted: Seq::empty() };
    let ghost mut done = start;
    let mut index: usize = 0;
    while index < ids.len()
        invariant
            index <= ids.len(),
            start == (Deletion { objects: old(session)@.state.hit_objects, deleted: Seq::empty() }),
            done == delete_each(start, presence.id, ids@.take(index as int), and_unselected),
            session@ == with_hit_objects(old(session)@, done.objects),
            dispatcher@ == old(dispatcher)@ + deletion_notices(done.deleted),
        decreases ids.len() - index,
    {
        let id: HitObjectId = ids[index];
        let deletable: bool = match session.state.hit_objects.find_by_id(id) {
            Some(hit_object) => match hit_object.selected_by {
                Some(selected_by) => selected_by == presence.id,
                None => and_unselected,
            },
            None => false,
        };
        proof {
            assert(ids@.take(index + 1).drop_last() == ids@.take(index as int));
        }
        if deletable {
            let _ = session.state.hit_objects.delete_hitobject(id);
            dispatcher.broadcast(ServerCommand::HitObjectDeleted(id), None);
            proof {
                done = delete_one(done, presence.id, id, and_unselected);
            }
        }
        index += 1;
    }
    assert(ids@.take(index as int) == ids@);
    proof {
        use_type_invariant(&session.state.hit_objects);
    }
}

/// Whether the update of the object `id` to `object` by `requester` is
/// accepted: the payload is valid, an object carries `id`, `requester` holds
/// the first such object, and the update keeps that object's shape.
pub open spec fn update_accepted(
    objects: Seq<HitObjectView>,
    requester: usize,
    id: HitObjectId,
    object: HitObjectView,
) -> bool {
    &&& object.is_valid()
    &&& match position_of_id(objects, id as int) {
        Some(index) => objects[index].selected_by == Some(requester)
            && objects[index].data.shape() == object.data.shape(),
        None => false,
    }
}

/// The value that an accepted update stores: the payload under the id of the
/// object that it replaces, held by `requester` as that object was. Whatever
/// lock the payload names is ignored: an update moves no lock.
pub open spec fn update_value(
    object: HitObjectView,
    id: HitObjectId,
    requester: usize,
) -> HitObjectView {
    object.with_id(id).with_selected_by(Some(requester))
}

/// The objects after the update of the object `id` to `object` by `requester`.
pub open spec fn updated(
    objects: Seq<HitObjectView>,
    requester: usize,
    id: HitObjectId,
    object: HitObjectView,
) -> Seq<HitObjectView> {
    if update_accepted(objects, requester, id, object) {
        replace_sorted(
            objects,
            position_of_id(objects, id as int).unwrap(),
            update_value(object, id, requester),
        )
    } else {
        objects
    }
}

/// An update of an object that the requester does not hold is refused, and
/// so is one that would change the object's shape. A refused update leaves
/// the objects as they were.
pub proof fn lemma_refused_update_changes_nothing(
    objects: Seq<HitObjectView>,
    requester: usize,
    id: HitObjectId,
    object: HitObjectView,
)
    requires
        match position_of_id(objects, id as int) {
            Some(index) => objects[index].selected_by != Some(requester)
                || objects[index].data.shape() != object.data.shape(),
            None => true,
        },
    ensures
        !update_accepted(objects, requester, id, object),
        updated(objects, requester, id, object) == objects,
{
}

/// An update keeps sorted objects sorted.
pub proof fn lemma_update_keeps_order(
    objects: Seq<HitObjectView>,
    requester: usize,
    id: HitObjectId,
    object: HitObjectView,
)
    requires
        sorted(objects),
    ensures
        sorted(updated(objects, requester, id, object)),
{
    if update_accepted(objects, requester, id, object) {
        lemma_replace_sorted_keeps_order(
            objects,
            position_of_id(objects, id as int).unwrap(),
            update_value(object, id, requester),
        );
    }
}

/// An update leaves every object with an id of its own: the new value
/// carries the id of the object that it replaces.
pub proof fn lemma_update_keeps_ids_distinct(
    objects: Seq<HitObjectView>,
    requester: usize,
    id: HitObjectId,
    object: HitObjectView,
)
    requires
        sorted(objects),
        distinct_ids(objects),
    ensures
        distinct_ids(updated(objects, requester, id, object)),
{
    if update_accepted(objects, requester, id, object) {
        lemma_position_is_first(objects, id as int);
        lemma_replace_sorted_keeps_ids_distinct(
            objects,
            position_of_id(objects, id as int).unwrap(),
            update_value(object, id, requester),
        );
    }
}

/// An update leaves the ids of the objects below a bound that held them
/// before: the new value carries the id of the object that it replaces.
pub proof fn lemma_update_keeps_ids_below(
    objects: Seq<HitObjectView>,
    requester: usize,
    id: HitObjectId,
    object: HitObjectView,
    bound: int,
)
    requires
        sorted(objects),
        ids_below(objects, bound),
    ensures
        ids_below(updated(objects, requester, id, object), bound),
{
    if update_accepted(objects, requester, id, object) {
        lemma_position_is_first(objects, id as int);
        let index = position_of_id(objects, id as int).unwrap();
        assert(objects[index].id < bound);
        lemma_replace_sorted_keeps_ids_below(
            objects,
            index,
            update_value(object, id, requester),
            bound,
        );
    }
}

/// An accepted update leaves the new value in the store, under the id that was
/// named and still held by the requester.
pub proof fn lemma_update_keeps_the_lock(
    objects: Seq<HitObjectView>,
    requester: usize,
    id: HitObjectId,
    object: HitObjectView,
)
    requires
        sorted(objects),
        update_accepted(objects, requester, id, object),
    ensures
        updated(objects, requester, id, object).contains(update_value(object, id, requester)),
        updated(objects, requester, id, object).len() == objects.len(),
{
    lemma_position_is_first(objects, id as int);
    let index = position_of_id(objects, id as int).unwrap();
    let value = update_value(object, id, requester);
    if sorted(objects.update(index, value)) {
        assert(objects.update(index, value)[index] == value);
    } else {
        let rest = objects.remove(index);
        lemma_remove_keeps_order(objects, index);
        lemma_insertion_index_exists(rest, value.start_time as int);
        let place = insertion_index(rest, value.start_time as int);
        assert(rest.insert(place, value)[place] == value);
    }
}

/// Where every object has an id of its own, the object that carries the id
/// after an accepted update is the new value, held by the requester.
pub proof fn lemma_update_is_found_under_its_id(
    objects: Seq<HitObjectView>,
    requester: usize,
    id: HitObjectId,
    object: HitObjectView,
)
    requires
        sorted(objects),
        distinct_ids(objects),
        update_accepted(objects, requester, id, object),
    ensures
        ({
            let after = updated(objects, requester, id, object);
            &&& position_of_id(after, id as int) matches Some(index)
            &&& after[index] == update_value(object, id, requester)
        }),
{
    let after = updated(objects, requester, id, object);
    let value = update_value(object, id, requester);
    lemma_update_keeps_the_lock(objects, requester, id, object);
    lemma_update_keeps_ids_distinct(objects, requester, id, object);
    let index = choose|index: int| 0 <= index < after.len() && after[index] == value;
    lemma_distinct_position(after, index);
}

/// Replaces the first hit object that carries `id` by `hit_object`, if
/// `presence` holds the object and the update is valid and keeps the shape.
/// The new value gets the id `id` and stays locked by `presence`, whatever id
/// and lock the payload names. An accepted update is announced to everybody
/// with the value as it is stored. A refused one changes nothing and is
/// announced to nobody.
pub fn handle_update_hitobject(
    session: &mut EditorSession,
    presence: &Presence,
    id: HitObjectId,
    hit_object: HitObject,
    dispatcher: &mut Dispatcher,
)
    ensures
        final(session)@ == with_hit_objects(
            old(session)@,
            updated(old(session)@.state.hit_objects, presence.id, id, hit_object@),
        ),
        final(dispatcher)@ == (if update_accepted(
            old(session)@.state.hit_objects,
            presence.id,
            id,
            hit_object@,
        ) {
            old(dispatcher)@.push(
                to_all(
                    ServerCommandView::HitObjectUpdated(
                        update_value(hit_object@, id, presence.id),
                    ),
                ),
            )
        } else {
            old(dispatcher)@
        }),
        !update_accepted(old(session)@.state.hit_objects, presence.id, id, hit_object@)
            ==> final(session)@ == old(session)@,
        update_accepted(old(session)@.state.hit_objects, presence.id, id, hit_object@)
            ==> final(session)@.state.hit_objects.contains(
            update_value(hit_object@, id, presence.id),
        ),
        update_accepted(old(session)@.state.hit_objects, presence.id, id, hit_object@)
            && distinct_ids(old(session)@.state.hit_objects) ==> {
            &&& position_of_id(final(session)@.state.hit_objects, id as int) matches Some(index)
            &&& final(session)@.state.hit_objects[index] == update_value(
                hit_object@,
                id,
                presence.id,
            )
        },
        old(session)@.state.ids_fresh() ==> final(session)@.state.ids_fresh(),
        sorted(final(session)@.state.hit_objects),
{
    let ghost payload = hit_object@;
    let mut hit_object = hit_object;
    proof {
        use_type_invariant(&session.state.hit_objects);
        if session@.state.ids_fresh() {
            lemma_update_keeps_ids_below(
                session@.state.hit_objects,
                presence.id,
                id,
                payload,
                session@.state.next_hit_object_id as int,
            );
        }
    }
    if !hit_object.is_valid() {
        return ;
    }
    hit_object.id = id;
    hit_object.selected_by = Some(presence.id);
    let held: bool = match session.state.hit_objects.find_by_id(id) {
        Some(stored) => match stored.selected_by {
            Some(selected_by) => selected_by == presence.id,
            None => false,
        },
        None => false,
    };
    if !held {
        return ;
    }
    proof {
        if update_accepted(session@.state.hit_objects, presence.id, id, payload) {
            lemma_update_keeps_the_lock(session@.state.hit_objects, presence.id, id, payload);
            if distinct_ids(session@.state.hit_objects) {
                lemma_update_is_found_under_its_id(
                    session@.state.hit_objects,
                    presence.id,
                    id,
                    payload,
                );
            }
        }
    }
    let stored = hit_object.clone();
    if session.state.hit_objects.update_hitobject(id, stored).is_ok() {
        dispatcher.broadcast(ServerCommand::HitObjectUpdated(hit_object), None);
    }
}

/// What a selection has done so far: the objects as they stand, the ids that
/// the requester has newly locked and the ids whose lock it has given up,
/// each in the order in which it happened.
pub ghost struct Selection {
    pub objects: Seq<HitObjectView>,
    pub selected: Seq<HitObjectId>,
    pub deselected: Seq<HitObjectId>,
}

/// With `unique`, the requester first gives up every lock that it holds on
/// an object whose id is not among `ids`.
pub open spec fn release_others(
    objects: Seq<HitObjectView>,
    requester: usize,
    ids: Seq<HitObjectId>,
    unique: bool,
) -> Selection {
    if unique {
        Selection {
            objects: released(objects, held_outside(requester, ids)),
            selected: Seq::empty(),
            deselected: ids_of(objects.filter(held_outside(requester, ids))),
        }
    } else {
        Selection { objects, selected: Seq::empty(), deselected: Seq::empty() }
    }
}

/// Selects or deselects the first object that carries `id`: a free object
/// becomes the requester's when it selects, the requester's own becomes free
/// when it deselects, and nothing else changes.
pub open spec fn select_one(
    before: Selection,
    requester: usize,
    id: HitObjectId,
    selected: bool,
) -> Selection {
    match position_of_id(before.objects, id as int) {
        Some(index) => {
            let object = before.objects[index];
            if object.selected_by is None && selected {
                Selection {
                    objects: before.objects.update(
                        index,
                        object.with_selected_by(Some(requester)),
                    ),
                    selected: before.selected.push(id),
                    deselected: before.deselected,
                }
            } else if object.selected_by == Some(requester) && !selected {
                Selection {
                    objects: before.objects.update(index, object.with_selected_by(None)),
                    selected: before.selected,
                    deselected: before.deselected.push(id),
                }
            } else {
                before
            }
        },
        None => before,
    }
}

/// Selects or deselects for each of `ids` in turn.
pub open spec fn select_each(
    start: Selection,
    requester: usize,
    ids: Seq<HitObjectId>,
    selected: bool,
) -> Selection
    decreases ids.len(),
{
    if ids.len() == 0 {
        start
    } else {
        select_one(
            select_each(start, requester, ids.drop_last(), selected),
            requester,
            ids.last(),
            selected,
        )
    }
}

/// What the selection or deselection of `ids` by `requester` does to
/// `objects`.
pub open spec fn selection(
    objects: Seq<HitObjectView>,
    requester: usize,
    ids: Seq<HitObjectId>,
    unique: bool,
    selected: bool,
) -> Selection {
    select_each(release_others(objects, requester, ids, unique), requester, ids, selected)
}

/// The notices of a selection: one for the ids newly locked, then one for the
/// ids set free, each only if it has an id to name.
pub open spec fn selection_notices(done: Selection, requester: usize) -> Seq<
    DispatcherMessageView,
> {
    let locked = if done.selected.len() > 0 {
        seq![
            to_all(
                ServerCommandView::HitObjectSelected {
                    ids: done.selected,
                    selected_by: Some(requester),
                },
            ),
        ]
    } else {
        Seq::empty()
    };
    let freed = if done.deselected.len() > 0 {
        seq![
            to_all(
                ServerCommandView::HitObjectSelected { ids: done.deselected, selected_by: None },
            ),
        ]
    } else {
        Seq::empty()
    };
    locked + freed
}

/// A selection changes who holds an object and nothing else.
pub proof fn lemma_select_each_keeps_rest(
    start: Selection,
    requester: usize,
    ids: Seq<HitObjectId>,
    selected: bool,
)
    ensures
        ({
            let done = select_each(start, requester, ids, selected);
            &&& done.objects.len() == start.objects.len()
            &&& forall|i: int|
                0 <= i < start.objects.len() ==> #[trigger] done.objects[i]
                    == start.objects[i].with_selected_by(done.objects[i].selected_by)
        }),
    decreases ids.len(),
{
    if ids.len() > 0 {
        lemma_select_each_keeps_rest(start, requester, ids.drop_last(), selected);
    }
}

/// The first phase of a selection changes who holds an object and nothing
/// else.
pub proof fn lemma_release_keeps_rest(
    objects: Seq<HitObjectView>,
    requester: usize,
    ids: Seq<HitObjectId>,
    unique: bool,
)
    ensures
        ({
            let start = release_others(objects, requester, ids, unique);
            &&& start.objects.len() == objects.len()
            &&& forall|i: int|
                0 <= i < objects.len() ==> #[trigger] start.objects[i]
                    == objects[i].with_selected_by(start.objects[i].selected_by)
        }),
{
}

/// The turns of a selection leave alone every object whose id is not among
/// `ids`.
pub proof fn lemma_select_each_leaves_unnamed(
    start: Selection,
    requester: usize,
    ids: Seq<HitObjectId>,
    selected: bool,
)
    ensures
        ({
            let done = select_each(start, requester, ids, selected);
            forall|i: int|
                0 <= i < start.objects.len() && !ids.contains(start.objects[i].id)
                    ==> #[trigger] done.objects[i] == start.objects[i]
        }),
    decreases ids.len(),
{
    if ids.len() > 0 {
        let front = ids.drop_last();
        lemma_select_each_leaves_unnamed(start, requester, front, selected);
        lemma_select_each_keeps_rest(start, requester, front, selected);
    }
}

/// A selection with `unique` leaves the requester no lock outside `ids`:
/// every object that it held and whose id is not among `ids` is free
/// afterwards.
pub proof fn lemma_unique_selection_frees_others(
    objects: Seq<HitObjectView>,
    requester: usize,
    ids: Seq<HitObjectId>,
    selected: bool,
)
    ensures
        ({
            let done = selection(objects, requester, ids, true, selected);
            &&& done.objects.len() == objects.len()
            &&& forall|i: int|
                0 <= i < objects.len() && objects[i].selected_by == Some(requester)
                    && !ids.contains(objects[i].id) ==> (#[trigger] done.objects[i]).selected_by
                    is None
        }),
{
    let start = release_others(objects, requester, ids, true);
    lemma_select_each_keeps_rest(start, requester, ids, selected);
    lemma_select_each_leaves_unnamed(start, requester, ids, selected);
}

/// A selection never takes a lock away from another presence, and never
/// gives the requester an object that another presence holds.
pub proof fn lemma_selection_respects_other_locks(
    objects: Seq<HitObjectView>,
    requester: usize,
    ids: Seq<HitObjectId>,
    unique: bool,
    selected: bool,
)
    ensures
        ({
            let done = selection(objects, requester, ids, unique, selected);
            &&& done.objects.len() == objects.len()
            &&& forall|i: int|
                0 <= i < objects.len() && objects[i].selected_by is Some
                    && objects[i].selected_by != Some(requester) ==> (
                #[trigger] done.objects[i]).selected_by == objects[i].selected_by
        }),
{
    let start = release_others(objects, requester, ids, unique);
    lemma_select_each_respects_other_locks(start, requester, ids, selected);
}

/// The turns of a selection leave the locks of other presences alone.
pub proof fn lemma_select_each_respects_other_locks(
    start: Selection,
    requester: usize,
    ids: Seq<HitObjectId>,
    selected: bool,
)
    ensures
        ({
            let done = select_each(start, requester, ids, selected);
            &&& done.objects.len() == start.objects.len()
            &&& forall|i: int|
                0 <= i < start.objects.len() && start.objects[i].selected_by is Some
                    && start.objects[i].selected_by != Some(requester) ==> (
                #[trigger] done.objects[i]).selected_by == start.objects[i].selected_by
        }),
    decreases ids.len(),
{
    if ids.len() > 0 {
        lemma_select_each_respects_other_locks(start, requester, ids.drop_last(), selected);
    }
}

/// A selection keeps sorted objects sorted.
pub proof fn lemma_selection_keeps_order(
    objects: Seq<HitObjectView>,
    requester: usize,
    ids: Seq<HitObjectId>,
    unique: bool,
    selected: bool,
)
    requires
        sorted(objects),
    ensures
        sorted(selection(objects, requester, ids, unique, selected).objects),
{
    let start = release_others(objects, requester, ids, unique);
    lemma_release_keeps_rest(objects, requester, ids, unique);
    lemma_select_each_keeps_rest(start, requester, ids, selected);
    lemma_same_times_keep_order(objects, start.objects);
    lemma_same_times_keep_order(
        start.objects,
        selection(objects, requester, ids, unique, selected).objects,
    );
}

/// A selection leaves every object with an id of its own.
pub proof fn lemma_selection_keeps_ids_distinct(
    objects: Seq<HitObjectView>,
    requester: usize,
    ids: Seq<HitObjectId>,
    unique: bool,
    selected: bool,
)
    requires
        distinct_ids(objects),
    ensures
        distinct_ids(selection(objects, requester, ids, unique, selected).objects),
{
    let start = release_others(objects, requester, ids, unique);
    lemma_release_keeps_rest(objects, requester, ids, unique);
    lemma_select_each_keeps_rest(start, requester, ids, selected);
    lemma_same_ids_stay_distinct(objects, start.objects);
    lemma_same_ids_stay_distinct(
        start.objects,
        selection(objects, requester, ids, unique, selected).objects,
    );
}

/// A selection leaves the ids of the objects below a bound that held them
/// before.
pub proof fn lemma_selection_keeps_ids_below(
    objects: Seq<HitObjectView>,
    requester: usize,
    ids: Seq<HitObjectId>,
    unique: bool,
    selected: bool,
    bound: int,
)
    requires
        ids_below(objects, bound),
    ensures
        ids_below(selection(objects, requester, ids, unique, selected).objects, bound),
{
    let start = release_others(objects, requester, ids, unique);
    lemma_release_keeps_rest(objects, requester, ids, unique);
    lemma_select_each_keeps_rest(start, requester, ids, selected);
    lemma_same_ids_stay_below(objects, start.objects, bound);
    lemma_same_ids_stay_below(
        start.objects,
        selection(objects, requester, ids, unique, selected).objects,
        bound,
    );
}

/// Between `before` and `after` nothing changed but who holds which object.
pub open spec fn only_locks_differ(before: Seq<HitObjectView>, after: Seq<HitObjectView>) -> bool {
    &&& after.len() == before.len()
    &&& forall|i: int|
        0 <= i < before.len() ==> #[trigger] after[i] == before[i].with_selected_by(
            after[i].selected_by,
        )
}

/// What a presence other than `requester` held in `before`, it holds in
/// `after`, object by object.
pub open spec fn other_locks_stand(
    before: Seq<HitObjectView>,
    after: Seq<HitObjectView>,
    requester: usize,
) -> bool {
    &&& after.len() == before.len()
    &&& forall|i: int|
        0 <= i < before.len() && before[i].selected_by is Some && before[i].selected_by != Some(
            requester,
        ) ==> (#[trigger] after[i]).selected_by == before[i].selected_by
}

/// What `requester` held in `before` of objects whose id is not among `ids`
/// is free in `after`.
pub open spec fn freed_outside(
    before: Seq<HitObjectView>,
    after: Seq<HitObjectView>,
    requester: usize,
    ids: Seq<HitObjectId>,
) -> bool {
    &&& after.len() == before.len()
    &&& forall|i: int|
        0 <= i < before.len() && before[i].selected_by == Some(requester) && !ids.contains(
            before[i].id,
        ) ==> (#[trigger] after[i]).selected_by is None
}

/// Locks or frees the hit objects among `ids` for `presence`. With `unique`,
/// `presence` first gives up its locks on all other objects. Then each id is
/// taken in turn: a free object becomes locked if `selected`, an object that
/// `presence` holds becomes free if not `selected`; an object that another
/// presence holds stays as it is. Everybody hears of the ids newly locked in
/// one message and of the ids set free in another.
pub fn handle_hitobject_selection(
    session: &mut EditorSession,
    presence: &Presence,
    ids: Vec<HitObjectId>,
    unique: bool,
    selected: bool,
    dispatcher: &mut Dispatcher,
)
    ensures
        final(session)@ == with_hit_objects(
            old(session)@,
            selection(old(session)@.state.hit_objects, presence.id, ids@, unique, selected).objects,
        ),
        final(dispatcher)@ == old(dispatcher)@ + selection_notices(
            selection(old(session)@.state.hit_objects, presence.id, ids@, unique, selected),
            presence.id,
        ),
        only_locks_differ(old(session)@.state.hit_objects, final(session)@.state.hit_objects),
        other_locks_stand(
            old(session)@.state.hit_objects,
            final(session)@.state.hit_objects,
            presence.id,
        ),
        unique ==> freed_outside(
            old(session)@.state.hit_objects,
            final(session)@.state.hit_objects,
            presence.id,
            ids@,
        ),
        old(session)@.state.ids_fresh() ==> final(session)@.state.ids_fresh(),
        sorted(final(session)@.state.hit_objects),
{
    proof {
        let objects = session@.state.hit_objects;
        if session@.state.ids_fresh() {
            lemma_selection_keeps_ids_below(
                objects,
                presence.id,
                ids@,
                unique,
                selected,
                session@.state.next_hit_object_id as int,
            );
        }
        let start = release_others(objects, presence.id, ids@, unique);
        lemma_select_each_keeps_rest(start, presence.id, ids@, selected);
        lemma_selection_respects_other_locks(objects, presence.id, ids@, unique, selected);
        if unique {
            lemma_unique_selection_frees_others(objects, presence.id, ids@, selected);
        }
    }
    let mut selected_ids: Vec<HitObjectId> = Vec::new();
    let mut deselected_ids: Vec<HitObjectId> = Vec::new();
    if unique {
        deselected_ids = session.state.hit_objects.release_selected_by(presence.id, &ids);
    }
    let ghost start = release_others(old(session)@.state.hit_objects, presence.id, ids@, unique);
    let ghost mut done = start;
    let mut index: usize = 0;
    while index < ids.len()
        invariant
            index <= ids.len(),
            done == select_each(start, presence.id, ids@.take(index as int), selected),
            session@ == with_hit_objects(old(session)@, done.objects),
            selected_ids@ == done.selected,
            deselected_ids@ == done.deselected,
            dispatcher@ == old(dispatcher)@,
        decreases ids.len() - index,
    {
        let id: HitObjectId = ids[index];
        proof {
            assert(ids@.take(index + 1).drop_last() == ids@.take(index as int));
        }
        let holder: Option<Option<usize>> = match session.state.hit_objects.find_by_id(id) {
            Some(hit_object) => Some(hit_object.selected_by),
            None => None,
        };
        match holder {
            Some(Some(selected_by)) => {
                if selected_by == presence.id && !selected {
                    session.state.hit_objects.set_selected_by(id, None);
                    deselected_ids.push(id);
                }
            },
            Some(None) => {
                if selected {
                    session.state.hit_objects.set_selected_by(id, Some(presence.id));
                    selected_ids.push(id);
                }
            },
            None => {},
        }
        proof {
            done = select_one(done, presence.id, id, selected);
        }
        index += 1;
    }
    assert(ids@.take(index as int) == ids@);
    if selected_ids.len() > 0 {
        dispatcher.broadcast(
            ServerCommand::HitObjectSelected { ids: selected_ids, selected_by: Some(presence.id) },
            None,
        );
    }
    if deselected_ids.len() > 0 {
        dispatcher.broadcast(
            ServerCommand::HitObjectSelected { ids: deselected_ids, selected_by: None },
            None,
        );
    }
    proof {
        use_type_invariant(&session.state.hit_objects);
    }
}

/// No object carries `id`.
pub open spec fn id_unused(objects: Seq<HitObjectView>, id: HitObjectId) -> bool {
    forall|i: int| 0 <= i < objects.len() ==> (#[trigger] objects[i]).id != id
}

/// The id that a counter hands out next comes after `counter`; after
/// `u32::MAX` comes zero.
pub open spec fn counter_after(counter: u32) -> u32 {
    if counter == u32::MAX {
        0
    } else {
        (counter + 1) as u32
    }
}

/// The ids of the objects that start at `time`, in the order of the store.
pub open spec fn overlapping(objects: Seq<HitObjectView>, time: i32) -> Seq<HitObjectId> {
    ids_of(objects.filter(starting_at(time)))
}

/// The object that a creation stores: the payload under a new id, locked by
/// its creator.
pub open spec fn created_object(
    object: HitObjectView,
    id: HitObjectId,
    creator: usize,
) -> HitObjectView {
    object.with_id(id).with_selected_by(Some(creator))
}

/// What the eviction before a creation does: the objects that start when the
/// new object starts go, as far as `creator` may delete them, a free one
/// included.
pub open spec fn eviction(objects: Seq<HitObjectView>, creator: usize, time: i32) -> Deletion {
    deletion(objects, creator, overlapping(objects, time), true)
}

/// The objects with the new one in place, before the creator's other locks
/// are given up.
pub open spec fn with_created(
    objects: Seq<HitObjectView>,
    creator: usize,
    object: HitObjectView,
    id: HitObjectId,
) -> Seq<HitObjectView> {
    insert_sorted(
        eviction(objects, creator, object.start_time).objects,
        created_object(object, id, creator),
    )
}

/// The selection that ends a creation: the creator selects the new id alone.
pub open spec fn creation_selection(
    objects: Seq<HitObjectView>,
    creator: usize,
    object: HitObjectView,
    id: HitObjectId,
) -> Selection {
    selection(with_created(objects, creator, object, id), creator, seq![id], true, true)
}

/// The session after `creator` created `object`. An invalid payload changes
/// nothing, the id counter included.
pub open spec fn after_creation(
    session: EditorSessionView,
    creator: usize,
    object: HitObjectView,
) -> EditorSessionView {
    if object.is_valid() {
        EditorSessionView {
            state: EditorStateView {
                hit_objects: creation_selection(
                    session.state.hit_objects,
                    creator,
                    object,
                    session.state.next_hit_object_id,
                ).objects,
                next_hit_object_id: counter_after(session.state.next_hit_object_id),
                ..session.state
            },
            ..session
        }
    } else {
        session
    }
}

/// The notices of a creation: the evictions, the creation itself as the
/// answer to the request, and the change of the creator's selection.
pub open spec fn creation_notices(
    session: EditorSessionView,
    creator: usize,
    object: HitObjectView,
    response_id: Option<Seq<char>>,
) -> Seq<DispatcherMessageView> {
    if object.is_valid() {
        let objects = session.state.hit_objects;
        let id = session.state.next_hit_object_id;
        deletion_notices(eviction(objects, creator, object.start_time).deleted).push(
            DispatcherMessageView {
                message: ServerToClientMessageView {
                    response_id,
                    command: ServerCommandView::HitObjectCreated(
                        created_object(object, id, creator),
                    ),
                },
                presences: None,
            },
        ) + selection_notices(creation_selection(objects, creator, object, id), creator)
    } else {
        Seq::empty()
    }
}

/// A creation keeps sorted objects sorted.
pub proof fn lemma_creation_keeps_order(
    session: EditorSessionView,
    creator: usize,
    object: HitObjectView,
)
    requires
        sorted(session.state.hit_objects),
    ensures
        sorted(after_creation(session, creator, object).state.hit_objects),
{
    if object.is_valid() {
        let objects = session.state.hit_objects;
        let id = session.state.next_hit_object_id;
        lemma_deletion_keeps_order(objects, creator, overlapping(objects, object.start_time), true);
        lemma_insert_sorted_keeps_order(
            eviction(objects, creator, object.start_time).objects,
            created_object(object, id, creator),
        );
        lemma_selection_keeps_order(
            with_created(objects, creator, object, id),
            creator,
            seq![id],
            true,
            true,
        );
    }
}

/// While the ids in use lie below the counter, a creation leaves every
/// object with an id of its own: the new object takes the id at the counter,
/// which no object carried.
pub proof fn lemma_creation_keeps_ids_distinct(
    session: EditorSessionView,
    creator: usize,
    object: HitObjectView,
)
    requires
        sorted(session.state.hit_objects),
        distinct_ids(session.state.hit_objects),
        ids_below(session.state.hit_objects, session.state.next_hit_object_id as int),
    ensures
        distinct_ids(after_creation(session, creator, object).state.hit_objects),
{
    if object.is_valid() {
        let objects = session.state.hit_objects;
        let id = session.state.next_hit_object_id;
        let evictable = overlapping(objects, object.start_time);
        let evicted = eviction(objects, creator, object.start_time).objects;
        lemma_deletion_keeps_order(objects, creator, evictable, true);
        lemma_deletion_keeps_ids_distinct(objects, creator, evictable, true);
        lemma_deletion_keeps_ids_below(objects, creator, evictable, true, id as int);
        lemma_insert_sorted_keeps_ids_distinct(evicted, created_object(object, id, creator));
        lemma_selection_keeps_ids_distinct(
            with_created(objects, creator, object, id),
            creator,
            seq![id],
            true,
            true,
        );
    }
}

/// While the ids in use lie below the counter and the counter has an id
/// left, a creation keeps them below it: the new object takes the id at the
/// counter, which no object carried, and the counter moves on.
pub proof fn lemma_creation_keeps_ids_below(
    session: EditorSessionView,
    creator: usize,
    object: HitObjectView,
)
    requires
        sorted(session.state.hit_objects),
        ids_below(session.state.hit_objects, session.state.next_hit_object_id as int),
        session.state.next_hit_object_id < u32::MAX,
    ensures
        ids_below(
            after_creation(session, creator, object).state.hit_objects,
            after_creation(session, creator, object).state.next_hit_object_id as int,
        ),
{
    if object.is_valid() {
        let objects = session.state.hit_objects;
        let id = session.state.next_hit_object_id;
        let bound = id + 1;
        let evictable = overlapping(objects, object.start_time);
        let evicted = eviction(objects, creator, object.start_time).objects;
        assert(ids_below(objects, bound));
        lemma_deletion_keeps_order(objects, creator, evictable, true);
        lemma_deletion_keeps_ids_below(objects, creator, evictable, true, bound);
        lemma_insert_sorted_keeps_ids_below(evicted, created_object(object, id, creator), bound);
        lemma_selection_keeps_ids_below(
            with_created(objects, creator, object, id),
            creator,
            seq![id],
            true,
            true,
            bound,
        );
    }
}

/// Picks the objects that a presence other than `presence` holds.
pub open spec fn held_by_another(presence: usize) -> spec_fn(HitObjectView) -> bool {
    out_of_reach(presence, true)
}

/// A creation never touches what another presence holds: those objects are
/// all still there, each in its place among them and as it was.
pub proof fn lemma_creation_spares_other_locks(
    session: EditorSessionView,
    creator: usize,
    object: HitObjectView,
)
    requires
        sorted(session.state.hit_objects),
    ensures
        same_picked(
            session.state.hit_objects,
            after_creation(session, creator, object).state.hit_objects,
            held_by_another(creator),
        ),
{
    if object.is_valid() {
        let pick = held_by_another(creator);
        let objects = session.state.hit_objects;
        let id = session.state.next_hit_object_id;
        let evicted = eviction(objects, creator, object.start_time).objects;
        let new = created_object(object, id, creator);
        let placed = with_created(objects, creator, object, id);
        let evictable = overlapping(objects, object.start_time);
        lemma_deletion_spares_others(objects, creator, evictable, true);
        lemma_deletion_keeps_order(objects, creator, evictable, true);
        lemma_insertion_index_exists(evicted, new.start_time as int);
        lemma_insert_unpicked(evicted, insertion_index(evicted, new.start_time as int), new, pick);
        let start = release_others(placed, creator, seq![id], true);
        let done = creation_selection(objects, creator, object, id);
        lemma_select_each_keeps_rest(start, creator, seq![id], true);
        lemma_select_each_respects_other_locks(start, creator, seq![id], true);
        lemma_select_each_gives_to_requester_only(start, creator, seq![id], true);
        lemma_change_unpicked(placed, done.objects, pick);
    }
}

/// The turns of a selection give locks to the requester and to nobody else:
/// whoever else holds an object afterwards held it before.
pub proof fn lemma_select_each_gives_to_requester_only(
    start: Selection,
    requester: usize,
    ids: Seq<HitObjectId>,
    selected: bool,
)
    ensures
        ({
            let done = select_each(start, requester, ids, selected);
            &&& done.objects.len() == start.objects.len()
            &&& forall|i: int|
                0 <= i < start.objects.len() && (#[trigger] done.objects[i]).selected_by is Some
                    && done.objects[i].selected_by != Some(requester)
                    ==> start.objects[i].selected_by == done.objects[i].selected_by
        }),
    decreases ids.len(),
{
    if ids.len() > 0 {
        lemma_select_each_gives_to_requester_only(start, requester, ids.drop_last(), selected);
    }
}

/// A valid creation leaves the new object in the store, under the next id and
/// locked by its creator.
pub proof fn lemma_creation_stores_the_object(
    session: EditorSessionView,
    creator: usize,
    object: HitObjectView,
)
    requires
        sorted(session.state.hit_objects),
        object.is_valid(),
    ensures
        after_creation(session, creator, object).state.hit_objects.contains(
            created_object(object, session.state.next_hit_object_id, creator),
        ),
{
    let objects = session.state.hit_objects;
    let id = session.state.next_hit_object_id;
    let evicted = eviction(objects, creator, object.start_time).objects;
    let new = created_object(object, id, creator);
    let placed = with_created(objects, creator, object, id);
    lemma_deletion_keeps_order(objects, creator, overlapping(objects, object.start_time), true);
    lemma_insertion_index_exists(evicted, new.start_time as int);
    let place = insertion_index(evicted, new.start_time as int);
    let ids = seq![id];
    assert(ids[0] == id);
    let start = release_others(placed, creator, ids, true);
    let done = select_one(start, creator, id, true);
    assert(select_each(start, creator, ids, true) == done) by {
        assert(select_each(start, creator, ids.drop_last(), true) == start);
    }
    assert(done.objects[place] == new);
}

/// Creates `hit_object` for `presence`. An invalid payload is dropped. A valid
/// one first evicts the objects that start at the same time, except those
/// that another presence holds; then it enters the store under the next id,
/// locked by `presence`, and `presence` gives up the locks it held before.
/// Everybody hears of each eviction, of the creation, which answers the
/// request `response_id`, and of the locks that changed. While the ids in
/// use lie below the counter, the new id is one that no object carried.
pub fn handle_create_hitobject(
    session: &mut EditorSession,
    presence: &Presence,
    hit_object: HitObject,
    response_id: Option<String>,
    dispatcher: &mut Dispatcher,
)
    ensures
        final(session)@ == after_creation(old(session)@, presence.id, hit_object@),
        final(dispatcher)@ == old(dispatcher)@ + creation_notices(
            old(session)@,
            presence.id,
            hit_object@,
            text_view(response_id),
        ),
        hit_object@.is_valid() ==> final(session)@.state.hit_objects.contains(
            created_object(hit_object@, old(session)@.state.next_hit_object_id, presence.id),
        ),
        same_picked(
            old(session)@.state.hit_objects,
            final(session)@.state.hit_objects,
            held_by_another(presence.id),
        ),
        old(session)@.state.ids_fresh() ==> id_unused(
            old(session)@.state.hit_objects,
            old(session)@.state.next_hit_object_id,
        ),
        old(session)@.state.ids_fresh() && old(session)@.state.next_hit_object_id < u32::MAX
            ==> final(session)@.state.ids_fresh(),
        sorted(final(session)@.state.hit_objects),
{
    let mut created = hit_object;
    proof {
        use_type_invariant(&session.state.hit_objects);
        if session@.state.ids_fresh() && session@.state.next_hit_object_id < u32::MAX {
            lemma_creation_keeps_ids_below(session@, presence.id, hit_object@);
        }
        lemma_creation_spares_other_locks(session@, presence.id, hit_object@);
        if hit_object@.is_valid() {
            lemma_creation_stores_the_object(session@, presence.id, hit_object@);
        }
    }
    if !created.is_valid() {
        return ;
    }
    let overlapping: Vec<HitObjectId> = ids_of_objects(
        &session.state.hit_objects.find_by_start_time(created.start_time),
    );
    handle_delete_hitobjects(session, presence, overlapping, dispatcher, true);
    created.id = HitObject::next_id(&mut session.state.next_hit_object_id);
    created.selected_by = Some(presence.id);
    session.state.hit_objects.insert_hitobject(created.clone());
    let id: HitObjectId = created.id;
    dispatcher.broadcast_response(ServerCommand::HitObjectCreated(created), response_id, None);
    let mut ids: Vec<HitObjectId> = Vec::new();
    ids.push(id);
    handle_hitobject_selection(session, presence, ids, true, true, dispatcher);
}

/// The ids of borrowed hit objects, in order.
pub fn ids_of_objects(objects: &Vec<&HitObject>) -> (ids: Vec<HitObjectId>)
    ensures
        ids@ == ids_of(ref_views(objects@)),
{
    let mut ids: Vec<HitObjectId> = Vec::new();
    let mut index: usize = 0;
    while index < objects.len()
        invariant
            index <= objects.len(),
            ids@ == ids_of(ref_views(objects@.take(index as int))),
        decreases objects.len() - index,
    {
        ids.push(objects[index].id);
        index += 1;
    }
    ids
}

} // verus!
