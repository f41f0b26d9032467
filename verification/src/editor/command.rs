use crate::editor::command::hitobject::{
    after_creation, creation_notices, deletion, deletion_notices, handle_create_hitobject,
    handle_delete_hitobjects, handle_hitobject_selection, handle_update_hitobject,
    lemma_creation_keeps_ids_below, lemma_creation_keeps_ids_distinct,
    lemma_creation_keeps_order, lemma_deletion_keeps_ids_below,
    lemma_deletion_keeps_ids_distinct, lemma_selection_keeps_ids_distinct,
    lemma_update_keeps_ids_distinct,
    lemma_deletion_keeps_order, lemma_selection_keeps_ids_below, lemma_selection_keeps_order,
    lemma_update_keeps_ids_below, lemma_update_keeps_order, selection, selection_notices,
    update_accepted, update_value, updated, with_hit_objects,
};
use crate::editor::command::messages::{
    ClientCommand, ClientCommandView, ClientToServerMessage, ClientToServerMessageView,
    ServerCommand, ServerCommandView,
};
use crate::editor::command::timing::{
    after_timing_creation, created_point, handle_create_timing_point, handle_delete_timing_point,
    handle_update_timing_point, lemma_timing_creation_keeps_ids_below,
    lemma_timing_creation_keeps_ids_distinct, lemma_timing_deletion_keeps_ids_distinct,
    lemma_timing_update_keeps_ids_distinct,
    lemma_timing_deletion_keeps_ids_below, lemma_timing_deletion_keeps_order,
    lemma_timing_update_keeps_ids_below, timing_deletion, timing_deletion_notices,
    timing_updated, with_timing,
};
use crate::editor::command::user::{
    after_join, after_leave, cursor_at, handle_current_time, handle_cursorpos, handle_join,
    handle_leave, join_notices, leave_notices, lemma_join_keeps_ids_fresh,
    lemma_leave_keeps_ids_distinct,
    lemma_leave_keeps_ids_fresh, lemma_leave_keeps_order, lemma_user_change_keeps_ids_fresh,
    playback_at, with_user_changed,
};
use crate::editor::dispatcher::{to_all, Dispatcher, DispatcherMessageView};
use crate::editor::state::order::{
    lemma_insert_sorted_keeps_order, lemma_position_is_first, lemma_replace_sorted_keeps_order,
    position_of_id, sorted,
};
use crate::editor::state::EditorEvent;
use crate::editor::{EditorSession, EditorSessionView, Presence};
use vstd::prelude::*;

pub mod hitobject;
pub mod messages;
pub mod timing;
pub mod user;

verus! {

/// The session after `event` was handled.
pub open spec fn after_event(session: EditorSessionView, event: EditorEvent) -> EditorSessionView {
    match event {
        EditorEvent::UserJoined { id } => after_join(session, id),
        EditorEvent::UserLeft { id } => after_leave(session, id),
    }
}

/// What the handling of `event` announces.
pub open spec fn event_notices(session: EditorSessionView, event: EditorEvent) -> Seq<
    DispatcherMessageView,
> {
    match event {
        EditorEvent::UserJoined { id } => join_notices(session, id),
        EditorEvent::UserLeft { id } => leave_notices(session, id),
    }
}

/// Handles a change of the roster that waited for this tick.
pub fn handle_editor_event(
    session: &mut EditorSession,
    event: EditorEvent,
    dispatcher: &mut Dispatcher,
)
    ensures
        final(session)@ == after_event(old(session)@, event),
        final(dispatcher)@ == old(dispatcher)@ + event_notices(old(session)@, event),
        old(session)@.ids_fresh() ==> final(session)@.ids_fresh(),
{
    match event {
        EditorEvent::UserJoined { id } => handle_join(session, id, dispatcher),
        EditorEvent::UserLeft { id } => handle_leave(session, id, dispatcher),
    }
}

/// The session after the command of `message`, sent by `requester`, was
/// handled.
pub open spec fn after_command(
    session: EditorSessionView,
    message: ClientToServerMessageView,
    requester: usize,
) -> EditorSessionView {
    let objects = session.state.hit_objects;
    match message.command {
        ClientCommandView::CursorPos(pos) => with_user_changed(session, requester, cursor_at(pos)),
        ClientCommandView::CurrentTime(time) => with_user_changed(
            session,
            requester,
            playback_at(time),
        ),
        ClientCommandView::CreateHitObject(object) => after_creation(session, requester, object),
        ClientCommandView::UpdateHitObject(object) => with_hit_objects(
            session,
            updated(objects, requester, object.id, object),
        ),
        ClientCommandView::DeleteHitObject(ids) => with_hit_objects(
            session,
            deletion(objects, requester, ids, false).objects,
        ),
        ClientCommandView::SelectHitObject { ids, selected, unique } => with_hit_objects(
            session,
            selection(objects, requester, ids, unique, selected).objects,
        ),
        ClientCommandView::CreateTimingPoint(point) => after_timing_creation(session, point),
        ClientCommandView::UpdateTimingPoint(point) => with_timing(
            session,
            timing_updated(session.state.timing, point),
        ),
        ClientCommandView::DeleteTimingPoint(ids) => with_timing(
            session,
            timing_deletion(session.state.timing, ids).points,
        ),
        ClientCommandView::SetHitObjectOverrides { .. } => session,
    }
}

/// What the handling of the command of `message`, sent by `requester`,
/// announces.
pub open spec fn command_notices(
    session: EditorSessionView,
    message: ClientToServerMessageView,
    requester: usize,
) -> Seq<DispatcherMessageView> {
    let objects = session.state.hit_objects;
    match message.command {
        ClientCommandView::CursorPos(_) => Seq::empty(),
        ClientCommandView::CurrentTime(_) => Seq::empty(),
        ClientCommandView::CreateHitObject(object) => creation_notices(
            session,
            requester,
            object,
            message.response_id,
        ),
        ClientCommandView::UpdateHitObject(object) => if update_accepted(
            objects,
            requester,
            object.id,
            object,
        ) {
            seq![
                to_all(
                    ServerCommandView::HitObjectUpdated(
                        update_value(object, object.id, requester),
                    ),
                ),
            ]
        } else {
            Seq::empty()
        },
        ClientCommandView::DeleteHitObject(ids) => deletion_notices(
            deletion(objects, requester, ids, false).deleted,
        ),
        ClientCommandView::SelectHitObject { ids, selected, unique } => selection_notices(
            selection(objects, requester, ids, unique, selected),
            requester,
        ),
        ClientCommandView::CreateTimingPoint(point) => seq![
            to_all(ServerCommandView::TimingPointCreated(created_point(session, point))),
        ],
        ClientCommandView::UpdateTimingPoint(point) => if position_of_id(
            session.state.timing,
            point.id as int,
        ) is Some {
            seq![to_all(ServerCommandView::TimingPointUpdated(point))]
        } else {
            Seq::empty()
        },
        ClientCommandView::DeleteTimingPoint(ids) => timing_deletion_notices(
            timing_deletion(session.state.timing, ids).deleted,
        ),
        ClientCommandView::SetHitObjectOverrides { id, overrides } => seq![
            to_all(ServerCommandView::HitObjectOverridden { id, overrides }),
        ],
    }
}

/// Both ordered stores of the session are in order.
pub open spec fn in_order(session: EditorSessionView) -> bool {
    sorted(session.state.hit_objects) && sorted(session.state.timing)
}

/// Whatever a client commands, and whoever the client is, the stores stay
/// in order.
pub proof fn lemma_command_keeps_order(
    session: EditorSessionView,
    message: ClientToServerMessageView,
    requester: usize,
)
    requires
        in_order(session),
    ensures
        in_order(after_command(session, message, requester)),
{
    let objects = session.state.hit_objects;
    let points = session.state.timing;
    match message.command {
        ClientCommandView::CreateHitObject(object) => {
            lemma_creation_keeps_order(session, requester, object);
        },
        ClientCommandView::UpdateHitObject(object) => {
            lemma_update_keeps_order(objects, requester, object.id, object);
        },
        ClientCommandView::DeleteHitObject(ids) => {
            lemma_deletion_keeps_order(objects, requester, ids, false);
        },
        ClientCommandView::SelectHitObject { ids, selected, unique } => {
            lemma_selection_keeps_order(objects, requester, ids, unique, selected);
        },
        ClientCommandView::CreateTimingPoint(point) => {
            lemma_insert_sorted_keeps_order(points, created_point(session, point));
        },
        ClientCommandView::UpdateTimingPoint(point) => {
            if let Some(index) = position_of_id(points, point.id as int) {
                lemma_replace_sorted_keeps_order(points, index, point);
            }
        },
        ClientCommandView::DeleteTimingPoint(ids) => {
            lemma_timing_deletion_keeps_order(points, ids);
        },
        _ => {},
    }
}

/// Whatever change of the roster is handled, the stores stay in order.
pub proof fn lemma_event_keeps_order(session: EditorSessionView, event: EditorEvent)
    requires
        in_order(session),
    ensures
        in_order(after_event(session, event)),
{
    match event {
        EditorEvent::UserJoined { id } => {},
        EditorEvent::UserLeft { id } => {
            lemma_leave_keeps_order(session, id);
        },
    }
}

/// Whatever change of the roster is handled, every id in use stays below its
/// counter, and the counters of the document stay where they are.
pub proof fn lemma_event_keeps_ids_fresh(session: EditorSessionView, event: EditorEvent)
    requires
        session.ids_fresh(),
    ensures
        after_event(session, event).ids_fresh(),
        after_event(session, event).state.next_hit_object_id
            == session.state.next_hit_object_id,
        after_event(session, event).state.next_timing_point_id
            == session.state.next_timing_point_id,
{
    match event {
        EditorEvent::UserJoined { id } => {
            lemma_join_keeps_ids_fresh(session, id);
        },
        EditorEvent::UserLeft { id } => {
            lemma_leave_keeps_ids_fresh(session, id);
        },
    }
}

/// Whatever a client commands, every hit object and every timing point keeps
/// an id of its own, as long as the ids in use lie below their counters.
pub proof fn lemma_command_keeps_ids_distinct(
    session: EditorSessionView,
    message: ClientToServerMessageView,
    requester: usize,
)
    requires
        in_order(session),
        session.state.ids_fresh(),
        session.state.ids_distinct(),
    ensures
        after_command(session, message, requester).state.ids_distinct(),
{
    let objects = session.state.hit_objects;
    let points = session.state.timing;
    match message.command {
        ClientCommandView::CreateHitObject(object) => {
            lemma_creation_keeps_ids_distinct(session, requester, object);
        },
        ClientCommandView::UpdateHitObject(object) => {
            lemma_update_keeps_ids_distinct(objects, requester, object.id, object);
        },
        ClientCommandView::DeleteHitObject(ids) => {
            lemma_deletion_keeps_ids_distinct(objects, requester, ids, false);
        },
        ClientCommandView::SelectHitObject { ids, selected, unique } => {
            lemma_selection_keeps_ids_distinct(objects, requester, ids, unique, selected);
        },
        ClientCommandView::CreateTimingPoint(point) => {
            lemma_timing_creation_keeps_ids_distinct(session, point);
        },
        ClientCommandView::UpdateTimingPoint(point) => {
            lemma_timing_update_keeps_ids_distinct(points, point);
        },
        ClientCommandView::DeleteTimingPoint(ids) => {
            lemma_timing_deletion_keeps_ids_distinct(points, ids);
        },
        _ => {},
    }
}

/// Whatever change of the roster is handled, every hit object and every
/// timing point keeps an id of its own.
pub proof fn lemma_event_keeps_ids_distinct(session: EditorSessionView, event: EditorEvent)
    requires
        session.state.ids_distinct(),
    ensures
        after_event(session, event).state.ids_distinct(),
{
    match event {
        EditorEvent::UserJoined { id } => {},
        EditorEvent::UserLeft { id } => {
            lemma_leave_keeps_ids_distinct(session, id);
        },
    }
}

/// A command leaves the users in their places and each with its id.
pub proof fn lemma_command_keeps_user_ids(
    session: EditorSessionView,
    message: ClientToServerMessageView,
    requester: usize,
)
    ensures
        after_command(session, message, requester).state.users.len()
            == session.state.users.len(),
        forall|i: int|
            0 <= i < session.state.users.len() ==> (#[trigger] after_command(
                session,
                message,
                requester,
            ).state.users[i]).presence.id == session.state.users[i].presence.id,
        after_command(session, message, requester).state.events == session.state.events,
        after_command(session, message, requester).next_presence_id == session.next_presence_id,
{
    lemma_position_is_first(session.state.users, requester as int);
}

/// Whatever a client commands, every id in use stays below its counter, as
/// long as each counter of the document has an id left. A command moves each
/// of these counters on by one at most.
pub proof fn lemma_command_keeps_ids_fresh(
    session: EditorSessionView,
    message: ClientToServerMessageView,
    requester: usize,
)
    requires
        in_order(session),
        session.ids_fresh(),
        session.state.has_room(1),
    ensures
        after_command(session, message, requester).ids_fresh(),
        session.state.next_hit_object_id <= after_command(
            session,
            message,
            requester,
        ).state.next_hit_object_id <= session.state.next_hit_object_id + 1,
        session.state.next_timing_point_id <= after_command(
            session,
            message,
            requester,
        ).state.next_timing_point_id <= session.state.next_timing_point_id + 1,
{
    let objects = session.state.hit_objects;
    let points = session.state.timing;
    let hit_bound = session.state.next_hit_object_id as int;
    let timing_bound = session.state.next_timing_point_id as int;
    match message.command {
        ClientCommandView::CursorPos(pos) => {
            lemma_user_change_keeps_ids_fresh(session, requester, cursor_at(pos));
        },
        ClientCommandView::CurrentTime(time) => {
            lemma_user_change_keeps_ids_fresh(session, requester, playback_at(time));
        },
        ClientCommandView::CreateHitObject(object) => {
            lemma_creation_keeps_ids_below(session, requester, object);
        },
        ClientCommandView::UpdateHitObject(object) => {
            lemma_update_keeps_ids_below(objects, requester, object.id, object, hit_bound);
        },
        ClientCommandView::DeleteHitObject(ids) => {
            lemma_deletion_keeps_ids_below(objects, requester, ids, false, hit_bound);
        },
        ClientCommandView::SelectHitObject { ids, selected, unique } => {
            lemma_selection_keeps_ids_below(objects, requester, ids, unique, selected, hit_bound);
        },
        ClientCommandView::CreateTimingPoint(point) => {
            lemma_timing_creation_keeps_ids_below(session, point);
        },
        ClientCommandView::UpdateTimingPoint(point) => {
            lemma_timing_update_keeps_ids_below(points, point, timing_bound);
        },
        ClientCommandView::DeleteTimingPoint(ids) => {
            lemma_timing_deletion_keeps_ids_below(points, ids, timing_bound);
        },
        ClientCommandView::SetHitObjectOverrides { .. } => {},
    }
}

/// Handles one command of a client. `presence` is the client that sent it:
/// its id is the authority for every check of ownership. A deletion that a
/// client asks for takes only objects that the client holds.
pub fn handle_client_command(
    session: &mut EditorSession,
    message: ClientToServerMessage,
    presence: &Presence,
    dispatcher: &mut Dispatcher,
)
    ensures
        final(session)@ == after_command(old(session)@, message@, presence.id),
        final(dispatcher)@ == old(dispatcher)@ + command_notices(
            old(session)@,
            message@,
            presence.id,
        ),
        in_order(final(session)@),
        old(session)@.ids_fresh() && old(session)@.state.has_room(1)
            ==> final(session)@.ids_fresh(),
{
    proof {
        use_type_invariant(&session.state.hit_objects);
        use_type_invariant(&session.state.timing);
        if session@.ids_fresh() && session@.state.has_room(1) {
            lemma_command_keeps_ids_fresh(session@, message@, presence.id);
        }
    }
    match message.command {
        ClientCommand::CursorPos(cursor_pos) => {
            handle_cursorpos(session, presence, cursor_pos);
        },
        ClientCommand::CurrentTime(time) => {
            handle_current_time(session, presence, time);
        },
        ClientCommand::CreateHitObject(hit_object) => handle_create_hitobject(
            session,
            presence,
            hit_object,
            message.response_id,
            dispatcher,
        ),
        ClientCommand::UpdateHitObject(hit_object) => {
            let id = hit_object.id;
            handle_update_hitobject(session, presence, id, hit_object, dispatcher);
        },
        ClientCommand::DeleteHitObject(ids) => {
            handle_delete_hitobjects(session, presence, ids, dispatcher, false)
        },
        ClientCommand::SelectHitObject { ids, selected, unique } => handle_hitobject_selection(
            session,
            presence,
            ids,
            unique,
            selected,
            dispatcher,
        ),
        ClientCommand::CreateTimingPoint(timing_point) => {
            handle_create_timing_point(session, presence, timing_point, dispatcher);
        },
        ClientCommand::UpdateTimingPoint(timing_point) => {
            handle_update_timing_point(session, presence, timing_point, dispatcher);
        },
        ClientCommand::DeleteTimingPoint(ids) => {
            handle_delete_timing_point(session, presence, ids, dispatcher)
        },
        ClientCommand::SetHitObjectOverrides { id, overrides } => {
            dispatcher.broadcast(ServerCommand::HitObjectOverridden { id, overrides }, None);
        },
    }
    proof {
        use_type_invariant(&session.state.hit_objects);
        use_type_invariant(&session.state.timing);
    }
}

} // verus!
