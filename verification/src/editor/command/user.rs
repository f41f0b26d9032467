use crate::editor::command::messages::{
    plain, record_views, SerializedUserInfo, SerializedUserInfoView, ServerCommand,
    ServerCommandView, ServerState, ServerStateView,
};
use crate::editor::dispatcher::{to_all, Dispatcher, DispatcherMessageView};
use crate::editor::state::hitobject::{
    clone_hit_objects, held_by, held_outside, ids_of, lemma_same_pick, released,
};
use crate::editor::state::order::{
    distinct_ids, lemma_position_absent, lemma_position_is_first, lemma_same_ids_stay_below,
    lemma_same_ids_stay_distinct, position_of_id, sorted, Identified,
};
use crate::editor::state::user::{swap_removed, user_views, UserInfo, UserInfoView};
use crate::editor::state::EditorStateView;
use crate::editor::{EditorSession, EditorSessionView, Presence, PresenceView};
use crate::util::{copy_vec, Vec2};
use vstd::prelude::*;

verus! {

/// The session with other users, and all else as it was.
pub open spec fn with_users(
    session: EditorSessionView,
    users: Seq<UserInfoView>,
) -> EditorSessionView {
    EditorSessionView { state: EditorStateView { users, ..session.state }, ..session }
}

/// A user as it is when it joins: no cursor yet, at the start of the song.
pub open spec fn new_user(presence: PresenceView) -> UserInfoView {
    UserInfoView { presence, cursor_pos: None, current_time: 0 }
}

/// What the clients see of each user, in order.
pub open spec fn user_list(users: Seq<UserInfoView>) -> Seq<SerializedUserInfoView> {
    users.map_values(|user: UserInfoView| SerializedUserInfoView::of(user))
}

/// The document as a joining client gets it.
pub open spec fn document(session: EditorSessionView) -> ServerStateView {
    ServerStateView {
        difficulty: session.state.difficulty,
        hit_objects: session.state.hit_objects,
        timing_points: session.state.timing,
    }
}

/// A command for the presence `id` alone that answers no request.
pub open spec fn to_one(command: ServerCommandView, id: usize) -> DispatcherMessageView {
    DispatcherMessageView { message: plain(command), presences: Some(seq![id]) }
}

/// The session after the arrival of the presence `id` was handled: the first
/// presence that carries `id` is the last of the users. If no presence
/// carries `id`, nothing changes.
pub open spec fn after_join(session: EditorSessionView, id: usize) -> EditorSessionView {
    match position_of_id(session.presences, id as int) {
        Some(index) => with_users(
            session,
            session.state.users.push(new_user(session.presences[index])),
        ),
        None => session,
    }
}

/// The notices of an arrival, in order: the newcomer learns its id, everybody
/// learns of the newcomer and gets the list of users, and the newcomer gets
/// the document.
pub open spec fn join_notices(session: EditorSessionView, id: usize) -> Seq<DispatcherMessageView> {
    match position_of_id(session.presences, id as int) {
        Some(index) => {
            let user = new_user(session.presences[index]);
            seq![
                to_one(ServerCommandView::OwnId(id), id),
                to_all(ServerCommandView::UserJoined(SerializedUserInfoView::of(user))),
                to_all(ServerCommandView::UserList(user_list(session.state.users.push(user)))),
                to_one(ServerCommandView::State(document(session)), id),
            ]
        },
        None => Seq::empty(),
    }
}

/// What the clients see of `users`, in order.
pub fn serialize_users(users: &Vec<UserInfo>) -> (list: Vec<SerializedUserInfo>)
    ensures
        record_views(list@) == user_list(user_views(users@)),
{
    let mut list: Vec<SerializedUserInfo> = Vec::new();
    let mut index: usize = 0;
    while index < users.len()
        invariant
            index <= users.len(),
            record_views(list@) == user_list(user_views(users@.take(index as int))),
        decreases users.len() - index,
    {
        list.push(SerializedUserInfo::from(&users[index]));
        assert(user_list(user_views(users@.take(index + 1))) =~= user_list(
            user_views(users@.take(index as int)),
        ).push(SerializedUserInfoView::of(users@[index as int]@)));
        index += 1;
    }
    list
}

/// The handling of an arrival keeps every id in use below its counter: the
/// new user carries the id of a presence.
pub proof fn lemma_join_keeps_ids_fresh(session: EditorSessionView, id: usize)
    requires
        session.ids_fresh(),
    ensures
        after_join(session, id).ids_fresh(),
{
    lemma_position_is_first(session.presences, id as int);
    if let Some(index) = position_of_id(session.presences, id as int) {
        let users = session.state.users;
        let after = users.push(new_user(session.presences[index]));
        assert forall|i: int| 0 <= i < after.len() implies (#[trigger] after[i]).ident()
            < session.next_presence_id by {
            if i < users.len() {
                assert(after[i] == users[i]);
            }
        }
    }
}

/// Handles the arrival of the presence `id`: it becomes a user, it is told
/// its id and sent the document, and everybody is told of it and sent the
/// list of users. Does nothing if no presence carries `id`.
pub fn handle_join(session: &mut EditorSession, id: usize, dispatcher: &mut Dispatcher)
    ensures
        final(session)@ == after_join(old(session)@, id),
        final(dispatcher)@ == old(dispatcher)@ + join_notices(old(session)@, id),
        old(session)@.ids_fresh() ==> final(session)@.ids_fresh(),
{
    proof {
        if session@.ids_fresh() {
            lemma_join_keeps_ids_fresh(session@, id);
        }
    }
    if let Some(presence) = session.presence(id) {
        let user = UserInfo { presence, cursor_pos: None, current_time: 0 };
        let info = SerializedUserInfo::from(&user);
        session.state.users.add_user(user);
        let mut newcomer: Vec<usize> = Vec::new();
        newcomer.push(id);
        dispatcher.broadcast(ServerCommand::OwnId(id), Some(copy_vec(&newcomer)));
        dispatcher.broadcast(ServerCommand::UserJoined(info), None);
        dispatcher.broadcast(
            ServerCommand::UserList(serialize_users(session.state.users.all())),
            None,
        );
        dispatcher.broadcast(
            ServerCommand::State(
                ServerState {
                    difficulty: session.state.difficulty,
                    hit_objects: clone_hit_objects(session.state.hit_objects.all()),
                    timing_points: copy_vec(session.state.timing.all()),
                },
            ),
            Some(newcomer),
        );
    }
}

/// The session after the departure of the presence `id` was handled: the
/// first user that carries `id` is gone, and no hit object is locked by `id`
/// any more. If no user carries `id`, nothing changes.
pub open spec fn after_leave(session: EditorSessionView, id: usize) -> EditorSessionView {
    match position_of_id(session.state.users, id as int) {
        Some(index) => EditorSessionView {
            state: EditorStateView {
                users: swap_removed(session.state.users, index),
                hit_objects: released(session.state.hit_objects, held_by(id)),
                ..session.state
            },
            ..session
        },
        None => session,
    }
}

/// The ids of the objects that the presence `id` holds, in the store's order.
pub open spec fn held_ids(session: EditorSessionView, id: usize) -> Seq<u32> {
    ids_of(session.state.hit_objects.filter(held_by(id)))
}

/// The notices of a departure: everybody learns that the user left and, if
/// it held any lock, which objects are free again.
pub open spec fn leave_notices(session: EditorSessionView, id: usize) -> Seq<
    DispatcherMessageView,
> {
    match position_of_id(session.state.users, id as int) {
        Some(index) => {
            let user = SerializedUserInfoView::of(session.state.users[index]);
            let gone = seq![to_all(ServerCommandView::UserLeft(user))];
            if held_ids(session, id).len() > 0 {
                gone.push(
                    to_all(
                        ServerCommandView::HitObjectSelected {
                            ids: held_ids(session, id),
                            selected_by: None,
                        },
                    ),
                )
            } else {
                gone
            }
        },
        None => Seq::empty(),
    }
}

/// Once the departure of a user is handled, no hit object is locked by its
/// id, and the locks of all others are as they were.
pub proof fn lemma_leave_frees_all(session: EditorSessionView, id: usize)
    requires
        position_of_id(session.state.users, id as int) is Some,
    ensures
        ({
            let before = session.state.hit_objects;
            let after = after_leave(session, id).state.hit_objects;
            &&& after.len() == before.len()
            &&& forall|i: int|
                0 <= i < after.len() ==> (#[trigger] after[i]).selected_by != Some(id)
            &&& forall|i: int|
                0 <= i < after.len() && before[i].selected_by != Some(id) ==> #[trigger] after[i]
                    == before[i]
        }),
{
}

/// The handling of a departure keeps sorted objects sorted.
pub proof fn lemma_leave_keeps_order(session: EditorSessionView, id: usize)
    requires
        sorted(session.state.hit_objects),
    ensures
        sorted(after_leave(session, id).state.hit_objects),
{
}

/// The handling of a departure keeps every id in use below its counter.
pub proof fn lemma_leave_keeps_ids_fresh(session: EditorSessionView, id: usize)
    requires
        session.ids_fresh(),
    ensures
        after_leave(session, id).ids_fresh(),
{
    lemma_position_is_first(session.state.users, id as int);
    if let Some(index) = position_of_id(session.state.users, id as int) {
        let users = session.state.users;
        let after = swap_removed(users, index);
        assert forall|i: int| 0 <= i < after.len() implies (#[trigger] after[i]).ident()
            < session.next_presence_id by {
            if i == index {
                assert(after[i] == users[users.len() - 1]);
            } else {
                assert(after[i] == users[i]);
            }
        }
        lemma_same_ids_stay_below(
            session.state.hit_objects,
            released(session.state.hit_objects, held_by(id)),
            session.state.next_hit_object_id as int,
        );
    }
}

/// The handling of a departure leaves every hit object with an id of its
/// own.
pub proof fn lemma_leave_keeps_ids_distinct(session: EditorSessionView, id: usize)
    requires
        session.state.ids_distinct(),
    ensures
        after_leave(session, id).state.ids_distinct(),
{
    lemma_same_ids_stay_distinct(
        session.state.hit_objects,
        released(session.state.hit_objects, held_by(id)),
    );
}

/// Where no two users carry one id, the handling of a departure leaves no
/// user that carries the id.
pub proof fn lemma_leave_removes_the_user(session: EditorSessionView, id: usize)
    requires
        distinct_ids(session.state.users),
    ensures
        position_of_id(after_leave(session, id).state.users, id as int) is None,
{
    lemma_position_is_first(session.state.users, id as int);
    let users = session.state.users;
    let after = after_leave(session, id).state.users;
    if let Some(index) = position_of_id(users, id as int) {
        assert forall|i: int| 0 <= i < after.len() implies (#[trigger] after[i]).ident()
            != id by {
            if i == index {
                assert(after[i] == users[users.len() - 1]);
                assert(users[index].ident() != users[users.len() - 1].ident());
            } else {
                assert(after[i] == users[i]);
                if i < index {
                    assert(users[i].ident() != users[index].ident());
                } else {
                    assert(users[index].ident() != users[i].ident());
                }
            }
        }
    }
    lemma_position_absent(after, id as int);
}

/// Handles the departure of the presence `id`: its user goes, its locks are
/// given up, and everybody is told of both. Does nothing if no user carries
/// `id`.
pub fn handle_leave(session: &mut EditorSession, id: usize, dispatcher: &mut Dispatcher)
    ensures
        final(session)@ == after_leave(old(session)@, id),
        final(dispatcher)@ == old(dispatcher)@ + leave_notices(old(session)@, id),
        position_of_id(old(session)@.state.users, id as int) is Some ==> forall|i: int|
            0 <= i < final(session)@.state.hit_objects.len() ==> (
            #[trigger] final(session)@.state.hit_objects[i]).selected_by != Some(id),
        distinct_ids(old(session)@.state.users) ==> position_of_id(
            final(session)@.state.users,
            id as int,
        ) is None,
        old(session)@.ids_fresh() ==> final(session)@.ids_fresh(),
{
    proof {
        if distinct_ids(session@.state.users) {
            lemma_leave_removes_the_user(session@, id);
        }
        if session@.ids_fresh() {
            lemma_leave_keeps_ids_fresh(session@, id);
        }
    }
    match session.state.users.remove_user(id) {
        Some(user) => dispatcher.broadcast(
            ServerCommand::UserLeft(SerializedUserInfo::from(&user)),
            None,
        ),
        None => {
            return ;
        },
    };
    let nothing: Vec<u32> = Vec::new();
    proof {
        lemma_same_pick(session@.state.hit_objects, held_outside(id, nothing@), held_by(id));
    }
    let user_selection = session.state.hit_objects.release_selected_by(id, &nothing);
    if user_selection.len() > 0 {
        dispatcher.broadcast(
            ServerCommand::HitObjectSelected { ids: user_selection, selected_by: None },
            None,
        );
    }
}

/// The session after the first user that carries `id` became `change` of
/// itself. If no user carries `id`, nothing changes.
pub open spec fn with_user_changed(
    session: EditorSessionView,
    id: usize,
    change: spec_fn(UserInfoView) -> UserInfoView,
) -> EditorSessionView {
    match position_of_id(session.state.users, id as int) {
        Some(index) => with_users(
            session,
            session.state.users.update(index, change(session.state.users[index])),
        ),
        None => session,
    }
}

/// A change of a user that leaves its presence alone keeps every id in use
/// below its counter.
pub proof fn lemma_user_change_keeps_ids_fresh(
    session: EditorSessionView,
    id: usize,
    change: spec_fn(UserInfoView) -> UserInfoView,
)
    requires
        session.ids_fresh(),
        forall|user: UserInfoView| (#[trigger] change(user)).presence == user.presence,
    ensures
        with_user_changed(session, id, change).ids_fresh(),
{
    lemma_position_is_first(session.state.users, id as int);
    if let Some(index) = position_of_id(session.state.users, id as int) {
        let users = session.state.users;
        let after = users.update(index, change(users[index]));
        assert forall|i: int| 0 <= i < after.len() implies (#[trigger] after[i]).ident()
            < session.next_presence_id by {
            if i != index {
                assert(after[i] == users[i]);
            } else {
                assert(users[index].ident() < session.next_presence_id);
            }
        }
    }
}

/// Puts the cursor of a user at `pos`.
pub open spec fn cursor_at(pos: Vec2) -> spec_fn(UserInfoView) -> UserInfoView {
    |user: UserInfoView| UserInfoView { cursor_pos: Some(pos), ..user }
}

/// Puts the playback of a user at `time`.
pub open spec fn playback_at(time: i32) -> spec_fn(UserInfoView) -> UserInfoView {
    |user: UserInfoView| UserInfoView { current_time: time, ..user }
}

/// Records where the cursor of `presence` is. The next tick reports it.
pub fn handle_cursorpos(session: &mut EditorSession, presence: &Presence, pos: Vec2)
    ensures
        final(session)@ == with_user_changed(old(session)@, presence.id, cursor_at(pos)),
        old(session)@.ids_fresh() ==> final(session)@.ids_fresh(),
{
    proof {
        if session@.ids_fresh() {
            lemma_user_change_keeps_ids_fresh(session@, presence.id, cursor_at(pos));
        }
    }
    if let Some(user) = session.state.users.find_mut(presence.id) {
        user.cursor_pos = Some(pos)
    }
}

/// Records what time `presence` is looking at. The next tick reports it.
pub fn handle_current_time(session: &mut EditorSession, presence: &Presence, time: i32)
    ensures
        final(session)@ == with_user_changed(old(session)@, presence.id, playback_at(time)),
        old(session)@.ids_fresh() ==> final(session)@.ids_fresh(),
{
    proof {
        if session@.ids_fresh() {
            lemma_user_change_keeps_ids_fresh(session@, presence.id, playback_at(time));
        }
    }
    if let Some(user) = session.state.users.find_mut(presence.id) {
        user.current_time = time
    }
}

} // verus!
