use gameserver::editor::command::hitobject::{
    handle_create_hitobject, handle_delete_hitobjects, handle_hitobject_selection,
    handle_update_hitobject, ids_of_objects,
};
use gameserver::editor::command::messages::{
    ClientCommand, ClientToServerMessage, HitObjectOverrides, SerializedUserInfo, ServerCommand,
    ServerState, ServerToClientMessage, UserTick,
};
use gameserver::editor::command::timing::{
    handle_create_timing_point, handle_delete_timing_point, handle_update_timing_point,
};
use gameserver::editor::command::user::{
    handle_current_time, handle_cursorpos, handle_join, handle_leave, serialize_users,
};
use gameserver::editor::command::{handle_client_command, handle_editor_event};
use gameserver::editor::dispatcher::{Delivery, Dispatcher};
use gameserver::editor::state::hitobject::{
    HitObject, HitObjectKind, SliderControlPoint, SliderControlPointKind,
};
use gameserver::editor::state::timing::TimingPoint;
use gameserver::editor::state::user::UserInfo;
use gameserver::editor::state::{EditorEvent, EditorState};
use gameserver::editor::{EditorSession, Presence};
use gameserver::util::{Float, IVec2, Vec2};
use gameserver::{SessionInfo, SessionUserInfo};

fn float(value: f32) -> Float {
    Float::from_bits(value.to_bits())
}

fn info(name: &str) -> SessionInfo {
    SessionInfo {
        token: format!("token of {}", name),
        user: SessionUserInfo {
            id: 7,
            avatar_url: format!("https://avatars.example/{}", name),
            profile_id: 70,
            display_name: name.to_string(),
        },
    }
}

fn session() -> EditorSession {
    EditorSession::create("map".to_string(), Some(EditorState::default())).unwrap()
}

/// A session with the presences 1 (ada) and 2 (bob), both known as users.
fn session_of_two() -> (EditorSession, Presence, Presence) {
    let mut session = session();
    let a = session.join(&info("ada"));
    let b = session.join(&info("bob"));
    let mut dispatcher = Dispatcher::new();
    handle_join(&mut session, a, &mut dispatcher);
    handle_join(&mut session, b, &mut dispatcher);
    session.state.events.clear();
    let ada = session.presence(a).unwrap();
    let bob = session.presence(b).unwrap();
    (session, ada, bob)
}

fn circle(id: u32, start_time: i32, selected_by: Option<usize>) -> HitObject {
    HitObject {
        id,
        selected_by,
        start_time,
        position: IVec2::new(1, 2),
        new_combo: false,
        data: HitObjectKind::HitCircle,
    }
}

fn slider(id: u32, start_time: i32, distance: f32, repeats: u16) -> HitObject {
    HitObject {
        id,
        selected_by: None,
        start_time,
        position: IVec2::new(0, 0),
        new_combo: false,
        data: HitObjectKind::Slider {
            expected_distance: float(distance),
            control_points: vec![
                SliderControlPoint {
                    position: IVec2::new(0, 0),
                    kind: SliderControlPointKind::Linear,
                },
                SliderControlPoint {
                    position: IVec2::new(50, 0),
                    kind: SliderControlPointKind::Unset,
                },
            ],
            repeats,
        },
    }
}

fn put(session: &mut EditorSession, objects: Vec<HitObject>) {
    for object in objects {
        session.state.hit_objects.insert_hitobject(object);
    }
}

fn owners(session: &EditorSession) -> Vec<(u32, Option<usize>)> {
    session.state.hit_objects.all().iter().map(|object| (object.id, object.selected_by)).collect()
}

fn plain(command: ServerCommand) -> ServerToClientMessage {
    ServerToClientMessage { response_id: None, command }
}

/// What the dispatcher holds, told apart by how it leaves: the messages that
/// go out on their own, and the commands of the batch.
fn sent(dispatcher: &mut Dispatcher, session: &EditorSession) -> (Vec<Delivery>, Vec<ServerCommand>) {
    let mut deliveries = dispatcher.flush(session);
    let mut batch = Vec::new();
    let last_is_batch = match deliveries.last() {
        Some(Delivery { message: ServerToClientMessage { command: ServerCommand::Multiple(_), .. }, .. }) => true,
        _ => false,
    };
    if last_is_batch {
        if let Some(Delivery { message: ServerToClientMessage { command: ServerCommand::Multiple(messages), .. }, .. }) = deliveries.pop() {
            for message in messages {
                assert_eq!(message.response_id, None);
                batch.push(message.command);
            }
        }
    }
    (deliveries, batch)
}

fn selected(ids: Vec<u32>, selected_by: Option<usize>) -> ServerCommand {
    ServerCommand::HitObjectSelected { ids, selected_by }
}

fn timing_point(id: u32, offset: i32) -> TimingPoint {
    TimingPoint { id, offset, timing: None, sv: None, volume: None }
}

#[test]
fn unique_selection_replaces_the_earlier_one() {
    let (mut session, ada, _bob) = session_of_two();
    put(&mut session, vec![circle(1, 100, None), circle(2, 200, None), circle(3, 300, None)]);

    let mut first = Dispatcher::new();
    handle_hitobject_selection(&mut session, &ada, vec![1, 2], true, true, &mut first);
    assert_eq!(owners(&session), vec![(1, Some(ada.id)), (2, Some(ada.id)), (3, None)]);
    let (alone, batch) = sent(&mut first, &session);
    assert!(alone.is_empty());
    assert_eq!(batch, vec![selected(vec![1, 2], Some(ada.id))]);

    let mut second = Dispatcher::new();
    handle_hitobject_selection(&mut session, &ada, vec![3], true, true, &mut second);
    assert_eq!(owners(&session), vec![(1, None), (2, None), (3, Some(ada.id))]);
    let (alone, batch) = sent(&mut second, &session);
    assert!(alone.is_empty());
    assert_eq!(batch, vec![selected(vec![3], Some(ada.id)), selected(vec![1, 2], None)]);
}

#[test]
fn unique_selection_keeps_what_is_named_again() {
    let (mut session, ada, _bob) = session_of_two();
    put(&mut session, vec![circle(1, 100, Some(1)), circle(2, 200, Some(1)), circle(3, 300, None)]);
    let mut dispatcher = Dispatcher::new();
    handle_hitobject_selection(&mut session, &ada, vec![2, 3], true, true, &mut dispatcher);
    assert_eq!(owners(&session), vec![(1, None), (2, Some(1)), (3, Some(1))]);
    let (_, batch) = sent(&mut dispatcher, &session);
    assert_eq!(batch, vec![selected(vec![3], Some(1)), selected(vec![1], None)]);
}

#[test]
fn selection_without_unique_adds_to_the_earlier_one() {
    let (mut session, ada, _bob) = session_of_two();
    put(&mut session, vec![circle(1, 100, Some(1)), circle(2, 200, None)]);
    let mut dispatcher = Dispatcher::new();
    handle_hitobject_selection(&mut session, &ada, vec![2], false, true, &mut dispatcher);
    assert_eq!(owners(&session), vec![(1, Some(1)), (2, Some(1))]);
    let (_, batch) = sent(&mut dispatcher, &session);
    assert_eq!(batch, vec![selected(vec![2], Some(1))]);
}

#[test]
fn selection_cannot_take_or_free_the_lock_of_another() {
    let (mut session, ada, bob) = session_of_two();
    put(&mut session, vec![circle(1, 100, Some(bob.id)), circle(2, 200, None)]);
    let mut dispatcher = Dispatcher::new();
    handle_hitobject_selection(&mut session, &ada, vec![1], false, true, &mut dispatcher);
    handle_hitobject_selection(&mut session, &ada, vec![1], false, false, &mut dispatcher);
    handle_hitobject_selection(&mut session, &ada, vec![1], true, true, &mut dispatcher);
    assert_eq!(owners(&session), vec![(1, Some(bob.id)), (2, None)]);
    let (alone, batch) = sent(&mut dispatcher, &session);
    assert!(alone.is_empty());
    assert!(batch.is_empty());
}

#[test]
fn selecting_what_one_holds_already_says_nothing() {
    let (mut session, ada, _bob) = session_of_two();
    put(&mut session, vec![circle(1, 100, Some(1))]);
    let mut dispatcher = Dispatcher::new();
    handle_hitobject_selection(&mut session, &ada, vec![1, 1, 9], false, true, &mut dispatcher);
    assert_eq!(owners(&session), vec![(1, Some(1))]);
    let (_, batch) = sent(&mut dispatcher, &session);
    assert!(batch.is_empty());
}

#[test]
fn an_id_named_twice_is_selected_once() {
    let (mut session, ada, _bob) = session_of_two();
    put(&mut session, vec![circle(1, 100, None), circle(2, 200, None)]);
    let mut dispatcher = Dispatcher::new();
    handle_hitobject_selection(&mut session, &ada, vec![2, 1, 2], false, true, &mut dispatcher);
    let (_, batch) = sent(&mut dispatcher, &session);
    assert_eq!(batch, vec![selected(vec![2, 1], Some(1))]);
}

#[test]
fn deselection_frees_only_what_the_requester_holds() {
    let (mut session, ada, bob) = session_of_two();
    put(
        &mut session,
        vec![circle(1, 100, Some(ada.id)), circle(2, 200, Some(bob.id)), circle(3, 300, None)],
    );
    let mut dispatcher = Dispatcher::new();
    handle_hitobject_selection(&mut session, &ada, vec![1, 2, 3], false, false, &mut dispatcher);
    assert_eq!(owners(&session), vec![(1, None), (2, Some(bob.id)), (3, None)]);
    let (_, batch) = sent(&mut dispatcher, &session);
    assert_eq!(batch, vec![selected(vec![1], None)]);
}

#[test]
fn unique_deselection_frees_the_rest_first() {
    let (mut session, ada, _bob) = session_of_two();
    put(&mut session, vec![circle(1, 100, Some(1)), circle(2, 200, Some(1)), circle(3, 300, Some(1))]);
    let mut dispatcher = Dispatcher::new();
    handle_hitobject_selection(&mut session, &ada, vec![2], true, false, &mut dispatcher);
    assert_eq!(owners(&session), vec![(1, None), (2, None), (3, None)]);
    let (_, batch) = sent(&mut dispatcher, &session);
    assert_eq!(batch, vec![selected(vec![1, 3, 2], None)]);
}

#[test]
fn creation_evicts_a_free_object_of_the_same_time() {
    let (mut session, ada, _bob) = session_of_two();
    put(&mut session, vec![circle(40, 1000, None), circle(41, 2000, None)]);
    session.state.next_hit_object_id = 50;
    let mut dispatcher = Dispatcher::new();
    handle_create_hitobject(
        &mut session,
        &ada,
        circle(0, 1000, None),
        Some("r1".to_string()),
        &mut dispatcher,
    );
    assert_eq!(owners(&session), vec![(50, Some(ada.id)), (41, None)]);
    assert_eq!(session.state.next_hit_object_id, 51);
    let (alone, batch) = sent(&mut dispatcher, &session);
    assert_eq!(batch, vec![ServerCommand::HitObjectDeleted(40)]);
    assert_eq!(
        alone,
        vec![Delivery {
            message: ServerToClientMessage {
                response_id: Some("r1".to_string()),
                command: ServerCommand::HitObjectCreated(circle(50, 1000, Some(ada.id))),
            },
            recipients: vec![1, 2],
        }]
    );
}

#[test]
fn creation_leaves_an_object_that_another_holds() {
    let (mut session, ada, bob) = session_of_two();
    put(&mut session, vec![circle(40, 1000, Some(bob.id)), circle(41, 500, Some(ada.id))]);
    session.state.next_hit_object_id = 50;
    let mut dispatcher = Dispatcher::new();
    handle_create_hitobject(&mut session, &ada, circle(0, 1000, None), None, &mut dispatcher);
    assert_eq!(
        owners(&session),
        vec![(41, None), (50, Some(ada.id)), (40, Some(bob.id))]
    );
    let (alone, batch) = sent(&mut dispatcher, &session);
    assert!(alone.is_empty());
    assert_eq!(
        batch,
        vec![
            ServerCommand::HitObjectCreated(circle(50, 1000, Some(ada.id))),
            selected(vec![41], None),
        ]
    );
}

#[test]
fn creation_evicts_what_the_creator_holds_at_that_time() {
    let (mut session, ada, _bob) = session_of_two();
    put(&mut session, vec![circle(40, 1000, Some(ada.id)), circle(42, 1000, None)]);
    session.state.next_hit_object_id = 50;
    let mut dispatcher = Dispatcher::new();
    handle_create_hitobject(&mut session, &ada, circle(0, 1000, None), None, &mut dispatcher);
    assert_eq!(owners(&session), vec![(50, Some(ada.id))]);
    let (_, batch) = sent(&mut dispatcher, &session);
    assert_eq!(
        batch,
        vec![
            ServerCommand::HitObjectDeleted(42),
            ServerCommand::HitObjectDeleted(40),
            ServerCommand::HitObjectCreated(circle(50, 1000, Some(ada.id))),
        ]
    );
}

#[test]
fn creation_ignores_the_id_and_the_lock_of_the_payload() {
    let (mut session, ada, bob) = session_of_two();
    session.state.next_hit_object_id = 5;
    let mut dispatcher = Dispatcher::new();
    handle_create_hitobject(&mut session, &ada, circle(999, 10, Some(bob.id)), None, &mut dispatcher);
    assert_eq!(owners(&session), vec![(5, Some(ada.id))]);
}

#[test]
fn invalid_creation_is_dropped() {
    let (mut session, ada, _bob) = session_of_two();
    put(&mut session, vec![circle(40, 1000, None)]);
    session.state.next_hit_object_id = 50;
    let mut dispatcher = Dispatcher::new();
    handle_create_hitobject(&mut session, &ada, slider(0, 1000, -1.0, 1), None, &mut dispatcher);
    handle_create_hitobject(&mut session, &ada, slider(0, 1000, 10.0, 0), None, &mut dispatcher);
    assert_eq!(owners(&session), vec![(40, None)]);
    assert_eq!(session.state.next_hit_object_id, 50);
    let (alone, batch) = sent(&mut dispatcher, &session);
    assert!(alone.is_empty());
    assert!(batch.is_empty());
}

#[test]
fn valid_slider_is_created() {
    let (mut session, ada, _bob) = session_of_two();
    let mut dispatcher = Dispatcher::new();
    handle_create_hitobject(&mut session, &ada, slider(0, 700, 35.5, 2), None, &mut dispatcher);
    let mut expected = slider(0, 700, 35.5, 2);
    expected.selected_by = Some(ada.id);
    assert_eq!(session.state.hit_objects.all(), &vec![expected]);
}

#[test]
fn update_by_the_holder_replaces_and_tells_everybody() {
    let (mut session, ada, _bob) = session_of_two();
    put(&mut session, vec![circle(1, 100, Some(ada.id)), circle(2, 200, None)]);
    let mut dispatcher = Dispatcher::new();
    let mut payload = circle(77, 150, Some(ada.id));
    payload.new_combo = true;
    handle_update_hitobject(&mut session, &ada, 1, payload, &mut dispatcher);
    let mut expected = circle(1, 150, Some(ada.id));
    expected.new_combo = true;
    assert_eq!(session.state.hit_objects.find_by_id(1), Some(&expected));
    let (alone, batch) = sent(&mut dispatcher, &session);
    assert!(alone.is_empty());
    assert_eq!(batch, vec![ServerCommand::HitObjectUpdated(expected)]);
}

#[test]
fn update_by_another_presence_changes_nothing() {
    let (mut session, ada, bob) = session_of_two();
    put(&mut session, vec![circle(1, 100, Some(ada.id)), circle(2, 200, None)]);
    let mut dispatcher = Dispatcher::new();
    handle_update_hitobject(&mut session, &bob, 1, circle(1, 150, Some(bob.id)), &mut dispatcher);
    handle_update_hitobject(&mut session, &bob, 2, circle(2, 250, None), &mut dispatcher);
    handle_update_hitobject(&mut session, &bob, 3, circle(3, 250, None), &mut dispatcher);
    assert_eq!(
        session.state.hit_objects.all(),
        &vec![circle(1, 100, Some(ada.id)), circle(2, 200, None)]
    );
    let (alone, batch) = sent(&mut dispatcher, &session);
    assert!(alone.is_empty());
    assert!(batch.is_empty());
}

#[test]
fn update_that_changes_the_shape_is_refused() {
    let (mut session, ada, _bob) = session_of_two();
    put(&mut session, vec![circle(1, 100, Some(ada.id))]);
    let mut dispatcher = Dispatcher::new();
    handle_update_hitobject(&mut session, &ada, 1, slider(1, 100, 10.0, 1), &mut dispatcher);
    assert_eq!(session.state.hit_objects.all(), &vec![circle(1, 100, Some(ada.id))]);
    let (_, batch) = sent(&mut dispatcher, &session);
    assert!(batch.is_empty());
}

#[test]
fn invalid_update_is_dropped() {
    let (mut session, ada, _bob) = session_of_two();
    let mut held = slider(1, 100, 10.0, 1);
    held.selected_by = Some(ada.id);
    put(&mut session, vec![held.clone()]);
    let mut dispatcher = Dispatcher::new();
    handle_update_hitobject(&mut session, &ada, 1, slider(1, 100, 10.0, 0), &mut dispatcher);
    handle_update_hitobject(&mut session, &ada, 1, slider(1, 100, f32::NAN, 1), &mut dispatcher);
    assert_eq!(session.state.hit_objects.all(), &vec![held]);
    let (_, batch) = sent(&mut dispatcher, &session);
    assert!(batch.is_empty());
}

#[test]
fn update_keeps_the_store_sorted() {
    let (mut session, ada, _bob) = session_of_two();
    put(&mut session, vec![circle(1, 100, Some(ada.id)), circle(2, 200, None), circle(3, 300, None)]);
    let mut dispatcher = Dispatcher::new();
    handle_update_hitobject(&mut session, &ada, 1, circle(1, 250, Some(ada.id)), &mut dispatcher);
    assert_eq!(owners(&session), vec![(2, None), (1, Some(ada.id)), (3, None)]);
}

#[test]
fn deletion_takes_only_what_the_requester_holds() {
    let (mut session, ada, bob) = session_of_two();
    put(
        &mut session,
        vec![circle(1, 100, Some(ada.id)), circle(2, 200, Some(bob.id)), circle(3, 300, None)],
    );
    let mut dispatcher = Dispatcher::new();
    handle_delete_hitobjects(&mut session, &ada, vec![1, 2, 3, 4], &mut dispatcher, false);
    assert_eq!(owners(&session), vec![(2, Some(bob.id)), (3, None)]);
    let (alone, batch) = sent(&mut dispatcher, &session);
    assert!(alone.is_empty());
    assert_eq!(batch, vec![ServerCommand::HitObjectDeleted(1)]);
}

#[test]
fn deletion_by_another_presence_changes_nothing() {
    let (mut session, ada, bob) = session_of_two();
    put(&mut session, vec![circle(1, 100, Some(ada.id)), circle(3, 300, None)]);
    let mut dispatcher = Dispatcher::new();
    handle_delete_hitobjects(&mut session, &bob, vec![1, 3], &mut dispatcher, false);
    assert_eq!(owners(&session), vec![(1, Some(ada.id)), (3, None)]);
    let (alone, batch) = sent(&mut dispatcher, &session);
    assert!(alone.is_empty());
    assert!(batch.is_empty());
}

#[test]
fn deletion_with_unselected_takes_free_objects_too() {
    let (mut session, ada, bob) = session_of_two();
    put(
        &mut session,
        vec![circle(1, 100, Some(ada.id)), circle(2, 200, Some(bob.id)), circle(3, 300, None)],
    );
    let mut dispatcher = Dispatcher::new();
    handle_delete_hitobjects(&mut session, &ada, vec![3, 2, 1], &mut dispatcher, true);
    assert_eq!(owners(&session), vec![(2, Some(bob.id))]);
    let (_, batch) = sent(&mut dispatcher, &session);
    assert_eq!(
        batch,
        vec![ServerCommand::HitObjectDeleted(3), ServerCommand::HitObjectDeleted(1)]
    );
}

#[test]
fn an_id_named_twice_is_deleted_and_announced_once() {
    let (mut session, ada, _bob) = session_of_two();
    put(&mut session, vec![circle(1, 100, Some(ada.id)), circle(2, 200, Some(ada.id))]);
    let mut dispatcher = Dispatcher::new();
    handle_delete_hitobjects(&mut session, &ada, vec![1, 1, 2, 1], &mut dispatcher, false);
    assert!(session.state.hit_objects.all().is_empty());
    let (_, batch) = sent(&mut dispatcher, &session);
    assert_eq!(
        batch,
        vec![ServerCommand::HitObjectDeleted(1), ServerCommand::HitObjectDeleted(2)]
    );
}

#[test]
fn deletion_never_reaches_a_second_object_that_another_holds() {
    let (mut session, ada, bob) = session_of_two();
    put(&mut session, vec![circle(5, 200, Some(bob.id)), circle(5, 100, Some(ada.id))]);
    let mut dispatcher = Dispatcher::new();
    handle_delete_hitobjects(&mut session, &ada, vec![5, 5], &mut dispatcher, false);
    assert_eq!(owners(&session), vec![(5, Some(bob.id))]);
    let (_, batch) = sent(&mut dispatcher, &session);
    assert_eq!(batch, vec![ServerCommand::HitObjectDeleted(5)]);
}

#[test]
fn ids_of_objects_lists_the_ids_in_order() {
    let one = circle(4, 0, None);
    let two = circle(2, 0, None);
    assert_eq!(ids_of_objects(&vec![&one, &two, &one]), vec![4, 2, 4]);
    assert_eq!(ids_of_objects(&Vec::new()), Vec::<u32>::new());
}

#[test]
fn timing_point_is_created_under_the_next_id() {
    let (mut session, ada, _bob) = session_of_two();
    session.state.next_timing_point_id = 9;
    let mut dispatcher = Dispatcher::new();
    handle_create_timing_point(&mut session, &ada, timing_point(0, 500), &mut dispatcher);
    handle_create_timing_point(&mut session, &ada, timing_point(0, 100), &mut dispatcher);
    assert_eq!(session.state.timing.all(), &vec![timing_point(10, 100), timing_point(9, 500)]);
    assert_eq!(session.state.next_timing_point_id, 11);
    let (alone, batch) = sent(&mut dispatcher, &session);
    assert!(alone.is_empty());
    assert_eq!(
        batch,
        vec![
            ServerCommand::TimingPointCreated(timing_point(9, 500)),
            ServerCommand::TimingPointCreated(timing_point(10, 100)),
        ]
    );
}

#[test]
fn timing_point_is_updated_by_anybody_if_it_exists() {
    let (mut session, _ada, bob) = session_of_two();
    session.state.timing.insert_timing_point(timing_point(3, 100));
    let mut dispatcher = Dispatcher::new();
    let mut changed = timing_point(3, 120);
    changed.sv = Some(float(2.0));
    handle_update_timing_point(&mut session, &bob, changed, &mut dispatcher);
    handle_update_timing_point(&mut session, &bob, timing_point(4, 0), &mut dispatcher);
    assert_eq!(session.state.timing.all(), &vec![changed]);
    let (_, batch) = sent(&mut dispatcher, &session);
    assert_eq!(batch, vec![ServerCommand::TimingPointUpdated(changed)]);
}

#[test]
fn timing_points_are_deleted_if_they_exist() {
    let (mut session, ada, _bob) = session_of_two();
    session.state.timing.insert_timing_point(timing_point(1, 100));
    session.state.timing.insert_timing_point(timing_point(2, 200));
    session.state.timing.insert_timing_point(timing_point(3, 300));
    let mut dispatcher = Dispatcher::new();
    handle_delete_timing_point(&mut session, &ada, vec![3, 7, 1, 3], &mut dispatcher);
    assert_eq!(session.state.timing.all(), &vec![timing_point(2, 200)]);
    let (_, batch) = sent(&mut dispatcher, &session);
    assert_eq!(
        batch,
        vec![ServerCommand::TimingPointDeleted(3), ServerCommand::TimingPointDeleted(1)]
    );
}

#[test]
fn cursor_and_time_are_recorded_for_the_user() {
    let (mut session, ada, bob) = session_of_two();
    let place = Vec2::new(float(12.5), float(-3.0));
    handle_cursorpos(&mut session, &ada, place);
    handle_current_time(&mut session, &bob, 4321);
    let users = session.state.users.all();
    assert_eq!(users[0].cursor_pos, Some(place));
    assert_eq!(users[0].current_time, 0);
    assert_eq!(users[1].cursor_pos, None);
    assert_eq!(users[1].current_time, 4321);
}

#[test]
fn cursor_of_an_unknown_user_is_ignored() {
    let (mut session, ada, _bob) = session_of_two();
    let stranger = Presence { id: 99, session: info("eve") };
    let before: Vec<UserInfo> = session.state.users.all().iter().map(|user| user.clone()).collect();
    handle_cursorpos(&mut session, &stranger, Vec2::new(float(1.0), float(1.0)));
    handle_current_time(&mut session, &stranger, 5);
    assert_eq!(session.state.users.all(), &before);
    assert_eq!(ada.id, 1);
}

#[test]
fn join_tells_the_newcomer_and_everybody_in_order() {
    let mut session = session();
    session.state.hit_objects.insert_hitobject(circle(1, 100, None));
    session.state.timing.insert_timing_point(timing_point(1, 0));
    let a = session.join(&info("ada"));
    let b = session.join(&info("bob"));
    let mut quiet = Dispatcher::new();
    handle_join(&mut session, a, &mut quiet);

    let mut dispatcher = Dispatcher::new();
    handle_join(&mut session, b, &mut dispatcher);
    let ada = SerializedUserInfo {
        id: a,
        display_name: "ada".to_string(),
        cursor_pos: None,
        current_time: 0,
    };
    let bob = SerializedUserInfo {
        id: b,
        display_name: "bob".to_string(),
        cursor_pos: None,
        current_time: 0,
    };
    let (alone, batch) = sent(&mut dispatcher, &session);
    assert_eq!(
        alone,
        vec![
            Delivery { message: plain(ServerCommand::OwnId(b)), recipients: vec![b] },
            Delivery {
                message: plain(ServerCommand::State(ServerState {
                    difficulty: session.state.difficulty,
                    hit_objects: vec![circle(1, 100, None)],
                    timing_points: vec![timing_point(1, 0)],
                })),
                recipients: vec![b],
            },
        ]
    );
    assert_eq!(
        batch,
        vec![
            ServerCommand::UserJoined(bob.clone()),
            ServerCommand::UserList(vec![ada, bob]),
        ]
    );
    let ids: Vec<usize> = session.state.users.all().iter().map(|user| user.id()).collect();
    assert_eq!(ids, vec![a, b]);
}

#[test]
fn join_of_an_unknown_presence_does_nothing() {
    let mut session = session();
    let mut dispatcher = Dispatcher::new();
    handle_join(&mut session, 5, &mut dispatcher);
    assert!(session.state.users.all().is_empty());
    assert!(dispatcher.flush(&session).is_empty());
}

#[test]
fn leave_frees_the_locks_and_tells_everybody() {
    let (mut session, ada, bob) = session_of_two();
    put(
        &mut session,
        vec![
            circle(5, 100, Some(ada.id)),
            circle(6, 200, Some(bob.id)),
            circle(7, 300, Some(ada.id)),
            circle(8, 400, None),
        ],
    );
    session.leave(ada.id);
    let mut dispatcher = Dispatcher::new();
    handle_leave(&mut session, ada.id, &mut dispatcher);
    assert_eq!(owners(&session), vec![(5, None), (6, Some(bob.id)), (7, None), (8, None)]);
    assert!(session.state.hit_objects.find_selected_by(ada.id).is_empty());
    let ids: Vec<usize> = session.state.users.all().iter().map(|user| user.id()).collect();
    assert_eq!(ids, vec![bob.id]);
    let (alone, batch) = sent(&mut dispatcher, &session);
    assert!(alone.is_empty());
    assert_eq!(
        batch,
        vec![
            ServerCommand::UserLeft(SerializedUserInfo {
                id: ada.id,
                display_name: "ada".to_string(),
                cursor_pos: None,
                current_time: 0,
            }),
            selected(vec![5, 7], None),
        ]
    );
}

#[test]
fn leave_without_locks_announces_the_departure_alone() {
    let (mut session, ada, bob) = session_of_two();
    put(&mut session, vec![circle(6, 200, Some(bob.id))]);
    let mut dispatcher = Dispatcher::new();
    handle_leave(&mut session, ada.id, &mut dispatcher);
    let (_, batch) = sent(&mut dispatcher, &session);
    assert_eq!(batch.len(), 1);
    assert!(matches!(batch[0], ServerCommand::UserLeft(_)));
}

#[test]
fn leave_of_an_unknown_user_does_nothing() {
    let (mut session, ada, _bob) = session_of_two();
    put(&mut session, vec![circle(5, 100, Some(ada.id))]);
    let mut dispatcher = Dispatcher::new();
    handle_leave(&mut session, 42, &mut dispatcher);
    assert_eq!(owners(&session), vec![(5, Some(ada.id))]);
    assert_eq!(session.state.users.all().len(), 2);
    assert!(dispatcher.flush(&session).is_empty());
}

#[test]
fn events_go_to_their_handlers() {
    let mut session = session();
    let a = session.join(&info("ada"));
    let mut dispatcher = Dispatcher::new();
    handle_editor_event(&mut session, EditorEvent::UserJoined { id: a }, &mut dispatcher);
    assert_eq!(session.state.users.all().len(), 1);
    handle_editor_event(&mut session, EditorEvent::UserLeft { id: a }, &mut dispatcher);
    assert!(session.state.users.all().is_empty());
}

#[test]
fn commands_go_to_their_handlers() {
    let (mut session, ada, bob) = session_of_two();
    put(&mut session, vec![circle(1, 100, None), circle(2, 200, Some(bob.id))]);
    let mut dispatcher = Dispatcher::new();
    let command = |command: ClientCommand| ClientToServerMessage { response_id: None, command };

    handle_client_command(
        &mut session,
        command(ClientCommand::SelectHitObject { ids: vec![1], selected: true, unique: true }),
        &ada,
        &mut dispatcher,
    );
    let mut moved = circle(1, 130, Some(ada.id));
    moved.position = IVec2::new(5, 6);
    handle_client_command(
        &mut session,
        command(ClientCommand::UpdateHitObject(moved.clone())),
        &ada,
        &mut dispatcher,
    );
    handle_client_command(
        &mut session,
        command(ClientCommand::DeleteHitObject(vec![2])),
        &ada,
        &mut dispatcher,
    );
    handle_client_command(
        &mut session,
        command(ClientCommand::CurrentTime(77)),
        &ada,
        &mut dispatcher,
    );
    handle_client_command(
        &mut session,
        command(ClientCommand::CursorPos(Vec2::new(float(1.0), float(2.0)))),
        &ada,
        &mut dispatcher,
    );
    handle_client_command(
        &mut session,
        command(ClientCommand::CreateTimingPoint(timing_point(0, 10))),
        &ada,
        &mut dispatcher,
    );
    handle_client_command(
        &mut session,
        command(ClientCommand::UpdateTimingPoint(timing_point(0, 20))),
        &ada,
        &mut dispatcher,
    );
    handle_client_command(
        &mut session,
        command(ClientCommand::DeleteTimingPoint(vec![0])),
        &ada,
        &mut dispatcher,
    );
    assert_eq!(
        session.state.hit_objects.all(),
        &vec![moved.clone(), circle(2, 200, Some(bob.id))]
    );
    assert!(session.state.timing.all().is_empty());
    assert_eq!(session.state.users.find(ada.id).unwrap().current_time, 77);
    let (alone, batch) = sent(&mut dispatcher, &session);
    assert!(alone.is_empty());
    assert_eq!(
        batch,
        vec![
            selected(vec![1], Some(ada.id)),
            ServerCommand::HitObjectUpdated(moved),
            ServerCommand::TimingPointCreated(timing_point(0, 10)),
            ServerCommand::TimingPointUpdated(timing_point(0, 20)),
            ServerCommand::TimingPointDeleted(0),
        ]
    );
}

#[test]
fn a_commanded_deletion_spares_free_objects() {
    let (mut session, ada, _bob) = session_of_two();
    put(&mut session, vec![circle(1, 100, None), circle(2, 200, Some(ada.id))]);
    let mut dispatcher = Dispatcher::new();
    handle_client_command(
        &mut session,
        ClientToServerMessage {
            response_id: None,
            command: ClientCommand::DeleteHitObject(vec![1, 2]),
        },
        &ada,
        &mut dispatcher,
    );
    assert_eq!(owners(&session), vec![(1, None)]);
}

#[test]
fn a_commanded_creation_answers_the_request() {
    let (mut session, ada, _bob) = session_of_two();
    let mut dispatcher = Dispatcher::new();
    handle_client_command(
        &mut session,
        ClientToServerMessage {
            response_id: Some("q9".to_string()),
            command: ClientCommand::CreateHitObject(circle(0, 100, None)),
        },
        &ada,
        &mut dispatcher,
    );
    let (alone, batch) = sent(&mut dispatcher, &session);
    assert_eq!(alone.len(), 1);
    assert_eq!(alone[0].message.response_id, Some("q9".to_string()));
    assert_eq!(alone[0].recipients, vec![1, 2]);
    assert!(batch.is_empty());
}

#[test]
fn overrides_are_passed_on_to_everybody() {
    let (mut session, ada, _bob) = session_of_two();
    let overrides = HitObjectOverrides {
        time: Some(5),
        position: Some(IVec2::new(1, 1)),
        new_combo: None,
        control_points: Some(vec![SliderControlPoint {
            position: IVec2::new(3, 4),
            kind: SliderControlPointKind::Bezier,
        }]),
        expected_distance: Some(float(2.5)),
        repeat_count: Some(3),
    };
    let mut dispatcher = Dispatcher::new();
    handle_client_command(
        &mut session,
        ClientToServerMessage {
            response_id: None,
            command: ClientCommand::SetHitObjectOverrides { id: 8, overrides: overrides.clone() },
        },
        &ada,
        &mut dispatcher,
    );
    assert!(session.state.hit_objects.all().is_empty());
    let (_, batch) = sent(&mut dispatcher, &session);
    assert_eq!(batch, vec![ServerCommand::HitObjectOverridden { id: 8, overrides }]);
}

#[test]
fn users_are_serialized_with_their_names() {
    let (mut session, ada, _bob) = session_of_two();
    handle_current_time(&mut session, &ada, 9);
    let list = serialize_users(session.state.users.all());
    assert_eq!(list.len(), 2);
    assert_eq!(list[0], SerializedUserInfo::from(&session.state.users.all()[0]));
    assert_eq!(list[0].display_name, "ada");
    assert_eq!(list[0].current_time, 9);
    assert_eq!(list[1].display_name, "bob");
    let tick = UserTick::from(&session.state.users.all()[0]);
    assert_eq!(tick, UserTick { id: ada.id, cursor_pos: None, current_time: 9 });
}

#[test]
fn update_keeps_the_lock_with_the_holder_when_the_payload_names_nobody() {
    let (mut session, ada, _bob) = session_of_two();
    put(&mut session, vec![circle(1, 100, Some(ada.id)), circle(2, 200, None)]);
    let mut dispatcher = Dispatcher::new();
    let mut payload = circle(1, 120, None);
    payload.position = IVec2::new(40, 50);
    handle_update_hitobject(&mut session, &ada, 1, payload, &mut dispatcher);
    let mut expected = circle(1, 120, Some(ada.id));
    expected.position = IVec2::new(40, 50);
    assert_eq!(session.state.hit_objects.find_by_id(1), Some(&expected));
    let (alone, batch) = sent(&mut dispatcher, &session);
    assert!(alone.is_empty());
    assert_eq!(batch, vec![ServerCommand::HitObjectUpdated(expected)]);
    let mut again = Dispatcher::new();
    handle_update_hitobject(&mut session, &ada, 1, circle(1, 130, None), &mut again);
    assert_eq!(
        session.state.hit_objects.find_by_id(1),
        Some(&circle(1, 130, Some(ada.id)))
    );
}

#[test]
fn update_keeps_the_lock_with_the_holder_when_the_payload_names_another() {
    let (mut session, ada, bob) = session_of_two();
    put(&mut session, vec![circle(1, 100, Some(ada.id))]);
    let mut dispatcher = Dispatcher::new();
    handle_update_hitobject(&mut session, &ada, 1, circle(9, 300, Some(bob.id)), &mut dispatcher);
    assert_eq!(owners(&session), vec![(1, Some(ada.id))]);
    assert_eq!(session.state.hit_objects.all()[0].start_time, 300);
    let (_, batch) = sent(&mut dispatcher, &session);
    assert_eq!(batch, vec![ServerCommand::HitObjectUpdated(circle(1, 300, Some(ada.id)))]);
    let mut refused = Dispatcher::new();
    handle_update_hitobject(&mut session, &bob, 1, circle(1, 400, Some(bob.id)), &mut refused);
    assert_eq!(owners(&session), vec![(1, Some(ada.id))]);
    assert_eq!(session.state.hit_objects.all()[0].start_time, 300);
}

#[test]
fn a_commanded_update_keeps_the_lock_with_the_holder() {
    let (mut session, ada, _bob) = session_of_two();
    put(&mut session, vec![circle(1, 100, Some(ada.id))]);
    let mut dispatcher = Dispatcher::new();
    handle_client_command(
        &mut session,
        ClientToServerMessage {
            response_id: None,
            command: ClientCommand::UpdateHitObject(circle(1, 150, None)),
        },
        &ada,
        &mut dispatcher,
    );
    assert_eq!(session.state.hit_objects.all(), &vec![circle(1, 150, Some(ada.id))]);
    let (_, batch) = sent(&mut dispatcher, &session);
    assert_eq!(batch, vec![ServerCommand::HitObjectUpdated(circle(1, 150, Some(ada.id)))]);
}

#[test]
fn creation_on_a_loaded_document_takes_an_id_that_is_not_in_use() {
    let state = EditorState::from_document(
        gameserver::editor::state::difficulty::Difficulty::default(),
        vec![circle(7, 300, None), circle(3, 100, None), circle(5, 200, None)],
        vec![timing_point(4, 0), timing_point(2, 50)],
    );
    let mut session = EditorSession::create("map".to_string(), Some(state)).unwrap();
    let a = session.join(&info("ada"));
    let mut dispatcher = Dispatcher::new();
    handle_join(&mut session, a, &mut dispatcher);
    let ada = session.presence(a).unwrap();
    for turn in 0..5 {
        let before: Vec<u32> =
            session.state.hit_objects.all().iter().map(|object| object.id).collect();
        let next = session.state.next_hit_object_id;
        assert!(!before.contains(&next));
        handle_create_hitobject(
            &mut session,
            &ada,
            circle(3, 1000 + turn, None),
            None,
            &mut dispatcher,
        );
        assert_eq!(session.state.hit_objects.find_by_id(next).unwrap().start_time, 1000 + turn);
        assert_eq!(session.state.next_hit_object_id, next + 1);
        let points: Vec<u32> = session.state.timing.all().iter().map(|point| point.id).collect();
        let next_point = session.state.next_timing_point_id;
        assert!(!points.contains(&next_point));
        handle_create_timing_point(&mut session, &ada, timing_point(2, turn), &mut dispatcher);
        assert!(session.state.timing.find_by_id(next_point).is_some());
    }
    let mut ids: Vec<u32> =
        session.state.hit_objects.all().iter().map(|object| object.id).collect();
    ids.sort();
    assert_eq!(ids, vec![3, 5, 7, 8, 9, 10, 11, 12]);
    let mut points: Vec<u32> = session.state.timing.all().iter().map(|point| point.id).collect();
    points.sort();
    assert_eq!(points, vec![2, 4, 5, 6, 7, 8, 9]);
}

#[test]
fn leave_removes_the_user_that_carried_the_id() {
    let (mut session, ada, bob) = session_of_two();
    let mut dispatcher = Dispatcher::new();
    handle_leave(&mut session, ada.id, &mut dispatcher);
    assert!(session.state.users.find(ada.id).is_none());
    assert!(session.state.users.find(bob.id).is_some());
}
