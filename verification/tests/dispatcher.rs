use gameserver::editor::command::messages::{ServerCommand, ServerToClientMessage};
use gameserver::editor::dispatcher::{ids_of_presences, Delivery, Dispatcher};
use gameserver::editor::state::EditorState;
use gameserver::editor::{EditorSession, Presence};
use gameserver::{SessionInfo, SessionUserInfo};

fn info(name: &str) -> SessionInfo {
    SessionInfo {
        token: String::new(),
        user: SessionUserInfo {
            id: 1,
            avatar_url: String::new(),
            profile_id: 1,
            display_name: name.to_string(),
        },
    }
}

fn session_with(names: &[&str]) -> EditorSession {
    let mut session = EditorSession::create("map".to_string(), Some(EditorState::default())).unwrap();
    for name in names {
        session.join(&info(name));
    }
    session
}

fn plain(command: ServerCommand) -> ServerToClientMessage {
    ServerToClientMessage { response_id: None, command }
}

fn batch(commands: Vec<ServerCommand>, recipients: Vec<usize>) -> Delivery {
    Delivery {
        message: plain(ServerCommand::Multiple(commands.into_iter().map(plain).collect())),
        recipients,
    }
}

#[test]
fn nothing_scheduled_means_nothing_delivered() {
    let session = session_with(&["ada"]);
    let mut dispatcher = Dispatcher::new();
    assert!(dispatcher.flush(&session).is_empty());
}

#[test]
fn one_answer_and_three_broadcasts_make_two_deliveries() {
    let session = session_with(&["ada", "bob", "cy"]);
    let mut dispatcher = Dispatcher::new();
    dispatcher.broadcast(ServerCommand::HitObjectDeleted(1), None);
    dispatcher.broadcast_response(
        ServerCommand::HitObjectDeleted(2),
        Some("request-4".to_string()),
        None,
    );
    dispatcher.broadcast(ServerCommand::TimingPointDeleted(3), None);
    dispatcher.broadcast(ServerCommand::OwnId(4), None);
    let deliveries = dispatcher.flush(&session);
    assert_eq!(
        deliveries,
        vec![
            Delivery {
                message: ServerToClientMessage {
                    response_id: Some("request-4".to_string()),
                    command: ServerCommand::HitObjectDeleted(2),
                },
                recipients: vec![1, 2, 3],
            },
            batch(
                vec![
                    ServerCommand::HitObjectDeleted(1),
                    ServerCommand::TimingPointDeleted(3),
                    ServerCommand::OwnId(4),
                ],
                vec![1, 2, 3],
            ),
        ]
    );
}

#[test]
fn a_single_broadcast_rides_the_batch() {
    let session = session_with(&["ada", "bob"]);
    let mut dispatcher = Dispatcher::new();
    dispatcher.broadcast(ServerCommand::HitObjectDeleted(1), None);
    assert_eq!(
        dispatcher.flush(&session),
        vec![batch(vec![ServerCommand::HitObjectDeleted(1)], vec![1, 2])]
    );
}

#[test]
fn a_message_with_recipients_goes_to_them_alone() {
    let session = session_with(&["ada", "bob", "cy"]);
    let mut dispatcher = Dispatcher::new();
    dispatcher.broadcast(ServerCommand::OwnId(2), Some(vec![2]));
    dispatcher.broadcast(ServerCommand::HitObjectDeleted(9), None);
    dispatcher.broadcast_response(ServerCommand::OwnId(3), Some("x".to_string()), Some(vec![3, 1]));
    assert_eq!(
        dispatcher.flush(&session),
        vec![
            Delivery { message: plain(ServerCommand::OwnId(2)), recipients: vec![2] },
            Delivery {
                message: ServerToClientMessage {
                    response_id: Some("x".to_string()),
                    command: ServerCommand::OwnId(3),
                },
                recipients: vec![3, 1],
            },
            batch(vec![ServerCommand::HitObjectDeleted(9)], vec![1, 2, 3]),
        ]
    );
}

#[test]
fn a_single_message_with_recipients_makes_no_batch() {
    let session = session_with(&["ada", "bob"]);
    let mut dispatcher = Dispatcher::new();
    dispatcher.broadcast(ServerCommand::OwnId(2), Some(vec![2]));
    assert_eq!(
        dispatcher.flush(&session),
        vec![Delivery { message: plain(ServerCommand::OwnId(2)), recipients: vec![2] }]
    );
}

#[test]
fn several_messages_with_nothing_for_the_batch_send_it_empty() {
    let session = session_with(&["ada", "bob"]);
    let mut dispatcher = Dispatcher::new();
    dispatcher.broadcast(ServerCommand::OwnId(1), Some(vec![1]));
    dispatcher.broadcast_response(ServerCommand::OwnId(2), Some("y".to_string()), None);
    assert_eq!(
        dispatcher.flush(&session),
        vec![
            Delivery { message: plain(ServerCommand::OwnId(1)), recipients: vec![1] },
            Delivery {
                message: ServerToClientMessage {
                    response_id: Some("y".to_string()),
                    command: ServerCommand::OwnId(2),
                },
                recipients: vec![1, 2],
            },
            batch(Vec::new(), vec![1, 2]),
        ]
    );
}

#[test]
fn an_answer_without_an_id_is_an_ordinary_broadcast() {
    let session = session_with(&["ada"]);
    let mut dispatcher = Dispatcher::new();
    dispatcher.broadcast_response(ServerCommand::OwnId(1), None, None);
    assert_eq!(dispatcher.flush(&session), vec![batch(vec![ServerCommand::OwnId(1)], vec![1])]);
}

#[test]
fn the_roster_is_read_when_the_dispatcher_is_flushed() {
    let mut session = session_with(&["ada"]);
    let mut dispatcher = Dispatcher::new();
    dispatcher.broadcast(ServerCommand::HitObjectDeleted(1), None);
    dispatcher.broadcast_response(ServerCommand::OwnId(5), Some("z".to_string()), None);
    session.join(&info("bob"));
    session.leave(1);
    session.join(&info("cy"));
    let deliveries = dispatcher.flush(&session);
    assert_eq!(deliveries.len(), 2);
    assert_eq!(deliveries[0].recipients, vec![2, 3]);
    assert_eq!(deliveries[1].recipients, vec![2, 3]);
}

#[test]
fn a_flush_with_nobody_connected_still_makes_the_deliveries() {
    let session = session_with(&[]);
    let mut dispatcher = Dispatcher::new();
    dispatcher.broadcast(ServerCommand::HitObjectDeleted(1), None);
    assert_eq!(
        dispatcher.flush(&session),
        vec![batch(vec![ServerCommand::HitObjectDeleted(1)], Vec::new())]
    );
}

#[test]
fn a_flush_keeps_what_was_scheduled() {
    let session = session_with(&["ada"]);
    let mut dispatcher = Dispatcher::new();
    dispatcher.broadcast(ServerCommand::HitObjectDeleted(1), None);
    let first = dispatcher.flush(&session);
    let second = dispatcher.flush(&session);
    assert_eq!(first, second);
    dispatcher.broadcast(ServerCommand::HitObjectDeleted(2), None);
    assert_eq!(
        dispatcher.flush(&session),
        vec![batch(
            vec![ServerCommand::HitObjectDeleted(1), ServerCommand::HitObjectDeleted(2)],
            vec![1]
        )]
    );
}

#[test]
fn a_batch_inside_a_message_is_copied_whole() {
    let session = session_with(&["ada"]);
    let mut dispatcher = Dispatcher::new();
    let nested = ServerCommand::Multiple(vec![
        plain(ServerCommand::OwnId(1)),
        plain(ServerCommand::Multiple(vec![plain(ServerCommand::HitObjectSelected {
            ids: vec![1, 2],
            selected_by: Some(3),
        })])),
    ]);
    dispatcher.broadcast(nested.clone(), Some(vec![1]));
    assert_eq!(
        dispatcher.flush(&session),
        vec![Delivery { message: plain(nested), recipients: vec![1] }]
    );
}

#[test]
fn ids_of_presences_keeps_the_order_of_the_roster() {
    let roster = vec![
        Presence { id: 9, session: info("ada") },
        Presence { id: 2, session: info("bob") },
    ];
    assert_eq!(ids_of_presences(&roster), vec![9, 2]);
    assert_eq!(ids_of_presences(&Vec::new()), Vec::<usize>::new());
}
