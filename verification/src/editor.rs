use crate::editor::command::messages::{
    ClientToServerMessage, ClientToServerMessageView, ServerCommand, ServerCommandView,
    ServerTick, UserTick,
};
use crate::editor::command::user::new_user;
use crate::editor::command::{
    after_command, after_event, command_notices, event_notices, handle_client_command,
    handle_editor_event, in_order, lemma_command_keeps_ids_distinct,
    lemma_command_keeps_ids_fresh, lemma_command_keeps_order, lemma_command_keeps_user_ids,
    lemma_event_keeps_ids_distinct, lemma_event_keeps_ids_fresh, lemma_event_keeps_order,
};
use crate::editor::dispatcher::{
    deliveries, delivery_views, to_all, Delivery, DeliveryView, Dispatcher,
    DispatcherMessageView,
};
use crate::editor::state::order::{
    distinct_ids, ids_below, is_position_of_id, lemma_filter_keeps_ids_below,
    lemma_position_absent, lemma_position_found, lemma_position_is_first,
    lemma_same_ids_stay_below, lemma_same_ids_stay_distinct, position_of_id, Identified,
};
use crate::editor::state::user::{swap_removed, user_views, UserInfo, UserInfoView};
use crate::editor::state::{EditorEvent, EditorState, EditorStateView};
use crate::util::reverse;
use crate::{SessionInfo, SessionInfoView};
use vstd::prelude::*;

pub mod command;
pub mod dispatcher;
pub mod state;

verus! {

/// The number of a tick, counted from the start of the session.
pub type TickNumber = u32;

/// After this many ticks in a row with nobody connected a session ends.
pub const IDLE_TICK_LIMIT: u32 = 200;

/// Every so many ticks the document is due to be saved.
pub const SAVE_INTERVAL: u32 = 600;

/// What a tick leaves for its caller to do.
#[derive(Debug, PartialEq, Eq)]
pub struct TickOutcome {
    /// Whether the session goes on. Once this is `false` the session has
    /// ended and no tick does anything any more.
    pub running: bool,
    /// The messages to send, in order.
    pub deliveries: Vec<Delivery>,
    /// Whether the document is due to be saved.
    pub persist: bool,
}

/// The value of a [`TickOutcome`].
pub ghost struct TickOutcomeView {
    pub running: bool,
    pub deliveries: Seq<DeliveryView>,
    pub persist: bool,
}

impl View for TickOutcome {
    type V = TickOutcomeView;

    open spec fn view(&self) -> TickOutcomeView {
        TickOutcomeView {
            running: self.running,
            deliveries: delivery_views(self.deliveries@),
            persist: self.persist,
        }
    }
}

/// How far a tick has come: the session as it stands, and what has been
/// announced since the tick began.
pub ghost struct Progress {
    pub session: EditorSessionView,
    pub notices: Seq<DispatcherMessageView>,
}

/// One connected client: the id that the session gave it and the account it
/// signed in with.
#[derive(Debug, PartialEq, Eq)]
pub struct Presence {
    pub id: usize,
    pub session: SessionInfo,
}

/// The value of a [`Presence`].
pub ghost struct PresenceView {
    pub id: usize,
    pub session: SessionInfoView,
}

impl View for Presence {
    type V = PresenceView;

    open spec fn view(&self) -> PresenceView {
        PresenceView { id: self.id, session: self.session@ }
    }
}

impl Identified for PresenceView {
    open spec fn ident(self) -> int {
        self.id as int
    }
}

/// The values of a run of presences, in order.
pub open spec fn presence_views(presences: Seq<Presence>) -> Seq<PresenceView> {
    presences.map_values(|presence: Presence| presence@)
}

impl Clone for Presence {
    fn clone(&self) -> (copy: Self)
        ensures
            copy@ == self@,
    {
        Presence { id: self.id, session: self.session.clone() }
    }
}

/// A session: one document, the clients connected to it, and the commands
/// that arrived since the last tick.
#[derive(Debug, PartialEq, Eq)]
pub struct EditorSession {
    pub beatmap_id: String,
    pub state: EditorState,
    pub presences: Vec<Presence>,
    pub messages: Vec<(ClientToServerMessage, Presence)>,
    pub next_presence_id: usize,
}

/// The value of an [`EditorSession`].
pub ghost struct EditorSessionView {
    pub beatmap_id: Seq<char>,
    pub state: EditorStateView,
    pub presences: Seq<PresenceView>,
    pub messages: Seq<(ClientToServerMessageView, PresenceView)>,
    pub next_presence_id: usize,
}

/// The values of the commands that wait, each with its sender.
pub open spec fn pending_views(messages: Seq<(ClientToServerMessage, Presence)>) -> Seq<
    (ClientToServerMessageView, PresenceView),
> {
    messages.map_values(|entry: (ClientToServerMessage, Presence)| (entry.0@, entry.1@))
}

/// The ids of the presences, in order.
pub open spec fn presence_ids(presences: Seq<PresenceView>) -> Seq<usize> {
    presences.map_values(|presence: PresenceView| presence.id)
}

impl View for EditorSession {
    type V = EditorSessionView;

    open spec fn view(&self) -> EditorSessionView {
        EditorSessionView {
            beatmap_id: self.beatmap_id@,
            state: self.state@,
            presences: presence_views(self.presences@),
            messages: pending_views(self.messages@),
            next_presence_id: self.next_presence_id,
        }
    }
}

/// Picks the presences that carry another id than `id`.
pub open spec fn other_than(id: usize) -> spec_fn(PresenceView) -> bool {
    |presence: PresenceView| presence.id != id
}

impl EditorSessionView {
    /// The presence id that follows `id`; after `usize::MAX` comes zero.
    pub open spec fn id_after(id: usize) -> usize {
        if id == usize::MAX {
            0
        } else {
            (id + 1) as usize
        }
    }

    /// The session after a client joined: it is the last of the presences,
    /// under the next presence id, and its arrival waits for the next tick.
    pub open spec fn joined(self, session_info: SessionInfoView) -> EditorSessionView {
        EditorSessionView {
            presences: self.presences.push(
                PresenceView { id: self.next_presence_id, session: session_info },
            ),
            state: EditorStateView {
                events: self.state.events.push(
                    EditorEvent::UserJoined { id: self.next_presence_id },
                ),
                ..self.state
            },
            next_presence_id: Self::id_after(self.next_presence_id),
            ..self
        }
    }

    /// The session after the presence `id` left: no presence carries `id`
    /// any more, and the departure waits for the next tick. If no presence
    /// carried `id`, nothing changes.
    pub open spec fn left(self, id: usize) -> EditorSessionView {
        if position_of_id(self.presences, id as int) is Some {
            EditorSessionView {
                presences: self.presences.filter(other_than(id)),
                state: EditorStateView {
                    events: self.state.events.push(EditorEvent::UserLeft { id }),
                    ..self.state
                },
                ..self
            }
        } else {
            self
        }
    }

    /// The session after `message` arrived from the presence `id`: the
    /// message waits for the next tick, with the first presence that carries
    /// `id`. If no presence carries `id`, the message is dropped.
    pub open spec fn received(
        self,
        id: usize,
        message: ClientToServerMessageView,
    ) -> EditorSessionView {
        match position_of_id(self.presences, id as int) {
            Some(index) => EditorSessionView {
                messages: self.messages.push((message, self.presences[index])),
                ..self
            },
            None => self,
        }
    }
}

/// Handles each of `events` in turn.
pub open spec fn handle_events(start: Progress, events: Seq<EditorEvent>) -> Progress
    decreases events.len(),
{
    if events.len() == 0 {
        start
    } else {
        let before = handle_events(start, events.drop_last());
        Progress {
            session: after_event(before.session, events.last()),
            notices: before.notices + event_notices(before.session, events.last()),
        }
    }
}

/// Handles each of `commands` in turn, each for the presence that sent it.
pub open spec fn handle_commands(
    start: Progress,
    commands: Seq<(ClientToServerMessageView, PresenceView)>,
) -> Progress
    decreases commands.len(),
{
    if commands.len() == 0 {
        start
    } else {
        let before = handle_commands(start, commands.drop_last());
        let (message, sender) = commands.last();
        Progress {
            session: after_command(before.session, message, sender.id),
            notices: before.notices + command_notices(before.session, message, sender.id),
        }
    }
}

/// Where every user's cursor and playback stand, in the order of the users.
pub open spec fn user_ticks(users: Seq<UserInfoView>) -> Seq<UserTick> {
    users.map_values(|user: UserInfoView| UserTick::of(user))
}

/// One of `users` carries `id`, or an arrival among `events` names it.
pub open spec fn accounted_for(
    users: Seq<UserInfoView>,
    events: Seq<EditorEvent>,
    id: usize,
) -> bool {
    ||| exists|i: int| 0 <= i < users.len() && (#[trigger] users[i]).presence.id == id
    ||| exists|k: int|
        0 <= k < events.len() && #[trigger] events[k] == (EditorEvent::UserJoined { id })
}

/// No arrival among `events` names the id of one of `users`, and no two
/// arrivals name one id.
pub open spec fn arrivals_sound(users: Seq<UserInfoView>, events: Seq<EditorEvent>) -> bool {
    &&& forall|k: int, i: int|
        0 <= k < events.len() && 0 <= i < users.len() ==> #[trigger] events[k]
            != (EditorEvent::UserJoined { id: (#[trigger] users[i]).presence.id })
    &&& forall|k: int, l: int|
        0 <= k < l < events.len() && events[k] is UserJoined ==> #[trigger] events[k]
            != #[trigger] events[l]
}

/// Every arrival among `events` names an id below `bound`.
pub open spec fn arrivals_below(events: Seq<EditorEvent>, bound: int) -> bool {
    forall|k: int|
        0 <= k < events.len() ==> (#[trigger] events[k] matches EditorEvent::UserJoined { id }
            ==> id < bound)
}

impl EditorSessionView {
    /// The users are sound: every user has an id of its own, below the
    /// counter that hands out the next presence id; so has every arrival
    /// that waits for the next tick, and none of them names a user. While
    /// that is so, a departure that is handled leaves no user with the id.
    pub open spec fn roster_sound(self) -> bool {
        &&& distinct_ids(self.state.users)
        &&& ids_below(self.state.users, self.next_presence_id as int)
        &&& arrivals_sound(self.state.users, self.state.events)
        &&& arrivals_below(self.state.events, self.next_presence_id as int)
    }

    /// Every presence and every user carries an id below the counter that
    /// hands out the next presence id. While that is so, no client that joins
    /// gets an id that is in use.
    pub open spec fn presences_fresh(self) -> bool {
        &&& ids_below(self.presences, self.next_presence_id as int)
        &&& ids_below(self.state.users, self.next_presence_id as int)
    }

    /// No presence and no user carries `id`.
    pub open spec fn presence_id_unused(self, id: usize) -> bool {
        &&& forall|i: int| 0 <= i < self.presences.len() ==> (#[trigger] self.presences[i]).id != id
        &&& forall|i: int|
            0 <= i < self.state.users.len() ==> (#[trigger] self.state.users[i]).presence.id != id
    }

    /// Every id in use lies below the counter that hands out the next one of
    /// its kind: the ids of hit objects, of timing points and of presences.
    pub open spec fn ids_fresh(self) -> bool {
        self.state.ids_fresh() && self.presences_fresh()
    }

    /// Each counter of the document has an id left for every command that
    /// waits for the next tick.
    pub open spec fn has_room_for_tick(self) -> bool {
        self.state.has_room(self.messages.len() as int)
    }

    /// The session has ended: nobody was connected for as many ticks in a
    /// row as the limit allows.
    pub open spec fn terminated(self) -> bool {
        self.state.empty_ticks >= IDLE_TICK_LIMIT
    }

    /// The session with nothing waiting for a tick.
    pub open spec fn drained(self) -> EditorSessionView {
        EditorSessionView {
            state: EditorStateView { events: Seq::empty(), ..self.state },
            messages: Seq::empty(),
            ..self
        }
    }

    /// The session with the tick counted: one more tick with nobody
    /// connected, or none if somebody is.
    pub open spec fn counted(self) -> EditorSessionView {
        EditorSessionView {
            state: EditorStateView {
                empty_ticks: if self.presences.len() == 0 {
                    (self.state.empty_ticks + 1) as u32
                } else {
                    0
                },
                ..self.state
            },
            ..self
        }
    }

    /// What a tick does to a session that has not ended: the roster changes
    /// that waited are handled in the order in which they came, then the
    /// commands that waited, in the order in which they came; then the
    /// positions of all users are announced to everybody and the tick is
    /// counted.
    pub open spec fn ticked(self) -> Progress {
        let start = Progress { session: self.drained(), notices: Seq::empty() };
        let handled = handle_commands(handle_events(start, self.state.events), self.messages);
        Progress {
            session: handled.session.counted(),
            notices: handled.notices.push(
                to_all(ServerCommandView::Tick(user_ticks(handled.session.state.users))),
            ),
        }
    }
}

/// Handling a command or a roster change leaves alone who is connected, what
/// waits for a tick, the count of empty ticks and the next presence id.
pub open spec fn same_frame(before: EditorSessionView, after: EditorSessionView) -> bool {
    &&& after.beatmap_id == before.beatmap_id
    &&& after.presences == before.presences
    &&& after.messages == before.messages
    &&& after.next_presence_id == before.next_presence_id
    &&& after.state.events == before.state.events
    &&& after.state.empty_ticks == before.state.empty_ticks
    &&& after.state.difficulty == before.state.difficulty
}

/// No roster change that is handled touches the frame of the session.
pub proof fn lemma_events_keep_frame(start: Progress, events: Seq<EditorEvent>)
    ensures
        same_frame(start.session, handle_events(start, events).session),
    decreases events.len(),
{
    if events.len() > 0 {
        lemma_events_keep_frame(start, events.drop_last());
    }
}

/// No command that is handled touches the frame of the session.
pub proof fn lemma_commands_keep_frame(
    start: Progress,
    commands: Seq<(ClientToServerMessageView, PresenceView)>,
)
    ensures
        same_frame(start.session, handle_commands(start, commands).session),
    decreases commands.len(),
{
    if commands.len() > 0 {
        lemma_commands_keep_frame(start, commands.drop_last());
    }
}

impl EditorSessionView {
    /// What one tick makes of the session: nothing once it has ended.
    pub open spec fn after_tick(self) -> EditorSessionView {
        if self.terminated() {
            self
        } else {
            self.ticked().session
        }
    }

    /// What one tick announces: nothing once the session has ended.
    pub open spec fn tick_notices(self) -> Seq<DispatcherMessageView> {
        if self.terminated() {
            Seq::empty()
        } else {
            self.ticked().notices
        }
    }

    /// What the tick number `tick` leaves for its caller to do, when
    /// `scheduled` is what the dispatcher holds at the end of the tick. A
    /// session that has ended asks for nothing. Otherwise everything
    /// scheduled is delivered to the presences connected after the tick, the
    /// document is due on every tick that the save interval divides, and the
    /// session goes on unless the tick was the last that the limit allows.
    pub open spec fn tick_outcome(
        self,
        tick: TickNumber,
        scheduled: Seq<DispatcherMessageView>,
    ) -> TickOutcomeView {
        if self.terminated() {
            TickOutcomeView { running: false, deliveries: Seq::empty(), persist: false }
        } else {
            TickOutcomeView {
                running: !self.after_tick().terminated(),
                deliveries: deliveries(scheduled, presence_ids(self.after_tick().presences)),
                persist: tick % SAVE_INTERVAL == 0,
            }
        }
    }

    /// What `count` ticks in a row make of the session, with no arrival, no
    /// departure and no command between them.
    pub open spec fn after_ticks(self, count: nat) -> EditorSessionView
        decreases count,
    {
        if count == 0 {
            self
        } else {
            self.after_ticks((count - 1) as nat).after_tick()
        }
    }
}

/// A tick leaves the roster as it is and counts itself: with nobody connected
/// the count of empty ticks goes up by one, with anybody connected it goes
/// back to zero.
pub proof fn lemma_tick_counts(session: EditorSessionView)
    requires
        !session.terminated(),
    ensures
        session.after_tick().presences == session.presences,
        session.after_tick().next_presence_id == session.next_presence_id,
        session.after_tick().state.events == Seq::<EditorEvent>::empty(),
        session.after_tick().messages == Seq::<
            (ClientToServerMessageView, PresenceView),
        >::empty(),
        session.after_tick().state.empty_ticks == (if session.presences.len() == 0 {
            session.state.empty_ticks + 1
        } else {
            0
        }),
{
    let start = Progress { session: session.drained(), notices: Seq::empty() };
    lemma_events_keep_frame(start, session.state.events);
    lemma_commands_keep_frame(handle_events(start, session.state.events), session.messages);
}

/// A session that has ended stays as it is, however many ticks follow.
pub proof fn lemma_terminated_stays(session: EditorSessionView, count: nat)
    requires
        session.terminated(),
    ensures
        session.after_ticks(count) == session,
    decreases count,
{
    if count > 0 {
        lemma_terminated_stays(session, (count - 1) as nat);
    }
}

/// With nobody connected, every tick brings the end nearer by one: after
/// `count` ticks the count of empty ticks has grown by `count`, unless the
/// limit stopped it before.
pub proof fn lemma_idle_ticks_add_up(session: EditorSessionView, count: nat)
    requires
        session.presences.len() == 0,
        !session.terminated(),
    ensures
        session.after_ticks(count).presences.len() == 0,
        session.after_ticks(count).state.empty_ticks == (if session.state.empty_ticks + count
            <= IDLE_TICK_LIMIT {
            session.state.empty_ticks + count
        } else {
            IDLE_TICK_LIMIT as int
        }),
    decreases count,
{
    if count > 0 {
        lemma_idle_ticks_add_up(session, (count - 1) as nat);
        let before = session.after_ticks((count - 1) as nat);
        if !before.terminated() {
            lemma_tick_counts(before);
        }
    }
}

/// A session with nobody connected has ended after as many ticks as the
/// limit says, at the latest, and no tick after that changes it.
pub proof fn lemma_idle_session_ends(session: EditorSessionView, later: nat)
    requires
        session.presences.len() == 0,
    ensures
        session.after_ticks(IDLE_TICK_LIMIT as nat).terminated(),
        session.after_ticks(IDLE_TICK_LIMIT as nat + later) == session.after_ticks(
            IDLE_TICK_LIMIT as nat,
        ),
{
    if session.terminated() {
        lemma_terminated_stays(session, IDLE_TICK_LIMIT as nat);
        lemma_terminated_stays(session, IDLE_TICK_LIMIT as nat + later);
    } else {
        lemma_idle_ticks_add_up(session, IDLE_TICK_LIMIT as nat);
        lemma_ticks_compose(session, IDLE_TICK_LIMIT as nat, later);
        lemma_terminated_stays(session.after_ticks(IDLE_TICK_LIMIT as nat), later);
    }
}

/// Ticks in a row can be counted in two runs.
pub proof fn lemma_ticks_compose(session: EditorSessionView, first: nat, second: nat)
    ensures
        session.after_ticks(first + second) == session.after_ticks(first).after_ticks(second),
    decreases second,
{
    if second > 0 {
        lemma_ticks_compose(session, first, (second - 1) as nat);
    }
}

/// The roster changes that a tick handles keep the stores in order.
pub proof fn lemma_events_keep_order(start: Progress, events: Seq<EditorEvent>)
    requires
        in_order(start.session),
    ensures
        in_order(handle_events(start, events).session),
    decreases events.len(),
{
    if events.len() > 0 {
        lemma_events_keep_order(start, events.drop_last());
        lemma_event_keeps_order(handle_events(start, events.drop_last()).session, events.last());
    }
}

/// The commands that a tick handles keep the stores in order.
pub proof fn lemma_commands_keep_order(
    start: Progress,
    commands: Seq<(ClientToServerMessageView, PresenceView)>,
)
    requires
        in_order(start.session),
    ensures
        in_order(handle_commands(start, commands).session),
    decreases commands.len(),
{
    if commands.len() > 0 {
        lemma_commands_keep_order(start, commands.drop_last());
        let (message, sender) = commands.last();
        lemma_command_keeps_order(
            handle_commands(start, commands.drop_last()).session,
            message,
            sender.id,
        );
    }
}

/// The roster changes that a tick handles keep every id in use below its
/// counter and leave the counters of the document where they are.
pub proof fn lemma_events_keep_ids_fresh(start: Progress, events: Seq<EditorEvent>)
    requires
        start.session.ids_fresh(),
    ensures
        handle_events(start, events).session.ids_fresh(),
        handle_events(start, events).session.state.next_hit_object_id
            == start.session.state.next_hit_object_id,
        handle_events(start, events).session.state.next_timing_point_id
            == start.session.state.next_timing_point_id,
    decreases events.len(),
{
    if events.len() > 0 {
        lemma_events_keep_ids_fresh(start, events.drop_last());
        lemma_event_keeps_ids_fresh(
            handle_events(start, events.drop_last()).session,
            events.last(),
        );
    }
}

/// The commands that a tick handles keep every id in use below its counter,
/// as long as each counter of the document has an id left for every command.
pub proof fn lemma_commands_keep_ids_fresh(
    start: Progress,
    commands: Seq<(ClientToServerMessageView, PresenceView)>,
)
    requires
        in_order(start.session),
        start.session.ids_fresh(),
        start.session.state.has_room(commands.len() as int),
    ensures
        handle_commands(start, commands).session.ids_fresh(),
        handle_commands(start, commands).session.state.next_hit_object_id
            <= start.session.state.next_hit_object_id + commands.len(),
        handle_commands(start, commands).session.state.next_timing_point_id
            <= start.session.state.next_timing_point_id + commands.len(),
    decreases commands.len(),
{
    if commands.len() > 0 {
        lemma_commands_keep_ids_fresh(start, commands.drop_last());
        lemma_commands_keep_order(start, commands.drop_last());
        let (message, sender) = commands.last();
        lemma_command_keeps_ids_fresh(
            handle_commands(start, commands.drop_last()).session,
            message,
            sender.id,
        );
    }
}

/// The roster changes that a tick handles leave every user with an id of its
/// own, where the users had ids of their own and no arrival names a user or
/// the id of another arrival. Each user afterwards was a user before or is
/// named by an arrival.
pub proof fn lemma_events_keep_users_distinct(start: Progress, events: Seq<EditorEvent>)
    requires
        distinct_ids(start.session.state.users),
        arrivals_sound(start.session.state.users, events),
    ensures
        distinct_ids(handle_events(start, events).session.state.users),
        forall|i: int|
            0 <= i < handle_events(start, events).session.state.users.len() ==> accounted_for(
                start.session.state.users,
                events,
                (#[trigger] handle_events(start, events).session.state.users[i]).presence.id,
            ),
    decreases events.len(),
{
    let first = start.session.state.users;
    if events.len() == 0 {
        assert forall|i: int| 0 <= i < first.len() implies accounted_for(
            first,
            events,
            (#[trigger] first[i]).presence.id,
        ) by {}
    } else {
        let front = events.drop_last();
        let last = events.last();
        assert(last == events[events.len() - 1]);
        assert(arrivals_sound(first, front)) by {
            assert forall|k: int, i: int|
                0 <= k < front.len() && 0 <= i < first.len() implies #[trigger] front[k]
                != (EditorEvent::UserJoined { id: (#[trigger] first[i]).presence.id }) by {
                assert(front[k] == events[k]);
            }
            assert forall|k: int, l: int|
                0 <= k < l < front.len() && front[k] is UserJoined implies #[trigger] front[k]
                != #[trigger] front[l] by {
                assert(front[k] == events[k] && front[l] == events[l]);
            }
        }
        lemma_events_keep_users_distinct(start, front);
        let before = handle_events(start, front).session;
        let users = before.state.users;
        let after = handle_events(start, events).session.state.users;
        assert forall|i: int| 0 <= i < users.len() implies accounted_for(
            first,
            events,
            (#[trigger] users[i]).presence.id,
        ) by {
            let id = users[i].presence.id;
            if exists|k: int|
                0 <= k < front.len() && #[trigger] front[k] == (EditorEvent::UserJoined { id }) {
                let k = choose|k: int|
                    0 <= k < front.len() && #[trigger] front[k] == (EditorEvent::UserJoined { id });
                assert(events[k] == front[k]);
            }
        }
        match last {
            EditorEvent::UserJoined { id } => {
                lemma_position_is_first(before.presences, id as int);
                if let Some(index) = position_of_id(before.presences, id as int) {
                    let user = new_user(before.presences[index]);
                    assert(after == users.push(user));
                    assert forall|i: int| 0 <= i < users.len() implies (
                    #[trigger] users[i]).presence.id != id by {
                        let held = users[i].presence.id;
                        if held == id {
                            if exists|j: int|
                                0 <= j < first.len() && (#[trigger] first[j]).presence.id == held {
                                let j = choose|j: int|
                                    0 <= j < first.len() && (#[trigger] first[j]).presence.id
                                        == held;
                                assert(events[events.len() - 1] != (EditorEvent::UserJoined {
                                    id: first[j].presence.id,
                                }));
                            } else {
                                let k = choose|k: int|
                                    0 <= k < front.len() && #[trigger] front[k] == (
                                    EditorEvent::UserJoined { id: held });
                                assert(events[k] == front[k]);
                                assert(events[k] != events[events.len() - 1]);
                            }
                        }
                    }
                    assert forall|i: int, j: int| 0 <= i < j < after.len() implies (
                    #[trigger] after[i]).ident() != (#[trigger] after[j]).ident() by {
                        assert(after[i] == users[i]);
                        if j < users.len() {
                            assert(after[j] == users[j]);
                            assert(users[i].ident() != users[j].ident());
                        }
                    }
                    assert forall|i: int| 0 <= i < after.len() implies accounted_for(
                        first,
                        events,
                        (#[trigger] after[i]).presence.id,
                    ) by {
                        if i < users.len() {
                            assert(after[i] == users[i]);
                        } else {
                            assert(events[events.len() - 1] == (EditorEvent::UserJoined { id }));
                        }
                    }
                }
            },
            EditorEvent::UserLeft { id } => {
                lemma_position_is_first(users, id as int);
                if let Some(index) = position_of_id(users, id as int) {
                    assert(after == swap_removed(users, index));
                    assert forall|i: int| 0 <= i < after.len() implies #[trigger] after[i]
                        == users[if i == index { users.len() - 1 } else { i }] by {}
                    assert forall|i: int, j: int| 0 <= i < j < after.len() implies (
                    #[trigger] after[i]).ident() != (#[trigger] after[j]).ident() by {
                        let from_i = if i == index { users.len() - 1 } else { i };
                        let from_j = if j == index { users.len() - 1 } else { j };
                        assert(after[i] == users[from_i]);
                        assert(after[j] == users[from_j]);
                        if from_i < from_j {
                            assert(users[from_i].ident() != users[from_j].ident());
                        } else {
                            assert(users[from_j].ident() != users[from_i].ident());
                        }
                    }
                    assert forall|i: int| 0 <= i < after.len() implies accounted_for(
                        first,
                        events,
                        (#[trigger] after[i]).presence.id,
                    ) by {
                        let from_i = if i == index { users.len() - 1 } else { i };
                        assert(after[i] == users[from_i]);
                    }
                }
            },
        }
    }
}

/// The commands that a tick handles leave the users in their places and each
/// with its id.
pub proof fn lemma_commands_keep_user_ids(
    start: Progress,
    commands: Seq<(ClientToServerMessageView, PresenceView)>,
)
    ensures
        handle_commands(start, commands).session.state.users.len()
            == start.session.state.users.len(),
        forall|i: int|
            0 <= i < start.session.state.users.len() ==> (#[trigger] handle_commands(
                start,
                commands,
            ).session.state.users[i]).presence.id == start.session.state.users[i].presence.id,
    decreases commands.len(),
{
    if commands.len() > 0 {
        lemma_commands_keep_user_ids(start, commands.drop_last());
        let (message, sender) = commands.last();
        lemma_command_keeps_user_ids(
            handle_commands(start, commands.drop_last()).session,
            message,
            sender.id,
        );
    }
}

/// A tick keeps the users sound, whatever waited for it.
pub proof fn lemma_tick_keeps_roster_sound(session: EditorSessionView)
    requires
        session.roster_sound(),
    ensures
        session.after_tick().roster_sound(),
{
    if !session.terminated() {
        let start = Progress { session: session.drained(), notices: Seq::empty() };
        let events = session.state.events;
        let handled = handle_events(start, events);
        lemma_events_keep_users_distinct(start, events);
        lemma_events_keep_frame(start, events);
        lemma_commands_keep_user_ids(handled, session.messages);
        lemma_commands_keep_frame(handled, session.messages);
        let users = handled.session.state.users;
        let after = session.after_tick();
        let bound = session.next_presence_id as int;
        assert forall|i: int| 0 <= i < users.len() implies (#[trigger] users[i]).ident()
            < bound by {
            let id = users[i].presence.id;
            assert(accounted_for(session.state.users, events, id));
            if exists|j: int|
                0 <= j < session.state.users.len() && (
                #[trigger] session.state.users[j]).presence.id == id {
                let j = choose|j: int|
                    0 <= j < session.state.users.len() && (
                    #[trigger] session.state.users[j]).presence.id == id;
                assert(session.state.users[j].ident() < bound);
            } else {
                let k = choose|k: int|
                    0 <= k < events.len() && #[trigger] events[k] == (EditorEvent::UserJoined {
                        id,
                    });
                assert(events[k] matches EditorEvent::UserJoined { id } ==> id < bound);
            }
        }
        lemma_same_ids_stay_below(users, after.state.users, bound);
        lemma_same_ids_stay_distinct(users, after.state.users);
    }
}

/// The roster changes that a tick handles leave every hit object and every
/// timing point with an id of its own.
pub proof fn lemma_events_keep_ids_distinct(start: Progress, events: Seq<EditorEvent>)
    requires
        start.session.state.ids_distinct(),
    ensures
        handle_events(start, events).session.state.ids_distinct(),
    decreases events.len(),
{
    if events.len() > 0 {
        lemma_events_keep_ids_distinct(start, events.drop_last());
        lemma_event_keeps_ids_distinct(
            handle_events(start, events.drop_last()).session,
            events.last(),
        );
    }
}

/// The commands that a tick handles leave every hit object and every timing
/// point with an id of its own, as long as the ids in use lie below their
/// counters and each counter has an id left for every command.
pub proof fn lemma_commands_keep_ids_distinct(
    start: Progress,
    commands: Seq<(ClientToServerMessageView, PresenceView)>,
)
    requires
        in_order(start.session),
        start.session.ids_fresh(),
        start.session.state.ids_distinct(),
        start.session.state.has_room(commands.len() as int),
    ensures
        handle_commands(start, commands).session.state.ids_distinct(),
    decreases commands.len(),
{
    if commands.len() > 0 {
        lemma_commands_keep_ids_distinct(start, commands.drop_last());
        lemma_commands_keep_ids_fresh(start, commands.drop_last());
        lemma_commands_keep_order(start, commands.drop_last());
        let (message, sender) = commands.last();
        lemma_command_keeps_ids_distinct(
            handle_commands(start, commands.drop_last()).session,
            message,
            sender.id,
        );
    }
}

/// Whatever waits for a tick, the tick leaves every hit object and every
/// timing point with an id of its own, as long as the ids in use lie below
/// their counters and each counter has an id left for every command that
/// waits.
pub proof fn lemma_tick_keeps_ids_distinct(session: EditorSessionView)
    requires
        in_order(session),
        session.ids_fresh(),
        session.state.ids_distinct(),
        session.state.has_room(session.messages.len() as int),
    ensures
        session.after_tick().state.ids_distinct(),
{
    if !session.terminated() {
        let start = Progress { session: session.drained(), notices: Seq::empty() };
        let handled = handle_events(start, session.state.events);
        lemma_events_keep_ids_fresh(start, session.state.events);
        lemma_events_keep_ids_distinct(start, session.state.events);
        lemma_events_keep_order(start, session.state.events);
        lemma_commands_keep_ids_distinct(handled, session.messages);
    }
}

/// Whatever waits for a tick, the tick keeps every id in use below its
/// counter, as long as each counter of the document has an id left for every
/// command that waits.
pub proof fn lemma_tick_keeps_ids_fresh(session: EditorSessionView)
    requires
        in_order(session),
        session.ids_fresh(),
        session.state.has_room(session.messages.len() as int),
    ensures
        session.after_tick().ids_fresh(),
{
    if !session.terminated() {
        let start = Progress { session: session.drained(), notices: Seq::empty() };
        let handled = handle_events(start, session.state.events);
        lemma_events_keep_ids_fresh(start, session.state.events);
        lemma_events_keep_order(start, session.state.events);
        lemma_commands_keep_ids_fresh(handled, session.messages);
    }
}

/// Whatever waits for a tick, the tick keeps the stores in order.
pub proof fn lemma_tick_keeps_order(session: EditorSessionView)
    requires
        in_order(session),
    ensures
        in_order(session.after_tick()),
{
    if !session.terminated() {
        let start = Progress { session: session.drained(), notices: Seq::empty() };
        lemma_events_keep_order(start, session.state.events);
        lemma_commands_keep_order(handle_events(start, session.state.events), session.messages);
    }
}

/// Where every user's cursor and playback stand, in the order of the users.
pub fn collect_user_ticks(users: &Vec<UserInfo>) -> (ticks: Vec<UserTick>)
    ensures
        ticks@ == user_ticks(user_views(users@)),
{
    let mut ticks: Vec<UserTick> = Vec::new();
    let mut index: usize = 0;
    while index < users.len()
        invariant
            index <= users.len(),
            ticks@ == user_ticks(user_views(users@.take(index as int))),
        decreases users.len() - index,
    {
        ticks.push(UserTick::from(&users[index]));
        index += 1;
    }
    ticks
}

/// While the presence ids in use lie below the counter and the counter has an
/// id left, a client that joins keeps them below it: it takes the id at the
/// counter, which nobody carried, and the counter moves on.
pub proof fn lemma_joined_keeps_ids_fresh(session: EditorSessionView, session_info: SessionInfoView)
    requires
        session.ids_fresh(),
        session.next_presence_id < usize::MAX,
    ensures
        session.joined(session_info).ids_fresh(),
{
    let after = session.joined(session_info);
    assert forall|i: int| 0 <= i < after.presences.len() implies (
    #[trigger] after.presences[i]).ident() < after.next_presence_id by {
        if i < session.presences.len() {
            assert(after.presences[i] == session.presences[i]);
        }
    }
}

/// A client that joins keeps the users sound, as long as the counter has an
/// id left: its arrival names the id at the counter, which no user carries
/// and no other arrival names.
pub proof fn lemma_joined_keeps_roster_sound(
    session: EditorSessionView,
    session_info: SessionInfoView,
)
    requires
        session.roster_sound(),
        session.next_presence_id < usize::MAX,
    ensures
        session.joined(session_info).roster_sound(),
{
    let after = session.joined(session_info);
    let users = session.state.users;
    let events = session.state.events;
    let id = session.next_presence_id;
    assert(after.state.events == events.push(EditorEvent::UserJoined { id }));
    assert forall|k: int, i: int|
        0 <= k < after.state.events.len() && 0 <= i < users.len() implies (
    #[trigger] after.state.events[k]) != (EditorEvent::UserJoined {
        id: (#[trigger] users[i]).presence.id,
    }) by {
        if k < events.len() {
            assert(after.state.events[k] == events[k]);
        } else {
            assert(users[i].ident() < id);
        }
    }
    assert forall|k: int, l: int|
        0 <= k < l < after.state.events.len() && after.state.events[k]
            is UserJoined implies #[trigger] after.state.events[k]
        != #[trigger] after.state.events[l] by {
        assert(after.state.events[k] == events[k]);
        if l < events.len() {
            assert(after.state.events[l] == events[l]);
        } else {
            assert(events[k] matches EditorEvent::UserJoined { id: named } ==> named < id);
        }
    }
    assert forall|k: int| 0 <= k < after.state.events.len() implies (
    #[trigger] after.state.events[k] matches EditorEvent::UserJoined { id: named } ==> named
        < after.next_presence_id) by {
        if k < events.len() {
            assert(after.state.events[k] == events[k]);
            assert(events[k] matches EditorEvent::UserJoined { id: named } ==> named < id);
        }
    }
}

/// A client that leaves keeps the users sound.
pub proof fn lemma_left_keeps_roster_sound(session: EditorSessionView, id: usize)
    requires
        session.roster_sound(),
    ensures
        session.left(id).roster_sound(),
{
    let after = session.left(id);
    let users = session.state.users;
    let events = session.state.events;
    if position_of_id(session.presences, id as int) is Some {
        assert(after.state.events == events.push(EditorEvent::UserLeft { id }));
        assert forall|k: int, i: int|
            0 <= k < after.state.events.len() && 0 <= i < users.len() implies (
        #[trigger] after.state.events[k]) != (EditorEvent::UserJoined {
            id: (#[trigger] users[i]).presence.id,
        }) by {
            if k < events.len() {
                assert(after.state.events[k] == events[k]);
            }
        }
        assert forall|k: int, l: int|
            0 <= k < l < after.state.events.len() && after.state.events[k]
                is UserJoined implies #[trigger] after.state.events[k]
            != #[trigger] after.state.events[l] by {
            assert(after.state.events[k] == events[k]);
            if l < events.len() {
                assert(after.state.events[l] == events[l]);
            }
        }
        assert forall|k: int| 0 <= k < after.state.events.len() implies (
        #[trigger] after.state.events[k] matches EditorEvent::UserJoined { id: named } ==> named
            < after.next_presence_id) by {
            if k < events.len() {
                assert(after.state.events[k] == events[k]);
                assert(events[k] matches EditorEvent::UserJoined { id: named } ==> named
                    < session.next_presence_id);
            }
        }
    }
}

/// A client that leaves keeps every id in use below its counter.
pub proof fn lemma_left_keeps_ids_fresh(session: EditorSessionView, id: usize)
    requires
        session.ids_fresh(),
    ensures
        session.left(id).ids_fresh(),
{
    lemma_filter_keeps_ids_below(
        session.presences,
        other_than(id),
        session.next_presence_id as int,
    );
}

impl EditorSession {
    /// Runs one tick. On a session that has ended it does nothing and says
    /// so. Otherwise it handles what waited, announces where the users are,
    /// counts the tick and turns everything that `dispatcher` holds into
    /// deliveries for the presences that are connected. The caller sends the
    /// deliveries and, where `persist` is set, saves the document.
    pub fn tick(&mut self, tick: TickNumber, dispatcher: &mut Dispatcher) -> (outcome: TickOutcome)
        ensures
            final(self)@ == old(self)@.after_tick(),
            final(dispatcher)@ == old(dispatcher)@ + old(self)@.tick_notices(),
            outcome@ == old(self)@.tick_outcome(tick, final(dispatcher)@),
            in_order(final(self)@),
            old(self)@.roster_sound() ==> final(self)@.roster_sound(),
            old(self)@.ids_fresh() && old(self)@.has_room_for_tick() ==> final(self)@.ids_fresh(),
            old(self)@.ids_fresh() && old(self)@.has_room_for_tick()
                && old(self)@.state.ids_distinct() ==> final(self)@.state.ids_distinct(),
    {
        proof {
            use_type_invariant(&self.state.hit_objects);
            use_type_invariant(&self.state.timing);
            if self@.roster_sound() {
                lemma_tick_keeps_roster_sound(self@);
            }
            if self@.ids_fresh() && self@.has_room_for_tick() {
                lemma_tick_keeps_ids_fresh(self@);
                if self@.state.ids_distinct() {
                    lemma_tick_keeps_ids_distinct(self@);
                }
            }
        }
        if self.state.empty_ticks >= IDLE_TICK_LIMIT {
            let outcome = TickOutcome { running: false, deliveries: Vec::new(), persist: false };
            assert(outcome@.deliveries =~= Seq::empty());
            return outcome;
        }
        let ghost start = Progress { session: self@.drained(), notices: Seq::empty() };
        let mut events: Vec<EditorEvent> = Vec::new();
        std::mem::swap(&mut events, &mut self.state.events);
        let mut waiting: Vec<(ClientToServerMessage, Presence)> = Vec::new();
        std::mem::swap(&mut waiting, &mut self.messages);
        let ghost commands = pending_views(waiting@);
        assert(self@.messages =~= Seq::empty());

        let mut index: usize = 0;
        while index < events.len()
            invariant
                index <= events.len(),
                self@ == handle_events(start, events@.take(index as int)).session,
                dispatcher@ == old(dispatcher)@ + handle_events(
                    start,
                    events@.take(index as int),
                ).notices,
            decreases events.len() - index,
        {
            proof {
                assert(events@.take(index + 1).drop_last() == events@.take(index as int));
            }
            handle_editor_event(self, events[index], dispatcher);
            index += 1;
        }
        assert(events@.take(index as int) == events@);
        let ghost after_events = handle_events(start, events@);

        let ghost all = waiting@;
        let mut stack = reverse(waiting);
        assert(stack.len() == all.len());
        let mut done: usize = 0;
        while stack.len() > 0
            invariant
                commands == pending_views(all),
                done + stack@.len() == all.len() <= usize::MAX,
                forall|j: int| 0 <= j < stack@.len() ==> stack@[j] == all[all.len() - 1 - j],
                self@ == handle_commands(after_events, commands.take(done as int)).session,
                dispatcher@ == old(dispatcher)@ + handle_commands(
                    after_events,
                    commands.take(done as int),
                ).notices,
            decreases stack.len(),
        {
            let (message, sender) = stack.pop().unwrap();
            proof {
                assert(commands.take(done + 1).drop_last() == commands.take(done as int));
            }
            handle_client_command(self, message, &sender, dispatcher);
            done += 1;
        }
        assert(commands.take(done as int) == commands);
        proof {
            lemma_events_keep_frame(start, events@);
            lemma_commands_keep_frame(after_events, commands);
        }

        let user_ticks = collect_user_ticks(self.state.users.all());
        dispatcher.broadcast(ServerCommand::Tick(ServerTick { user_ticks }), None);
        if self.presences.len() == 0 {
            self.state.empty_ticks += 1;
        } else {
            self.state.empty_ticks = 0;
        }
        let out = dispatcher.flush(self);
        proof {
            use_type_invariant(&self.state.hit_objects);
            use_type_invariant(&self.state.timing);
        }
        TickOutcome {
            running: self.state.empty_ticks < IDLE_TICK_LIMIT,
            deliveries: out,
            persist: tick % SAVE_INTERVAL == 0,
        }
    }

    /// A session on the document `loaded`, with nobody connected. The first
    /// presence will get the id 1. Without a document there is no session.
    pub fn create(beatmap_id: String, loaded: Option<EditorState>) -> (session: Option<Self>)
        ensures
            match loaded {
                Some(state) => session matches Some(created) && created@ == (EditorSessionView {
                    beatmap_id: beatmap_id@,
                    state: state@,
                    presences: Seq::empty(),
                    messages: Seq::empty(),
                    next_presence_id: 1,
                }) && (state@.ids_fresh() && ids_below(state@.users, 1)
                    ==> created@.ids_fresh()) && (state@.users.len() == 0
                    && state@.events.len() == 0 ==> created@.roster_sound()),
                None => session is None,
            },
    {
        match loaded {
            Some(state) => {
                let created = EditorSession {
                    beatmap_id,
                    state,
                    presences: Vec::new(),
                    messages: Vec::new(),
                    next_presence_id: 1,
                };
                assert(created@.messages =~= Seq::empty());
                assert(created@.presences =~= Seq::empty());
                Some(created)
            },
            None => None,
        }
    }

    /// The place of the first presence that carries `id`.
    fn position(&self, id: usize) -> (found: Option<usize>)
        ensures
            match found {
                Some(index) => position_of_id(self@.presences, id as int) == Some(index as int)
                    && index < self.presences@.len(),
                None => position_of_id(self@.presences, id as int) is None,
            },
            is_position_of_id(
                self@.presences,
                id as int,
                position_of_id(self@.presences, id as int),
            ),
    {
        let mut index: usize = 0;
        while index < self.presences.len()
            invariant
                index <= self.presences.len(),
                forall|j: int| 0 <= j < index ==> (#[trigger] self@.presences[j]).id != id,
            decreases self.presences.len() - index,
        {
            if self.presences[index].id == id {
                proof {
                    lemma_position_found(self@.presences, id as int, index as int);
                }
                return Some(index);
            }
            index += 1;
        }
        proof {
            lemma_position_absent(self@.presences, id as int);
        }
        None
    }

    /// The first presence that carries `id`.
    pub fn presence(&self, id: usize) -> (found: Option<Presence>)
        ensures
            is_position_of_id(
                self@.presences,
                id as int,
                position_of_id(self@.presences, id as int),
            ),
            match position_of_id(self@.presences, id as int) {
                Some(index) => found matches Some(presence) && presence@ == self@.presences[index],
                None => found is None,
            },
    {
        match self.position(id) {
            Some(index) => Some(self.presences[index].clone()),
            None => None,
        }
    }

    /// Connects a client: it becomes a presence under the next presence id,
    /// which is returned, and the next tick will announce it. While the ids
    /// in use lie below the counter, the id is one that no presence and no
    /// user carries.
    pub fn join(&mut self, session_info: &SessionInfo) -> (id: usize)
        ensures
            id == old(self)@.next_presence_id,
            final(self)@ == old(self)@.joined(session_info@),
            old(self)@.presences_fresh() ==> old(self)@.presence_id_unused(id),
            old(self)@.ids_fresh() && old(self)@.next_presence_id < usize::MAX
                ==> final(self)@.ids_fresh(),
            old(self)@.roster_sound() && old(self)@.next_presence_id < usize::MAX
                ==> final(self)@.roster_sound(),
    {
        proof {
            if self@.roster_sound() && self@.next_presence_id < usize::MAX {
                lemma_joined_keeps_roster_sound(self@, session_info@);
            }
            if self@.ids_fresh() && self@.next_presence_id < usize::MAX {
                lemma_joined_keeps_ids_fresh(self@, session_info@);
            }
        }
        let id: usize = self.next_presence_id;
        self.next_presence_id = id.wrapping_add(1);
        let presence = Presence { id, session: session_info.clone() };
        self.presences.push(presence);
        self.state.events.push(EditorEvent::UserJoined { id });
        assert(self@.presences =~= old(self)@.presences.push(presence@));
        id
    }

    /// Disconnects the presence `id`: every presence that carries `id` leaves
    /// the roster, and the next tick will announce the departure. Does
    /// nothing if no presence carries `id`.
    pub fn leave(&mut self, id: usize)
        ensures
            final(self)@ == old(self)@.left(id),
            old(self)@.ids_fresh() ==> final(self)@.ids_fresh(),
            old(self)@.roster_sound() ==> final(self)@.roster_sound(),
    {
        proof {
            if self@.roster_sound() {
                lemma_left_keeps_roster_sound(self@, id);
            }
            if self@.ids_fresh() {
                lemma_left_keeps_ids_fresh(self@, id);
            }
        }
        if self.position(id).is_some() {
            let mut kept: Vec<Presence> = Vec::new();
            let mut index: usize = 0;
            while index < self.presences.len()
                invariant
                    index <= self.presences.len(),
                    *self == *old(self),
                    presence_views(kept@) == self@.presences.take(index as int).filter(
                        other_than(id),
                    ),
                decreases self.presences.len() - index,
            {
                proof {
                    reveal(Seq::filter);
                    assert(self@.presences.take(index + 1).drop_last() == self@.presences.take(
                        index as int,
                    ));
                }
                if self.presences[index].id != id {
                    kept.push(self.presences[index].clone());
                }
                index += 1;
            }
            assert(self@.presences.take(index as int) == self@.presences);
            self.presences = kept;
            self.state.events.push(EditorEvent::UserLeft { id });
        }
    }

    /// Queues `message` from the presence `presence` for the next tick. A
    /// message from an id that no presence carries is dropped.
    pub fn insert_message(&mut self, presence: usize, message: ClientToServerMessage)
        ensures
            final(self)@ == old(self)@.received(presence, message@),
            old(self)@.ids_fresh() ==> final(self)@.ids_fresh(),
            old(self)@.roster_sound() ==> final(self)@.roster_sound(),
    {
        if let Some(sender) = self.presence(presence) {
            self.messages.push((message, sender));
            assert(self@.messages =~= old(self)@.messages.push((message@, sender@)));
        }
    }
}

} // verus!
