use crate::editor::state::difficulty::Difficulty;
use crate::editor::state::hitobject::{
    clone_hit_objects, views, HitObject, HitObjectId, HitObjectView, SliderControlPoint,
};
use crate::editor::state::timing::{TimingPoint, TimingPointId};
use crate::editor::state::user::{UserInfo, UserInfoView};
use crate::util::{copy_vec, Float, IVec2, Vec2};
use vstd::prelude::*;
use vstd::std_specs::convert::FromSpecImpl;

verus! {

/// What the server sends: a command, and the id of the request that it
/// answers, if it answers one.
#[derive(Debug, PartialEq, Eq)]
pub struct ServerToClientMessage {
    pub response_id: Option<String>,
    pub command: ServerCommand,
}

/// The commands that the server sends to its clients.
#[derive(Debug, PartialEq, Eq)]
pub enum ServerCommand {
    Multiple(Vec<ServerToClientMessage>),
    OwnId(usize),
    UserJoined(SerializedUserInfo),
    UserLeft(SerializedUserInfo),
    Tick(ServerTick),
    UserList(Vec<SerializedUserInfo>),
    HitObjectCreated(HitObject),
    HitObjectUpdated(HitObject),
    HitObjectDeleted(HitObjectId),
    HitObjectSelected { ids: Vec<HitObjectId>, selected_by: Option<usize> },
    State(ServerState),
    TimingPointCreated(TimingPoint),
    TimingPointUpdated(TimingPoint),
    TimingPointDeleted(TimingPointId),
    HitObjectOverridden { id: HitObjectId, overrides: HitObjectOverrides },
}

/// What a client sends: a command, and an id under which it expects the
/// answer, if it expects one.
#[derive(Debug, PartialEq, Eq)]
pub struct ClientToServerMessage {
    pub response_id: Option<String>,
    pub command: ClientCommand,
}

/// The commands that a client sends to the server.
#[derive(Debug, PartialEq, Eq)]
pub enum ClientCommand {
    CursorPos(Vec2),
    CurrentTime(i32),
    SelectHitObject { ids: Vec<HitObjectId>, selected: bool, unique: bool },
    CreateHitObject(HitObject),
    UpdateHitObject(HitObject),
    DeleteHitObject(Vec<HitObjectId>),
    CreateTimingPoint(TimingPoint),
    UpdateTimingPoint(TimingPoint),
    DeleteTimingPoint(Vec<TimingPointId>),
    SetHitObjectOverrides { id: HitObjectId, overrides: HitObjectOverrides },
}

/// Where every user's cursor and playback stand at the end of a tick.
#[derive(Debug, PartialEq, Eq)]
pub struct ServerTick {
    pub user_ticks: Vec<UserTick>,
}

/// Where one user's cursor and playback stand.
#[derive(Clone, Copy, Debug, PartialEq, Eq, Structural)]
pub struct UserTick {
    pub id: usize,
    pub cursor_pos: Option<Vec2>,
    pub current_time: i32,
}

/// Fields of a hit object that a client shows changed before it commits them.
#[derive(Debug, PartialEq, Eq)]
pub struct HitObjectOverrides {
    pub time: Option<i32>,
    pub position: Option<IVec2>,
    pub new_combo: Option<bool>,
    pub control_points: Option<Vec<SliderControlPoint>>,
    pub expected_distance: Option<Float>,
    pub repeat_count: Option<u32>,
}

/// A user as the clients see it.
#[derive(Debug, PartialEq, Eq)]
pub struct SerializedUserInfo {
    pub id: usize,
    pub display_name: String,
    pub cursor_pos: Option<Vec2>,
    pub current_time: i32,
}

/// The whole document, as a client gets it when it joins.
#[derive(Debug, PartialEq, Eq)]
pub struct ServerState {
    pub difficulty: Difficulty,
    pub hit_objects: Vec<HitObject>,
    pub timing_points: Vec<TimingPoint>,
}

/// The value of a [`HitObjectOverrides`].
pub ghost struct HitObjectOverridesView {
    pub time: Option<i32>,
    pub position: Option<IVec2>,
    pub new_combo: Option<bool>,
    pub control_points: Option<Seq<SliderControlPoint>>,
    pub expected_distance: Option<Float>,
    pub repeat_count: Option<u32>,
}

/// The value of a [`ServerState`].
pub ghost struct ServerStateView {
    pub difficulty: Difficulty,
    pub hit_objects: Seq<HitObjectView>,
    pub timing_points: Seq<TimingPoint>,
}

/// The value of a [`SerializedUserInfo`].
pub ghost struct SerializedUserInfoView {
    pub id: usize,
    pub display_name: Seq<char>,
    pub cursor_pos: Option<Vec2>,
    pub current_time: i32,
}

/// The value of a [`ServerToClientMessage`].
pub ghost struct ServerToClientMessageView {
    pub response_id: Option<Seq<char>>,
    pub command: ServerCommandView,
}

/// The value of a [`ServerCommand`].
pub ghost enum ServerCommandView {
    Multiple(Seq<ServerToClientMessageView>),
    OwnId(usize),
    UserJoined(SerializedUserInfoView),
    UserLeft(SerializedUserInfoView),
    Tick(Seq<UserTick>),
    UserList(Seq<SerializedUserInfoView>),
    HitObjectCreated(HitObjectView),
    HitObjectUpdated(HitObjectView),
    HitObjectDeleted(HitObjectId),
    HitObjectSelected { ids: Seq<HitObjectId>, selected_by: Option<usize> },
    State(ServerStateView),
    TimingPointCreated(TimingPoint),
    TimingPointUpdated(TimingPoint),
    TimingPointDeleted(TimingPointId),
    HitObjectOverridden { id: HitObjectId, overrides: HitObjectOverridesView },
}

/// The value of a [`ClientToServerMessage`].
pub ghost struct ClientToServerMessageView {
    pub response_id: Option<Seq<char>>,
    pub command: ClientCommandView,
}

/// The value of a [`ClientCommand`].
pub ghost enum ClientCommandView {
    CursorPos(Vec2),
    CurrentTime(i32),
    SelectHitObject { ids: Seq<HitObjectId>, selected: bool, unique: bool },
    CreateHitObject(HitObjectView),
    UpdateHitObject(HitObjectView),
    DeleteHitObject(Seq<HitObjectId>),
    CreateTimingPoint(TimingPoint),
    UpdateTimingPoint(TimingPoint),
    DeleteTimingPoint(Seq<TimingPointId>),
    SetHitObjectOverrides { id: HitObjectId, overrides: HitObjectOverridesView },
}

/// The value of a text that may be absent.
pub open spec fn text_view(text: Option<String>) -> Option<Seq<char>> {
    match text {
        Some(text) => Some(text@),
        None => None,
    }
}

impl View for SerializedUserInfo {
    type V = SerializedUserInfoView;

    open spec fn view(&self) -> SerializedUserInfoView {
        SerializedUserInfoView {
            id: self.id,
            display_name: self.display_name@,
            cursor_pos: self.cursor_pos,
            current_time: self.current_time,
        }
    }
}

/// The values of a run of user records, in order.
pub open spec fn record_views(users: Seq<SerializedUserInfo>) -> Seq<SerializedUserInfoView> {
    users.map_values(|user: SerializedUserInfo| user@)
}

impl View for ServerTick {
    type V = Seq<UserTick>;

    open spec fn view(&self) -> Seq<UserTick> {
        self.user_ticks@
    }
}

impl View for HitObjectOverrides {
    type V = HitObjectOverridesView;

    open spec fn view(&self) -> HitObjectOverridesView {
        HitObjectOverridesView {
            time: self.time,
            position: self.position,
            new_combo: self.new_combo,
            control_points: match self.control_points {
                Some(points) => Some(points@),
                None => None,
            },
            expected_distance: self.expected_distance,
            repeat_count: self.repeat_count,
        }
    }
}

impl View for ServerState {
    type V = ServerStateView;

    open spec fn view(&self) -> ServerStateView {
        ServerStateView {
            difficulty: self.difficulty,
            hit_objects: views(self.hit_objects@),
            timing_points: self.timing_points@,
        }
    }
}

impl View for ServerToClientMessage {
    type V = ServerToClientMessageView;

    open spec fn view(&self) -> ServerToClientMessageView
        decreases self,
    {
        ServerToClientMessageView {
            response_id: text_view(self.response_id),
            command: self.command.view(),
        }
    }
}

impl View for ServerCommand {
    type V = ServerCommandView;

    open spec fn view(&self) -> ServerCommandView
        decreases self,
    {
        match self {
            ServerCommand::Multiple(messages) => ServerCommandView::Multiple(
                Seq::new(
                    messages@.len(),
                    |i: int|
                        if 0 <= i < messages@.len() {
                            messages@[i].view()
                        } else {
                            arbitrary()
                        },
                ),
            ),
            ServerCommand::OwnId(id) => ServerCommandView::OwnId(*id),
            ServerCommand::UserJoined(user) => ServerCommandView::UserJoined(user@),
            ServerCommand::UserLeft(user) => ServerCommandView::UserLeft(user@),
            ServerCommand::Tick(tick) => ServerCommandView::Tick(tick@),
            ServerCommand::UserList(users) => ServerCommandView::UserList(record_views(users@)),
            ServerCommand::HitObjectCreated(object) => ServerCommandView::HitObjectCreated(
                object@,
            ),
            ServerCommand::HitObjectUpdated(object) => ServerCommandView::HitObjectUpdated(
                object@,
            ),
            ServerCommand::HitObjectDeleted(id) => ServerCommandView::HitObjectDeleted(*id),
            ServerCommand::HitObjectSelected { ids, selected_by } => {
                ServerCommandView::HitObjectSelected { ids: ids@, selected_by: *selected_by }
            },
            ServerCommand::State(state) => ServerCommandView::State(state@),
            ServerCommand::TimingPointCreated(point) => ServerCommandView::TimingPointCreated(
                *point,
            ),
            ServerCommand::TimingPointUpdated(point) => ServerCommandView::TimingPointUpdated(
                *point,
            ),
            ServerCommand::TimingPointDeleted(id) => ServerCommandView::TimingPointDeleted(*id),
            ServerCommand::HitObjectOverridden { id, overrides } => {
                ServerCommandView::HitObjectOverridden { id: *id, overrides: overrides@ }
            },
        }
    }
}

impl View for ClientCommand {
    type V = ClientCommandView;

    open spec fn view(&self) -> ClientCommandView {
        match self {
            ClientCommand::CursorPos(position) => ClientCommandView::CursorPos(*position),
            ClientCommand::CurrentTime(time) => ClientCommandView::CurrentTime(*time),
            ClientCommand::SelectHitObject { ids, selected, unique } => {
                ClientCommandView::SelectHitObject {
                    ids: ids@,
                    selected: *selected,
                    unique: *unique,
                }
            },
            ClientCommand::CreateHitObject(object) => ClientCommandView::CreateHitObject(object@),
            ClientCommand::UpdateHitObject(object) => ClientCommandView::UpdateHitObject(object@),
            ClientCommand::DeleteHitObject(ids) => ClientCommandView::DeleteHitObject(ids@),
            ClientCommand::CreateTimingPoint(point) => ClientCommandView::CreateTimingPoint(
                *point,
            ),
            ClientCommand::UpdateTimingPoint(point) => ClientCommandView::UpdateTimingPoint(
                *point,
            ),
            ClientCommand::DeleteTimingPoint(ids) => ClientCommandView::DeleteTimingPoint(ids@),
            ClientCommand::SetHitObjectOverrides { id, overrides } => {
                ClientCommandView::SetHitObjectOverrides { id: *id, overrides: overrides@ }
            },
        }
    }
}

impl View for ClientToServerMessage {
    type V = ClientToServerMessageView;

    open spec fn view(&self) -> ClientToServerMessageView {
        ClientToServerMessageView {
            response_id: text_view(self.response_id),
            command: self.command@,
        }
    }
}

/// The values of a run of messages, in order.
pub open spec fn message_views(messages: Seq<ServerToClientMessage>) -> Seq<
    ServerToClientMessageView,
> {
    messages.map_values(|message: ServerToClientMessage| message@)
}

/// The value of a batch is the batch of the values.
pub proof fn lemma_multiple_view(messages: Vec<ServerToClientMessage>)
    ensures
        ServerCommand::Multiple(messages)@ == ServerCommandView::Multiple(
            message_views(messages@),
        ),
{
    reveal_with_fuel(<ServerCommand as View>::view, 2);
    assert(ServerCommand::Multiple(messages)@->Multiple_0 =~= message_views(messages@));
}

/// A message that answers no request.
pub open spec fn plain(command: ServerCommandView) -> ServerToClientMessageView {
    ServerToClientMessageView { response_id: None, command }
}

impl UserTick {
    /// What a tick reports of `user`.
    pub open spec fn of(user: UserInfoView) -> UserTick {
        UserTick {
            id: user.presence.id,
            cursor_pos: user.cursor_pos,
            current_time: user.current_time,
        }
    }
}

impl SerializedUserInfoView {
    /// What the clients see of `user`.
    pub open spec fn of(user: UserInfoView) -> SerializedUserInfoView {
        SerializedUserInfoView {
            id: user.presence.id,
            display_name: user.presence.session.user.display_name,
            cursor_pos: user.cursor_pos,
            current_time: user.current_time,
        }
    }
}

impl From<&UserInfo> for UserTick {
    fn from(user: &UserInfo) -> (tick: Self) {
        UserTick { current_time: user.current_time, cursor_pos: user.cursor_pos, id: user.id() }
    }
}

impl FromSpecImpl<&UserInfo> for UserTick {
    open spec fn obeys_from_spec() -> bool {
        true
    }

    open spec fn from_spec(user: &UserInfo) -> Self {
        UserTick::of(user@)
    }
}

impl From<&UserInfo> for SerializedUserInfo {
    fn from(user: &UserInfo) -> (info: Self) {
        SerializedUserInfo {
            id: user.id(),
            display_name: user.presence.session.user.display_name.clone(),
            cursor_pos: user.cursor_pos,
            current_time: user.current_time,
        }
    }
}

impl FromSpecImpl<&UserInfo> for SerializedUserInfo {
    open spec fn obeys_from_spec() -> bool {
        true
    }

    open spec fn from_spec(user: &UserInfo) -> Self {
        SerializedUserInfo {
            id: user.presence.id,
            display_name: user.presence.session.user.display_name,
            cursor_pos: user.cursor_pos,
            current_time: user.current_time,
        }
    }
}

impl Clone for HitObjectOverrides {
    fn clone(&self) -> (copy: Self)
        ensures
            copy@ == self@,
    {
        HitObjectOverrides {
            time: self.time,
            position: self.position,
            new_combo: self.new_combo,
            control_points: match &self.control_points {
                Some(points) => Some(copy_vec(points)),
                None => None,
            },
            expected_distance: self.expected_distance,
            repeat_count: self.repeat_count,
        }
    }
}

impl Clone for ServerTick {
    fn clone(&self) -> (copy: Self)
        ensures
            copy@ == self@,
    {
        ServerTick { user_ticks: copy_vec(&self.user_ticks) }
    }
}

impl Clone for ServerState {
    fn clone(&self) -> (copy: Self)
        ensures
            copy@ == self@,
    {
        ServerState {
            difficulty: self.difficulty,
            hit_objects: clone_hit_objects(&self.hit_objects),
            timing_points: copy_vec(&self.timing_points),
        }
    }
}

/// New user records with the values of `users`, in order.
pub fn clone_users(users: &Vec<SerializedUserInfo>) -> (copy: Vec<SerializedUserInfo>)
    ensures
        record_views(copy@) == record_views(users@),
{
    let mut copy: Vec<SerializedUserInfo> = Vec::new();
    let mut index: usize = 0;
    while index < users.len()
        invariant
            index <= users.len(),
            record_views(copy@) == record_views(users@.take(index as int)),
        decreases users.len() - index,
    {
        copy.push(users[index].clone());
        assert(record_views(users@.take(index + 1)) =~= record_views(
            users@.take(index as int),
        ).push(users@[index as int]@));
        index += 1;
    }
    copy
}

/// A new string with the value of `text`, if there is one.
pub fn clone_text(text: &Option<String>) -> (copy: Option<String>)
    ensures
        text_view(copy) == text_view(*text),
{
    match text {
        Some(text) => Some(text.clone()),
        None => None,
    }
}

impl Clone for ServerToClientMessage {
    fn clone(&self) -> (copy: Self)
        ensures
            copy@ == self@,
        decreases self,
    {
        ServerToClientMessage {
            response_id: clone_text(&self.response_id),
            command: self.command.clone(),
        }
    }
}

impl Clone for ServerCommand {
    fn clone(&self) -> (copy: Self)
        ensures
            copy@ == self@,
        decreases self,
    {
        match self {
            ServerCommand::Multiple(messages) => {
                let mut copy: Vec<ServerToClientMessage> = Vec::new();
                let mut index: usize = 0;
                while index < messages.len()
                    invariant
                        index <= messages.len(),
                        decreases_to!(*self => *messages),
                        message_views(copy@) == message_views(messages@.take(index as int)),
                    decreases messages.len() - index,
                {
                    copy.push(messages[index].clone());
                    assert(message_views(messages@.take(index + 1)) =~= message_views(
                        messages@.take(index as int),
                    ).push(messages@[index as int]@));
                    index += 1;
                }
                assert(messages@.take(index as int) == messages@);
                proof {
                    lemma_multiple_view(copy);
                    lemma_multiple_view(*messages);
                }
                ServerCommand::Multiple(copy)
            },
            ServerCommand::OwnId(id) => ServerCommand::OwnId(*id),
            ServerCommand::UserJoined(user) => ServerCommand::UserJoined(user.clone()),
            ServerCommand::UserLeft(user) => ServerCommand::UserLeft(user.clone()),
            ServerCommand::Tick(tick) => ServerCommand::Tick(tick.clone()),
            ServerCommand::UserList(users) => ServerCommand::UserList(clone_users(users)),
            ServerCommand::HitObjectCreated(object) => ServerCommand::HitObjectCreated(
                object.clone(),
            ),
            ServerCommand::HitObjectUpdated(object) => ServerCommand::HitObjectUpdated(
                object.clone(),
            ),
            ServerCommand::HitObjectDeleted(id) => ServerCommand::HitObjectDeleted(*id),
            ServerCommand::HitObjectSelected { ids, selected_by } => {
                ServerCommand::HitObjectSelected { ids: copy_vec(ids), selected_by: *selected_by }
            },
            ServerCommand::State(state) => ServerCommand::State(state.clone()),
            ServerCommand::TimingPointCreated(point) => ServerCommand::TimingPointCreated(*point),
            ServerCommand::TimingPointUpdated(point) => ServerCommand::TimingPointUpdated(*point),
            ServerCommand::TimingPointDeleted(id) => ServerCommand::TimingPointDeleted(*id),
            ServerCommand::HitObjectOverridden { id, overrides } => {
                ServerCommand::HitObjectOverridden { id: *id, overrides: overrides.clone() }
            },
        }
    }
}

impl Clone for SerializedUserInfo {
    fn clone(&self) -> (copy: Self)
        ensures
            copy@ == self@,
    {
        SerializedUserInfo {
            id: self.id,
            display_name: self.display_name.clone(),
            cursor_pos: self.cursor_pos,
            current_time: self.current_time,
        }
    }
}

} // verus!
