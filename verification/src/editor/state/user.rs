use crate::editor::state::order::{
    is_position_of_id, lemma_position_absent, lemma_position_found, position_of_id, Identified,
};
use crate::editor::{Presence, PresenceView};
use crate::util::Vec2;
use vstd::prelude::*;

verus! {

/// What the session shows of a connected user: who it is, where its cursor is
/// and what time it is looking at.
#[derive(Debug, PartialEq, Eq)]
pub struct UserInfo {
    pub presence: Presence,
    pub cursor_pos: Option<Vec2>,
    pub current_time: i32,
}

/// The value of a [`UserInfo`].
pub ghost struct UserInfoView {
    pub presence: PresenceView,
    pub cursor_pos: Option<Vec2>,
    pub current_time: i32,
}

impl View for UserInfo {
    type V = UserInfoView;

    open spec fn view(&self) -> UserInfoView {
        UserInfoView {
            presence: self.presence@,
            cursor_pos: self.cursor_pos,
            current_time: self.current_time,
        }
    }
}

impl Identified for UserInfoView {
    open spec fn ident(self) -> int {
        self.presence.id as int
    }
}

/// The values of a run of users, in order.
pub open spec fn user_views(users: Seq<UserInfo>) -> Seq<UserInfoView> {
    users.map_values(|user: UserInfo| user@)
}

impl Clone for UserInfo {
    fn clone(&self) -> (copy: Self)
        ensures
            copy@ == self@,
    {
        UserInfo {
            presence: self.presence.clone(),
            cursor_pos: self.cursor_pos,
            current_time: self.current_time,
        }
    }
}

impl UserInfo {
    /// The id of the user's presence.
    pub fn id(&self) -> (id: usize)
        ensures
            id == self.presence.id,
    {
        self.presence.id
    }

    /// The name under which the user appears.
    pub fn display_name(&self) -> (name: &str)
        ensures
            name@ == self.presence.session.user.display_name@,
    {
        self.presence.session.user.display_name.as_str()
    }
}

/// The users of a session, in no order that callers may rely on beyond what
/// each operation states.
#[derive(Debug, PartialEq, Eq)]
pub struct UserState {
    users: Vec<UserInfo>,
}

impl View for UserState {
    type V = Seq<UserInfoView>;

    closed spec fn view(&self) -> Seq<UserInfoView> {
        user_views(self.users@)
    }
}

impl Default for UserState {
    fn default() -> (state: Self)
        ensures
            state@ == Seq::<UserInfoView>::empty(),
    {
        UserState { users: Vec::new() }
    }
}

/// The users after the one at `index` left: the last one takes its place.
pub open spec fn swap_removed(users: Seq<UserInfoView>, index: int) -> Seq<UserInfoView> {
    users.update(index, users.last()).drop_last()
}

impl UserState {
    /// Adds `user` behind the others.
    pub fn add_user(&mut self, user: UserInfo)
        ensures
            final(self)@ == old(self)@.push(user@),
    {
        self.users.push(user);
    }

    /// The place of the first user that carries `id`.
    fn position(&self, id: usize) -> (found: Option<usize>)
        ensures
            match found {
                Some(index) => position_of_id(self@, id as int) == Some(index as int) && index
                    < self@.len(),
                None => position_of_id(self@, id as int) is None,
            },
            is_position_of_id(self@, id as int, position_of_id(self@, id as int)),
    {
        let mut index: usize = 0;
        while index < self.users.len()
            invariant
                index <= self.users.len(),
                forall|j: int| 0 <= j < index ==> (#[trigger] self@[j]).presence.id != id,
            decreases self.users.len() - index,
        {
            if self.users[index].id() == id {
                proof {
                    lemma_position_found(self@, id as int, index as int);
                }
                return Some(index);
            }
            index += 1;
        }
        proof {
            lemma_position_absent(self@, id as int);
        }
        None
    }

    /// Takes the first user that carries `id` out of the store and returns it.
    /// The last user moves into the gap.
    pub fn remove_user(&mut self, id: usize) -> (removed: Option<UserInfo>)
        ensures
            is_position_of_id(old(self)@, id as int, position_of_id(old(self)@, id as int)),
            match position_of_id(old(self)@, id as int) {
                Some(index) => {
                    &&& removed matches Some(user) && user@ == old(self)@[index]
                    &&& final(self)@ == swap_removed(old(self)@, index)
                },
                None => removed is None && final(self)@ == old(self)@,
            },
    {
        match self.position(id) {
            Some(index) => {
                let user = self.users.swap_remove(index);
                Some(user)
            },
            None => None,
        }
    }

    /// The first user that carries `id`.
    pub fn find(&self, id: usize) -> (found: Option<&UserInfo>)
        ensures
            is_position_of_id(self@, id as int, position_of_id(self@, id as int)),
            match position_of_id(self@, id as int) {
                Some(index) => found matches Some(user) && user@ == self@[index],
                None => found is None,
            },
    {
        match self.position(id) {
            Some(index) => Some(&self.users[index]),
            None => None,
        }
    }

    /// The first user that carries `id`, open to change.
    pub fn find_mut(&mut self, id: usize) -> (found: Option<&mut UserInfo>)
        ensures
            is_position_of_id(old(self)@, id as int, position_of_id(old(self)@, id as int)),
            match position_of_id(old(self)@, id as int) {
                Some(index) => {
                    &&& found matches Some(user) && user@ == old(self)@[index] && final(self)@
                        == old(self)@.update(index, final(user)@)
                },
                None => found is None && final(self)@ == old(self)@,
            },
    {
        match self.position(id) {
            Some(index) => Some(&mut self.users[index]),
            None => None,
        }
    }

    /// Every user, in the store's order.
    pub fn all(&self) -> (users: &Vec<UserInfo>)
        ensures
            user_views(users@) == self@,
    {
        &self.users
    }
}

} // verus!
