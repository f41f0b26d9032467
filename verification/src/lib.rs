//! Authoritative engine of a collaborative beatmap editing session.
//!
//! The crate holds the document stores, the selection-locking command
//! handlers, the outbound dispatcher and the per-tick session engine. Sockets,
//! timers and the wire encoding live outside of it: the engine takes decoded
//! commands and hands back the messages to deliver.
use vstd::prelude::*;

pub mod config;
pub mod editor;
pub mod geo;
pub mod util;

verus! {

/// What the account service reports of a user who opened a connection.
#[derive(Debug, PartialEq, Eq)]
pub struct SessionInfo {
    pub token: String,
    pub user: SessionUserInfo,
}

/// The profile of an authenticated user.
#[derive(Debug, PartialEq, Eq)]
pub struct SessionUserInfo {
    pub id: u32,
    pub avatar_url: String,
    pub profile_id: u32,
    pub display_name: String,
}

/// The value of a [`SessionInfo`].
pub ghost struct SessionInfoView {
    pub token: Seq<char>,
    pub user: SessionUserInfoView,
}

/// The value of a [`SessionUserInfo`].
pub ghost struct SessionUserInfoView {
    pub id: u32,
    pub avatar_url: Seq<char>,
    pub profile_id: u32,
    pub display_name: Seq<char>,
}

impl View for SessionUserInfo {
    type V = SessionUserInfoView;

    open spec fn view(&self) -> SessionUserInfoView {
        SessionUserInfoView {
            id: self.id,
            avatar_url: self.avatar_url@,
            profile_id: self.profile_id,
            display_name: self.display_name@,
        }
    }
}

impl View for SessionInfo {
    type V = SessionInfoView;

    open spec fn view(&self) -> SessionInfoView {
        SessionInfoView { token: self.token@, user: self.user@ }
    }
}

impl Clone for SessionUserInfo {
    fn clone(&self) -> (copy: Self)
        ensures
            copy@ == self@,
    {
        SessionUserInfo {
            id: self.id,
            avatar_url: self.avatar_url.clone(),
            profile_id: self.profile_id,
            display_name: self.display_name.clone(),
        }
    }
}

impl Clone for SessionInfo {
    fn clone(&self) -> (copy: Self)
        ensures
            copy@ == self@,
    {
        SessionInfo { token: self.token.clone(), user: self.user.clone() }
    }
}

} // verus!
