//! The join URI for a pending spot and the text of the desktop
//! notification. Opening the URI and showing the notification happen in the
//! program around the library.
use vstd::prelude::*;
use crate::text::push_str_chars;
use crate::watcher::{join_connect_uri, join_lobby_uri, connect_uri, lobby_uri, JoinMethod, JoinMethodView};

verus! {

/// The URI that joins a friend by `method`.
pub open spec fn join_uri_text(method: JoinMethodView, friend_steam_id: u64) -> Seq<char> {
    match method {
        JoinMethodView::Lobby { lobby_id } => lobby_uri(lobby_id, friend_steam_id),
        JoinMethodView::Connect { connect } => connect_uri(connect),
    }
}

/// The URI to open to join `friend_steam_id` by `method`.
pub fn join_uri(method: &JoinMethod, friend_steam_id: u64) -> (r: String)
    ensures
        r@ == join_uri_text(method@, friend_steam_id),
{
    match method {
        JoinMethod::Lobby { lobby_id } => join_lobby_uri(*lobby_id, friend_steam_id),
        JoinMethod::Connect { connect } => join_connect_uri(connect.as_str()),
    }
}

/// The notification text for a free spot.
pub open spec fn spot_body_text(friend_name: Seq<char>) -> Seq<char> {
    friend_name + " has a free CS2 spot — open Friendwatch to join."@
}

pub fn spot_available_body(friend_name: &str) -> (r: String)
    ensures
        r@ == spot_body_text(friend_name@),
{
    let mut r = String::new();
    push_str_chars(&mut r, friend_name);
    push_str_chars(&mut r, " has a free CS2 spot — open Friendwatch to join.");
    assert(r@ =~= spot_body_text(friend_name@));
    r
}

} // verus!
