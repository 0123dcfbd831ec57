use cs2_friendwatch::friendwatch::{
    app_badge, connection_status, frame_fetches, name_matches_filter, presence_badge,
    presence_fallback, repaint_after_ms, SpotChange, Tone, WatchState,
};
use cs2_friendwatch::steam::FriendInfo;
use cs2_friendwatch::watcher::{FriendPresence, JoinMethod, WatchedFriendStatus};

fn status(id: u64, name: &str, presence: FriendPresence, detail: &str) -> WatchedFriendStatus {
    WatchedFriendStatus {
        steam_id: id,
        name: name.into(),
        presence,
        detail: detail.into(),
        rich_debug: String::new(),
    }
}

fn joinable_lobby(lobby_id: u64) -> FriendPresence {
    FriendPresence::Joinable { method: JoinMethod::Lobby { lobby_id } }
}

#[test]
fn toggle_adds_once_and_removes_all() {
    let mut s = WatchState::new(vec![1, 2, 1], "Connected.".into());
    s.toggle_watch(3, "Three", true);
    s.toggle_watch(3, "Three", true);
    assert_eq!(s.watched_order, vec![1, 2, 1, 3]);
    s.toggle_watch(1, "One", false);
    assert_eq!(s.watched_order, vec![2, 3]);
    assert!(s.is_watched(3));
    assert!(!s.is_watched(1));
    assert_eq!(s.name_cache.get(&3).map(|n| n.as_str()), Some("Three"));
}

#[test]
fn toggle_on_then_off_restores_queue() {
    let mut s = WatchState::new(vec![5, 6], String::new());
    s.toggle_watch(7, "Seven", true);
    s.toggle_watch(7, "Seven", false);
    assert_eq!(s.watched_order, vec![5, 6]);
}

#[test]
fn prune_drops_friends_who_left() {
    let mut s = WatchState::new(vec![1, 2, 3, 4], String::new());
    s.record_statuses(vec![
        status(1, "A", FriendPresence::OfflineOrUnknown, ""),
        status(2, "B", FriendPresence::InCs2Full, ""),
        status(3, "C", FriendPresence::OtherGame { app_id: 570 }, ""),
    ]);
    // 4 is only in the friend list, 1 is in the list but its status says it left.
    let changed = s.prune_offline_from_watch_queue(&[1, 4]);
    assert!(changed);
    assert_eq!(s.watched_order, vec![2, 4]);
    let unchanged = s.prune_offline_from_watch_queue(&[4]);
    assert!(!unchanged);
}

#[test]
fn prune_to_empty_stops_watching() {
    let mut s = WatchState::new(vec![1], String::new());
    s.start_watching();
    assert!(s.watching);
    assert_eq!(s.status_msg, "Watching 1 friend(s) for an open spot\u{2026}");
    s.record_statuses(vec![status(1, "A", FriendPresence::OfflineOrUnknown, "")]);
    assert!(s.prune_offline_from_watch_queue(&[]));
    assert!(!s.watching);
    assert_eq!(s.status_msg, "Watch queue cleared \u{2014} no watched friends still in CS2.");
}

#[test]
fn statuses_fill_details_from_cache() {
    let mut s = WatchState::new(vec![1, 2], String::new());
    s.record_statuses(vec![
        status(1, "A", FriendPresence::InCs2Full, "Casual \u{b7} Nuke"),
        status(2, "B", FriendPresence::InCs2Full, ""),
    ]);
    s.record_statuses(vec![
        status(1, "A2", FriendPresence::InCs2Full, ""),
        status(2, "B", FriendPresence::InCs2Full, ""),
    ]);
    assert_eq!(s.statuses[0].detail, "Casual \u{b7} Nuke");
    assert_eq!(s.statuses[1].detail, "");
    assert_eq!(s.name_cache.get(&1).map(|n| n.as_str()), Some("A2"));
}

#[test]
fn spot_opens_alert_once() {
    let mut s = WatchState::new(vec![2, 1], String::new());
    s.start_watching();
    s.record_statuses(vec![
        status(1, "A", joinable_lobby(11), "Casual"),
        status(2, "B", FriendPresence::InCs2Full, ""),
    ]);
    assert_eq!(s.check_for_spot(0, 30_000), SpotChange::Opened);
    let p = s.pending.clone().unwrap();
    assert_eq!(p.steam_id, 1);
    assert_eq!(p.name, "A");
    assert_eq!(p.detail, "Casual");
    assert_eq!(p.method, JoinMethod::Lobby { lobby_id: 11 });
    assert!(s.alert_armed);
    assert_eq!(s.status_msg, "Spot available \u{2014} confirm join in the alert window.");
    // While the alert is open nothing else happens.
    assert_eq!(s.check_for_spot(40_000, 30_000), SpotChange::Unchanged);
    s.dismiss_pending();
    assert!(s.pending.is_none());
    assert_eq!(s.status_msg, "Join dismissed \u{2014} still watching.");
    // Same spot, after the cooldown, but without a gap: no new alert.
    assert_eq!(s.check_for_spot(40_000, 30_000), SpotChange::Unchanged);
}

#[test]
fn first_in_order_wins() {
    let mut s = WatchState::new(vec![2, 1], String::new());
    s.record_statuses(vec![
        status(1, "A", joinable_lobby(11), ""),
        status(2, "B", joinable_lobby(22), ""),
    ]);
    assert_eq!(s.check_for_spot(0, 30_000), SpotChange::Opened);
    assert_eq!(s.pending.as_ref().unwrap().steam_id, 2);
}

#[test]
fn join_outcomes() {
    let mut s = WatchState::new(vec![1], String::new());
    s.start_watching();
    s.record_statuses(vec![status(1, "A", joinable_lobby(11), "")]);
    assert_eq!(s.check_for_spot(0, 30_000), SpotChange::Opened);
    let p = s.take_pending().unwrap();
    assert!(s.pending.is_none());
    s.finish_join(p.clone(), Err("failed to open".into()));
    assert_eq!(s.status_msg, "failed to open");
    assert!(s.pending.is_some());
    assert!(s.watching);
    // Any error text keeps the alert open.
    let p = s.take_pending().unwrap();
    s.finish_join(p.clone(), Err("open_slots".into()));
    assert!(s.pending.is_some());
    assert!(s.watching);
    let mut t = WatchState::new(vec![1], String::new());
    t.start_watching();
    t.finish_join(p, Ok(()));
    assert!(!t.watching);
    assert!(t.needs_rewatch);
    assert!(t.pending.is_none());
    assert!(!t.alert_armed);
    assert_eq!(
        t.status_msg,
        "Joined via A. Watching stopped \u{2014} click Start watching to look again."
    );
    t.stop_watching();
    assert_eq!(
        t.status_msg,
        "Joined via A. Watching stopped \u{2014} click Start watching to look again."
    );
    t.start_watching();
    assert!(!t.needs_rewatch);
    t.stop_watching();
    assert_eq!(t.status_msg, "Watching stopped.");
    t.dismiss_pending();
    assert_eq!(t.status_msg, "Join dismissed.");
}

#[test]
fn badges_and_fallbacks() {
    assert_eq!(presence_badge(&joinable_lobby(1)), ("JOINABLE", Tone::Green));
    assert_eq!(presence_badge(&FriendPresence::InCs2Full), ("IN GAME", Tone::Amber));
    assert_eq!(presence_badge(&FriendPresence::OtherGame { app_id: 1 }), ("OTHER", Tone::Muted));
    assert_eq!(presence_badge(&FriendPresence::OfflineOrUnknown), ("AWAY", Tone::Muted));
    assert_eq!(presence_fallback(&FriendPresence::InCs2Full), "In CS2 \u{2014} no open spot");
    assert_eq!(presence_fallback(&FriendPresence::OfflineOrUnknown), "Offline / unknown");
    assert_eq!(app_badge(Some(730)), ("APP 730", Tone::Green));
    assert_eq!(app_badge(Some(480)), ("APP 480", Tone::Amber));
    assert_eq!(app_badge(Some(1)), ("STEAM", Tone::Green));
    assert_eq!(app_badge(None), ("NO STEAM", Tone::Red));
}

#[test]
fn connection_messages() {
    assert_eq!(
        connection_status(&Ok(730), 3),
        "Connected as CS2 (730) \u{2014} 3 friend(s) in-game."
    );
    assert_eq!(
        connection_status(&Ok(480), 0),
        "Connected as Spacewar (480) \u{2014} CS2 was already running. Rich presence may be limited. 0 in CS2."
    );
    assert_eq!(connection_status(&Ok(12), 2), "Connected (app 12) \u{2014} 2 in CS2.");
    assert_eq!(connection_status(&Err("no steam".into()), 2), "no steam");
}

#[test]
fn detail_lines_and_queue_rows() {
    let mut s = WatchState::new(vec![1, 2, 3], String::new());
    let friends = vec![
        FriendInfo {
            steam_id: 2,
            name: "B".into(),
            presence: joinable_lobby(5),
            detail: String::new(),
            avatar_rgba: None,
        },
        FriendInfo {
            steam_id: 4,
            name: "D".into(),
            presence: FriendPresence::InCs2Full,
            detail: "Deathmatch".into(),
            avatar_rgba: None,
        },
    ];
    s.ingest_friends(&friends);
    assert_eq!(s.friend_detail_line(&friends[0]), "Spot available");
    assert_eq!(s.friend_detail_line(&friends[1]), "Deathmatch");
    s.record_statuses(vec![status(1, "A", FriendPresence::OtherGame { app_id: 9 }, "")]);
    let r1 = s.queue_row(1, &friends);
    assert_eq!((r1.name.as_str(), r1.badge, r1.tone, r1.detail.as_str()), ("A", "OTHER", Tone::Muted, "Other game"));
    let r2 = s.queue_row(2, &friends);
    assert_eq!((r2.name.as_str(), r2.badge, r2.tone, r2.detail.as_str()), ("B", "JOINABLE", Tone::Green, "Spot available"));
    let r3 = s.queue_row(3, &friends);
    assert_eq!((r3.name.as_str(), r3.badge, r3.tone, r3.detail.as_str()), ("3", "WAITING", Tone::Muted, "Not in CS2"));
}

#[test]
fn frame_timing() {
    assert_eq!(frame_fetches(true, false, None, None, 15_000, 1_500), (true, false));
    assert_eq!(frame_fetches(true, false, Some(14_999), None, 15_000, 1_500), (false, false));
    assert_eq!(frame_fetches(true, false, Some(15_000), None, 15_000, 1_500), (true, false));
    assert_eq!(frame_fetches(false, false, None, None, 15_000, 1_500), (false, false));
    assert_eq!(frame_fetches(true, true, None, Some(1_499), 15_000, 1_500), (false, false));
    assert_eq!(frame_fetches(true, true, None, Some(1_500), 15_000, 1_500), (false, true));
    assert_eq!(frame_fetches(true, true, Some(1), None, 15_000, 1_500), (false, true));
    assert_eq!(repaint_after_ms(true, true, true), Some(200));
    assert_eq!(repaint_after_ms(false, true, true), Some(100));
    assert_eq!(repaint_after_ms(false, false, true), Some(1000));
    assert_eq!(repaint_after_ms(false, false, false), None);
}

#[test]
fn frame_timing_follows_settings() {
    // Active poll every 5 s: 2 s after the last poll is too early.
    assert_eq!(frame_fetches(true, true, None, Some(2_000), 15_000, 5_000), (false, false));
    assert_eq!(frame_fetches(true, true, None, Some(5_000), 15_000, 5_000), (false, true));
    // Idle refresh every 60 s.
    assert_eq!(frame_fetches(true, false, Some(30_000), None, 60_000, 1_500), (false, false));
    assert_eq!(frame_fetches(true, false, Some(60_000), None, 60_000, 1_500), (true, false));
}

#[test]
fn alert_closes_when_spot_disappears() {
    let mut s = WatchState::new(vec![1], String::new());
    s.start_watching();
    s.record_statuses(vec![status(1, "A", joinable_lobby(11), "Casual")]);
    assert_eq!(s.check_for_spot(0, 30_000), SpotChange::Opened);
    assert!(s.pending.is_some());
    s.record_statuses(vec![status(1, "A", FriendPresence::InCs2Full, "")]);
    assert_eq!(s.check_for_spot(2_000, 30_000), SpotChange::Closed);
    assert!(s.pending.is_none());
    assert!(!s.alert_armed);
    assert!(s.watching);
    assert_eq!(s.status_msg, "Spot gone \u{2014} still watching.");
    // Nothing more to close on the next poll.
    assert_eq!(s.check_for_spot(4_000, 30_000), SpotChange::Unchanged);
    // Back within the cooldown: no alert.
    s.record_statuses(vec![status(1, "A", joinable_lobby(11), "Casual")]);
    assert_eq!(s.check_for_spot(6_000, 30_000), SpotChange::Unchanged);
    // Gone once the cooldown is over, then back: a new alert.
    s.record_statuses(vec![status(1, "A", FriendPresence::InCs2Full, "")]);
    assert_eq!(s.check_for_spot(35_000, 30_000), SpotChange::Unchanged);
    s.record_statuses(vec![status(1, "A", joinable_lobby(11), "Casual")]);
    assert_eq!(s.check_for_spot(40_000, 30_000), SpotChange::Opened);
}

#[test]
fn alert_close_when_not_watching() {
    let mut s = WatchState::new(vec![1], String::new());
    s.record_statuses(vec![status(1, "A", joinable_lobby(11), "")]);
    assert_eq!(s.check_for_spot(0, 30_000), SpotChange::Opened);
    s.record_statuses(vec![]);
    assert_eq!(s.check_for_spot(1_000, 30_000), SpotChange::Closed);
    assert_eq!(s.status_msg, "Spot gone.");
}

#[test]
fn name_filter_matches() {
    assert!(name_matches_filter("Bob", "ob"));
    assert!(name_matches_filter("Bob", "BO"));
    assert!(name_matches_filter("Bob", ""));
    assert!(!name_matches_filter("Bob", "x"));
    assert!(!name_matches_filter("", "a"));
    assert!(name_matches_filter("ÄLMA", "älm"));
}

#[test]
fn stale_alert_closes_when_its_friend_is_full() {
    let mut s = WatchState::new(vec![1, 2], String::new());
    s.start_watching();
    s.record_statuses(vec![
        status(1, "A", joinable_lobby(11), ""),
        status(2, "B", FriendPresence::InCs2Full, ""),
    ]);
    assert_eq!(s.check_for_spot(0, 30_000), SpotChange::Opened);
    assert_eq!(s.pending.as_ref().unwrap().steam_id, 1);
    // A's spot is gone, B now has one: inside the cooldown the alert only closes.
    s.record_statuses(vec![
        status(1, "A", FriendPresence::InCs2Full, ""),
        status(2, "B", joinable_lobby(22), ""),
    ]);
    assert_eq!(s.check_for_spot(2_000, 30_000), SpotChange::Closed);
    assert!(s.pending.is_none());
    assert!(s.watching);
    // After the cooldown B's spot alerts.
    assert_eq!(s.check_for_spot(31_000, 30_000), SpotChange::Opened);
    assert_eq!(s.pending.as_ref().unwrap().steam_id, 2);
}

#[test]
fn stale_alert_on_changed_lobby_reopens_after_cooldown() {
    let mut s = WatchState::new(vec![1], String::new());
    s.start_watching();
    s.record_statuses(vec![status(1, "A", joinable_lobby(11), "")]);
    assert_eq!(s.check_for_spot(0, 30_000), SpotChange::Opened);
    // Same friend, another lobby, after the cooldown: the new spot alerts at once.
    s.record_statuses(vec![status(1, "A", joinable_lobby(12), "")]);
    assert_eq!(s.check_for_spot(30_000, 30_000), SpotChange::Opened);
    assert_eq!(s.pending.as_ref().unwrap().method, JoinMethod::Lobby { lobby_id: 12 });
    // Same lobby still there: the alert stays.
    assert_eq!(s.check_for_spot(31_000, 30_000), SpotChange::Unchanged);
    assert!(s.pending.is_some());
}

#[test]
fn row_join_outcomes() {
    let mut s = WatchState::new(vec![1, 2], String::new());
    s.start_watching();
    s.record_statuses(vec![status(1, "A", joinable_lobby(11), "")]);
    assert_eq!(s.check_for_spot(0, 30_000), SpotChange::Opened);
    s.finish_row_join("B", Err("failed to open".into()));
    assert_eq!(s.status_msg, "failed to open");
    let kept = s.pending.as_ref().unwrap();
    assert_eq!((kept.steam_id, &kept.method), (1, &JoinMethod::Lobby { lobby_id: 11 }));
    assert!(s.alert_armed);
    assert!(s.watching);
    s.finish_row_join("B", Ok(()));
    assert!(s.pending.is_none());
    assert!(!s.watching);
    assert!(s.needs_rewatch);
    assert_eq!(
        s.status_msg,
        "Joined via B. Watching stopped \u{2014} click Start watching to look again."
    );
}
