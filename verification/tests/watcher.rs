use cs2_friendwatch::rich::RichPresence;
use cs2_friendwatch::watcher::{
    classify_presence, first_joinable, format_elapsed, format_rich_debug, format_rich_detail,
    join_connect_uri, join_lobby_uri, FriendPresence, JoinMethod, NotifyDebouncer, NotifyKey,
    WatchedFriendStatus,
};

fn keys(pairs: &[(&str, &str)]) -> RichPresence {
    let mut rich = RichPresence::new();
    for (k, v) in pairs {
        rich.insert((*k).to_string(), (*v).to_string());
    }
    rich
}

#[test]
fn lobby_id_is_joinable() {
    assert_eq!(
        classify_presence(Some(730), Some(99), &RichPresence::new()),
        FriendPresence::Joinable {
            method: JoinMethod::Lobby { lobby_id: 99 }
        }
    );
}

#[test]
fn connect_string_is_joinable() {
    let rich = keys(&[("connect", "+gcconnectABC"), ("game:map", "de_nuke")]);
    assert_eq!(
        classify_presence(Some(730), None, &rich),
        FriendPresence::Joinable {
            method: JoinMethod::Connect {
                connect: "+gcconnectABC".into()
            }
        }
    );
}

#[test]
fn premier_open_party_slots_are_not_joinable() {
    // Premier mid-match presence: party seats look free, Steam still hides
    // Join Game (no lobby id, no connect, system:lock=mmqueue).
    let rich = keys(&[
        ("game:map", "de_mirage"),
        ("game:mode", "competitive"),
        ("game:score", "[ 8 : 11 ]"),
        ("members:numPlayers", "4"),
        ("members:numSlots", "10"),
        ("steam_player_group_size", "4"),
        ("system:access", "public"),
        ("system:lock", "mmqueue"),
        ("steam_display", "Premier - Mirage [ 8 : 11 ]"),
    ]);
    assert_eq!(
        classify_presence(Some(730), None, &rich),
        FriendPresence::InCs2Full
    );
}

#[test]
fn member_slots_alone_not_joinable() {
    let rich = keys(&[
        ("members:numPlayers", "4"),
        ("members:numSlots", "10"),
        ("game:map", "de_mirage"),
    ]);
    assert_eq!(
        classify_presence(Some(730), None, &rich),
        FriendPresence::InCs2Full
    );
}

#[test]
fn detail_prefers_steam_display() {
    let rich = keys(&[
        ("steam_display", "Casual - Nuke [ 0 : 1 ]"),
        ("game:map", "de_nuke"),
    ]);
    assert_eq!(format_rich_detail(&rich), "Casual - Nuke [ 0 : 1 ]");
}

#[test]
fn connect_uri_encodes_plus() {
    assert_eq!(
        join_connect_uri("+gcconnectABC"),
        "steam://run/730//%2BgcconnectABC"
    );
}

#[test]
fn first_available_respects_order() {
    let statuses = vec![
        WatchedFriendStatus {
            steam_id: 2,
            name: "B".into(),
            presence: FriendPresence::Joinable {
                method: JoinMethod::Lobby { lobby_id: 1 },
            },
            detail: String::new(),
            rich_debug: String::new(),
        },
        WatchedFriendStatus {
            steam_id: 1,
            name: "A".into(),
            presence: FriendPresence::Joinable {
                method: JoinMethod::Connect {
                    connect: "+gcconnectX".into(),
                },
            },
            detail: "Casual Nuke".into(),
            rich_debug: String::new(),
        },
    ];
    let first = first_joinable(&[1, 2], &statuses).unwrap();
    assert_eq!(first.steam_id, 1);
}

#[test]
fn join_lobby_uri_format() {
    assert_eq!(join_lobby_uri(111, 222), "steam://joinlobby/730/111/222");
}

#[test]
fn elapsed_format() {
    assert_eq!(format_elapsed(65), "01:05");
    assert_eq!(format_elapsed(3661), "1:01:01");
}

#[test]
fn debouncer_fires_once_then_cooldown() {
    let mut d = NotifyDebouncer::new();
    // Milliseconds on a monotonic clock.
    let t0: u64 = 1_000_000;
    let cooldown: u64 = 30_000;
    let key = NotifyKey {
        steam_id: 1,
        join_token: "connect:x".into(),
    };
    assert_eq!(d.consider(Some(key.clone()), t0, cooldown), Some(key.clone()));
    assert_eq!(d.consider(Some(key.clone()), t0 + 1_000, cooldown), None);
    assert_eq!(d.consider(None, t0 + 32_000, cooldown), None);
    assert_eq!(d.consider(Some(key.clone()), t0 + 33_000, cooldown), Some(key));
}

// ---------------------------------------------------------------------------
// Further cases
// ---------------------------------------------------------------------------

#[test]
fn offline_and_other_game() {
    let rich = keys(&[("connect", "+gcconnectX")]);
    assert_eq!(classify_presence(None, Some(5), &rich), FriendPresence::OfflineOrUnknown);
    assert_eq!(
        classify_presence(Some(570), Some(5), &rich),
        FriendPresence::OtherGame { app_id: 570 }
    );
}

#[test]
fn zero_lobby_falls_back_to_connect() {
    let rich = keys(&[("connect", "  +gcconnectY \t")]);
    assert_eq!(
        classify_presence(Some(730), Some(0), &rich),
        FriendPresence::Joinable {
            method: JoinMethod::Connect {
                connect: "+gcconnectY".into()
            }
        }
    );
}

#[test]
fn blank_connect_is_not_joinable() {
    let rich = keys(&[("connect", "   ")]);
    assert_eq!(classify_presence(Some(730), None, &rich), FriendPresence::InCs2Full);
}

#[test]
fn lobby_wins_over_connect() {
    let rich = keys(&[("connect", "+gcconnectZ")]);
    assert_eq!(
        classify_presence(Some(730), Some(42), &rich),
        FriendPresence::Joinable {
            method: JoinMethod::Lobby { lobby_id: 42 }
        }
    );
}

#[test]
fn rich_presence_insert_replaces() {
    let mut rich = RichPresence::new();
    rich.insert("status".into(), "one".into());
    rich.insert("status".into(), "two".into());
    assert_eq!(rich.get("status").map(|s| s.as_str()), Some("two"));
    assert_eq!(rich.get("missing"), None);
}

#[test]
fn detail_uses_status_when_display_is_token() {
    let rich = keys(&[("steam_display", "#display_Menu"), ("status", " In menu ")]);
    assert_eq!(format_rich_detail(&rich), "In menu");
}

#[test]
fn detail_composes_mode_map_score() {
    let rich = keys(&[
        ("game:mode", "competitive"),
        ("game:map", "maps/de_dust2"),
        ("game:score", "[ 3 : 5 ]"),
    ]);
    assert_eq!(format_rich_detail(&rich), "Competitive \u{b7} Dust2 \u{b7} [ 3 : 5 ]");
}

#[test]
fn detail_map_words_and_fallback_keys() {
    let rich = keys(&[("map", "cs_italy_old"), ("score", "1:2")]);
    assert_eq!(format_rich_detail(&rich), "Italy Old \u{b7} 1:2");
    let rich = keys(&[("game:mapgroupname", "gd_rialto"), ("mode", "casual")]);
    assert_eq!(format_rich_detail(&rich), "Casual \u{b7} Rialto");
    assert_eq!(format_rich_detail(&RichPresence::new()), "");
}

#[test]
fn debug_dump_is_sorted() {
    let rich = keys(&[("status", "x"), ("connect", "y"), ("game:map", "z")]);
    assert_eq!(format_rich_debug(&rich), "connect=y | game:map=z | status=x");
    assert_eq!(format_rich_debug(&RichPresence::new()), "");
}

#[test]
fn connect_uri_encodes_reserved_and_unicode() {
    assert_eq!(
        join_connect_uri(" +gcconnect a:b/c?d#e&f=g-h_i.j "),
        "steam://run/730//%2Bgcconnect%20a%3Ab%2Fc%3Fd%23e%26f%3Dg-h_i.j"
    );
    assert_eq!(join_connect_uri("é"), "steam://run/730//%C3%A9");
}

#[test]
fn elapsed_edges() {
    assert_eq!(format_elapsed(0), "00:00");
    assert_eq!(format_elapsed(59), "00:59");
    assert_eq!(format_elapsed(3599), "59:59");
    assert_eq!(format_elapsed(3600), "1:00:00");
    assert_eq!(format_elapsed(36_000 + 61), "10:01:01");
}

#[test]
fn notify_keys() {
    let k = NotifyKey::from_joinable(7, &JoinMethod::Lobby { lobby_id: 12345 });
    assert_eq!(k, NotifyKey { steam_id: 7, join_token: "lobby:12345".into() });
    let k = NotifyKey::from_joinable(8, &JoinMethod::Connect { connect: "+gcX".into() });
    assert_eq!(k, NotifyKey { steam_id: 8, join_token: "connect:+gcX".into() });
}

#[test]
fn debouncer_quiet_during_cooldown_for_other_spot() {
    let mut d = NotifyDebouncer::new();
    let a = NotifyKey { steam_id: 1, join_token: "lobby:1".into() };
    let b = NotifyKey { steam_id: 2, join_token: "lobby:2".into() };
    assert_eq!(d.consider(Some(a.clone()), 0, 30_000), Some(a.clone()));
    assert_eq!(d.consider(Some(b.clone()), 29_999, 30_000), None);
    assert_eq!(d.consider(Some(b.clone()), 30_000, 30_000), Some(b));
}

#[test]
fn debouncer_same_spot_needs_gap() {
    let mut d = NotifyDebouncer::new();
    let a = NotifyKey { steam_id: 1, join_token: "lobby:1".into() };
    assert_eq!(d.consider(Some(a.clone()), 0, 10), Some(a.clone()));
    assert_eq!(d.consider(Some(a.clone()), 100, 10), None);
    // A gap seen before the cooldown ends does not reset.
    let mut d2 = NotifyDebouncer::new();
    assert_eq!(d2.consider(Some(a.clone()), 0, 10), Some(a.clone()));
    assert_eq!(d2.consider(None, 5, 10), None);
    assert_eq!(d2.consider(Some(a.clone()), 20, 10), None);
    d2.reset();
    assert_eq!(d2.consider(Some(a.clone()), 21, 10), Some(a));
}

#[test]
fn first_joinable_skips_missing_and_full() {
    let statuses = vec![
        WatchedFriendStatus {
            steam_id: 3,
            name: "C".into(),
            presence: FriendPresence::InCs2Full,
            detail: String::new(),
            rich_debug: String::new(),
        },
        WatchedFriendStatus {
            steam_id: 4,
            name: "D".into(),
            presence: FriendPresence::Joinable { method: JoinMethod::Lobby { lobby_id: 9 } },
            detail: String::new(),
            rich_debug: String::new(),
        },
    ];
    assert_eq!(first_joinable(&[99, 3, 4], &statuses).unwrap().steam_id, 4);
    assert!(first_joinable(&[3, 99], &statuses).is_none());
    assert!(first_joinable(&[], &statuses).is_none());
}
