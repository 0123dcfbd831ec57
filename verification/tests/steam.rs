use cs2_friendwatch::rich::RichPresence;
use cs2_friendwatch::steam::{
    collect_rich_presence, cs2_friend_info, friend_name, init_failure_message, presence_value, steam_init_result,
    sort_friends_by_name, watched_status, FriendInfo,
};
use cs2_friendwatch::watcher::{FriendPresence, JoinMethod};

fn friend(id: u64, name: &str) -> FriendInfo {
    FriendInfo {
        steam_id: id,
        name: name.into(),
        presence: FriendPresence::InCs2Full,
        detail: String::new(),
        avatar_rgba: None,
    }
}

#[test]
fn presence_value_trims_and_drops_blank() {
    assert_eq!(presence_value(Some("  de_nuke \n".into())), Some("de_nuke".into()));
    assert_eq!(presence_value(Some(" \t ".into())), None);
    assert_eq!(presence_value(None), None);
}

#[test]
fn collect_keeps_first_non_blank_reads() {
    let rich = collect_rich_presence(vec![
        ("status".into(), Some(" Playing ".into())),
        ("connect".into(), None),
        ("status".into(), Some("later".into())),
        ("".into(), Some("no key".into())),
        ("game:map".into(), Some("  ".into())),
        ("game:map".into(), Some("de_inferno".into())),
    ]);
    assert_eq!(rich.get("status").map(|s| s.as_str()), Some("Playing"));
    assert_eq!(rich.get("connect"), None);
    assert_eq!(rich.get(""), None);
    assert_eq!(rich.get("game:map").map(|s| s.as_str()), Some("de_inferno"));
}

#[test]
fn friend_info_only_for_cs2() {
    let rich = RichPresence::new();
    assert!(cs2_friend_info(1, "A".into(), None, &rich, None).is_none());
    assert!(cs2_friend_info(1, "A".into(), Some((570, 0)), &rich, None).is_none());
    let info = cs2_friend_info(1, "A".into(), Some((730, 77)), &rich, Some(vec![1, 2])).unwrap();
    assert_eq!(info.steam_id, 1);
    assert_eq!(info.name, "A");
    assert_eq!(
        info.presence,
        FriendPresence::Joinable { method: JoinMethod::Lobby { lobby_id: 77 } }
    );
    assert_eq!(info.avatar_rgba, Some(vec![1, 2]));
    let info = cs2_friend_info(2, "B".into(), Some((730, 0)), &rich, None).unwrap();
    assert_eq!(info.presence, FriendPresence::InCs2Full);
}

#[test]
fn friends_sorted_by_lowercase_name_stably() {
    let list = vec![
        friend(1, "bob"),
        friend(2, "Alice"),
        friend(3, "BOB"),
        friend(4, "alice"),
        friend(5, "Carl"),
    ];
    let sorted = sort_friends_by_name(list);
    let ids: Vec<u64> = sorted.iter().map(|f| f.steam_id).collect();
    assert_eq!(ids, vec![2, 4, 1, 3, 5]);
}

#[test]
fn friend_name_lookup() {
    let names = vec![(5u64, "Eve".to_string()), (6, "Finn".to_string()), (5, "Other".to_string())];
    assert_eq!(friend_name(&names, 5), "Eve");
    assert_eq!(friend_name(&names, 6), "Finn");
    assert_eq!(friend_name(&names, 76561198000000001), "76561198000000001");
}

#[test]
fn watched_status_of_poll() {
    let mut rich = RichPresence::new();
    rich.insert("connect".into(), "+gcconnectQ".into());
    rich.insert("status".into(), "Competitive".into());
    let names = vec![(9u64, "Nine".to_string())];
    let s = watched_status(9, &names, Some((730, 0)), &rich);
    assert_eq!(s.steam_id, 9);
    assert_eq!(s.name, "Nine");
    assert_eq!(
        s.presence,
        FriendPresence::Joinable { method: JoinMethod::Connect { connect: "+gcconnectQ".into() } }
    );
    assert_eq!(s.detail, "Competitive");
    assert_eq!(s.rich_debug, "connect=+gcconnectQ | status=Competitive");
    let away = watched_status(10, &names, None, &rich);
    assert_eq!(away.presence, FriendPresence::OfflineOrUnknown);
    assert_eq!(away.name, "10");
}

#[test]
fn init_failure_text() {
    assert_eq!(
        init_failure_message("no steam", "still none"),
        "Steamworks init failed (730: no steam; 480: still none). Is Steam running and are you logged in?"
    );
}

#[test]
fn init_tries_cs2_then_fallback() {
    assert_eq!(steam_init_result(&Ok(()), &None), Some(Ok(730)));
    assert_eq!(steam_init_result(&Err("no".into()), &None), None);
    assert_eq!(steam_init_result(&Err("no".into()), &Some(Ok(()))), Some(Ok(480)));
    assert_eq!(
        steam_init_result(&Err("no steam".into()), &Some(Err("still none".into()))),
        Some(Err(
            "Steamworks init failed (730: no steam; 480: still none). Is Steam running and are you logged in?"
                .to_string()
        ))
    );
}
