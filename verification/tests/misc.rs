use cs2_friendwatch::audio::custom_sound_path;
use cs2_friendwatch::bootstrap::{embedded_app_id, prepend_search_path};
use cs2_friendwatch::config::normalized_sound_path;
use cs2_friendwatch::notify::{join_uri, spot_available_body};
use cs2_friendwatch::text::{decimal_string, is_whitespace, trimmed};
use cs2_friendwatch::watcher::JoinMethod;

#[test]
fn sound_path_choice() {
    assert_eq!(custom_sound_path(&None), None);
    assert_eq!(custom_sound_path(&Some("   ".into())), None);
    assert_eq!(custom_sound_path(&Some("  C:/a b.mp3 ".into())), Some("C:/a b.mp3".into()));
}

#[test]
fn saved_sound_path_blank_dropped() {
    assert_eq!(normalized_sound_path(None), None);
    assert_eq!(normalized_sound_path(Some(" \t".into())), None);
    assert_eq!(normalized_sound_path(Some(" x.wav ".into())), Some(" x.wav ".into()));
}

#[test]
fn join_uris_by_method() {
    assert_eq!(
        join_uri(&JoinMethod::Lobby { lobby_id: 111 }, 222),
        "steam://joinlobby/730/111/222"
    );
    assert_eq!(
        join_uri(&JoinMethod::Connect { connect: " +gcconnect1 ".into() }, 222),
        "steam://run/730//%2Bgcconnect1"
    );
}

#[test]
fn notification_body() {
    assert_eq!(
        spot_available_body("Kim"),
        "Kim has a free CS2 spot \u{2014} open Friendwatch to join."
    );
}

#[test]
fn app_id_from_embedded_file() {
    assert_eq!(embedded_app_id(b"480\n"), "480");
    assert_eq!(embedded_app_id(b"  730 \r\nextra"), "730");
    assert_eq!(embedded_app_id(b""), "480");
    assert_eq!(embedded_app_id(&[0xff, 0x30]), "480");
    assert_eq!(embedded_app_id(b"\n730"), "");
}

#[test]
fn search_path_prepend() {
    assert_eq!(prepend_search_path("/opt/s", None), "/opt/s");
    assert_eq!(prepend_search_path("/opt/s", Some("/usr/lib".into())), "/opt/s:/usr/lib");
}

#[test]
fn text_helpers() {
    assert_eq!(trimmed("\u{3000}\u{a0} hi \u{2009}\n"), "hi");
    assert_eq!(trimmed("   "), "");
    assert!(is_whitespace('\u{85}'));
    assert!(!is_whitespace('x'));
    assert_eq!(decimal_string(0), "0");
    assert_eq!(decimal_string(u64::MAX), "18446744073709551615");
}
