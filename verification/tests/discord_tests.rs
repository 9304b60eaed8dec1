use obel::discord::{
    cover_art_url, cover_url_from_ids, cover_url_from_response, musicbrainz_query,
    musicbrainz_search_url, DiscordRPC,
};
use obel::settings::{test_presence, AppSettings};

#[test]
fn presence_contents() {
    let rpc = DiscordRPC::new(true);
    let p = rpc
        .update_presence("Song", "Artist", Some("https://c/x".to_string()), Some(2), Some(9), Some(100), Some(300))
        .unwrap();
    assert_eq!(p.details, "\u{266A} Song");
    assert_eq!(p.state, "Artist");
    assert_eq!(p.large_image, "https://c/x");
    assert_eq!(p.timestamps, Some((100, 300)));
    let party = p.party.unwrap();
    assert_eq!(party.id, "obel_playback_session");
    assert_eq!(party.size, [2, 9]);
}

#[test]
fn presence_defaults() {
    let rpc = DiscordRPC::new(false);
    let p = rpc.update_presence("S", "A", None, Some(1), None, Some(1), None).unwrap();
    assert_eq!(p.large_image, "app_icon");
    assert_eq!(p.timestamps, None);
    assert!(p.party.is_none());
    let p = rpc.update_presence("S", "A", None, Some(u32::MAX), Some(3), None, None).unwrap();
    assert_eq!(p.party.unwrap().size, [-1, 3]);
}

#[test]
fn disabled_presence_sends_nothing() {
    let mut rpc = DiscordRPC::new(true);
    assert!(rpc.set_enabled(false));
    assert!(rpc.update_presence("S", "A", None, None, None, None, None).is_none());
    assert_eq!(rpc.connection_answer(), Some(false));
    assert!(!rpc.set_enabled(false) || rpc.connected);
}

#[test]
fn connection_flow() {
    let mut rpc = DiscordRPC::new(false);
    assert_eq!(rpc.connection_answer(), None);
    assert!(!rpc.record_connect(false));
    assert_eq!(rpc.connection_answer(), None);
    assert!(rpc.record_connect(true));
    assert_eq!(rpc.connection_answer(), Some(true));
    rpc.record_presence_result(false);
    assert!(!rpc.connected);
    assert!(rpc.is_enabled());
}

#[test]
fn musicbrainz_urls() {
    assert_eq!(musicbrainz_query("A B", "C"), "artist:\"A B\" AND release:\"C\"");
    assert_eq!(
        musicbrainz_search_url("A B", "C"),
        "https://musicbrainz.org/ws/2/release?query=artist%3A%22A%20B%22%20AND%20release%3A%22C%22&fmt=json"
    );
    assert_eq!(
        musicbrainz_search_url("\u{e9}-_.~", "x"),
        "https://musicbrainz.org/ws/2/release?query=artist%3A%22%C3%A9-_.~%22%20AND%20release%3A%22x%22&fmt=json"
    );
    assert_eq!(cover_art_url("abc-1"), "https://coverartarchive.org/release/abc-1/front");
}

#[test]
fn settings_switches() {
    let mut s = AppSettings::new(Some(DiscordRPC::new(true)));
    assert!(s.discord_enabled && s.lyrics_enabled);
    assert!(s.set_discord_enabled(false));
    assert!(!s.discord_enabled);
    assert!(!s.discord_rpc.as_ref().unwrap().enabled);
    s.set_lyrics_enabled(false);
    assert!(!s.lyrics_enabled);
    let mut none = AppSettings::new(None);
    assert!(!none.set_discord_enabled(false));
    assert!(none.discord_rpc.is_none());
}

#[test]
fn presence_test_activity() {
    let p = test_presence(&DiscordRPC::new(false)).unwrap();
    assert_eq!(p.details, "\u{266A} TEST TRACK");
    assert_eq!(p.state, "OBEL TEST ARTIST");
    assert_eq!(p.party.unwrap().size, [1, 1]);
}

#[test]
fn cover_url_from_a_search_response() {
    let body = br#"{"created":"x","count":2,"releases":[{"id":"abc-123","title":"A"},{"id":"def"}]}"#;
    assert_eq!(
        cover_url_from_response(body).as_deref(),
        Some("https://coverartarchive.org/release/abc-123/front")
    );
}

#[test]
fn cover_url_needs_a_first_release_with_a_string_id() {
    assert_eq!(cover_url_from_response(br#"{"releases":[]}"#), None);
    assert_eq!(cover_url_from_response(br#"{"releases":[{"id":7},{"id":"b"}]}"#), None);
    assert_eq!(cover_url_from_response(br#"{"releases":{"id":"a"}}"#), None);
    assert_eq!(cover_url_from_response(br#"{"count":0}"#), None);
    assert_eq!(cover_url_from_response(br#"[1,2]"#), None);
    assert_eq!(cover_url_from_response(b"not json"), None);
}

#[test]
fn cover_url_from_parsed_ids() {
    assert_eq!(cover_url_from_ids(&None), None);
    assert_eq!(cover_url_from_ids(&Some(None)), None);
    assert_eq!(cover_url_from_ids(&Some(Some(vec![]))), None);
    assert_eq!(cover_url_from_ids(&Some(Some(vec![None, Some("b".to_string())]))), None);
    assert_eq!(
        cover_url_from_ids(&Some(Some(vec![Some("x".to_string()), None]))).as_deref(),
        Some("https://coverartarchive.org/release/x/front")
    );
}
