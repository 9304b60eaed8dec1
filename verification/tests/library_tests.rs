use obel::library::{
    cover_file_name, cover_file_name_from_hash, greet, is_audio_ext, is_audio_lowercase_ext,
    is_importable, lower_hex_of, lyrics_file_names, needs_cover_dir, needs_update,
    saved_mtime_of, scan_plan,
};
use obel::metadata::duration_seconds;
use obel::schema::Track;

fn track(path: &str, mtime: Option<i64>) -> Track {
    Track {
        id: 0,
        path: path.to_string(),
        title: None,
        artist: None,
        album: None,
        genre: None,
        year: None,
        cover_art: None,
        duration: None,
        last_modified: mtime,
    }
}

#[test]
fn greet_says_hello() {
    assert_eq!(greet("Ann"), "Hello, Ann! You've been greeted from Rust!");
}

#[test]
fn audio_extensions() {
    assert!(is_audio_ext(Some("FLAC")));
    assert!(is_audio_ext(Some("m4a")));
    assert!(!is_audio_ext(Some("ape")));
    assert!(!is_audio_ext(None));
    assert!(!is_importable(None));
    assert!(is_importable(Some("Mp3")));
    assert!(is_audio_lowercase_ext("wav"));
    assert!(!is_audio_lowercase_ext("WAV"));
}

#[test]
fn update_decisions() {
    assert!(needs_update(None, Some(5)));
    assert!(needs_update(Some(Some(5)), None));
    assert!(!needs_update(Some(Some(5)), Some(5)));
    assert!(needs_update(Some(Some(5)), Some(6)));
    assert!(!needs_update(Some(None), Some(0)));
    assert!(needs_update(Some(None), Some(1)));
}

#[test]
fn saved_time_is_the_last_record() {
    let existing = vec![track("a", Some(1)), track("b", None), track("a", Some(3))];
    assert_eq!(saved_mtime_of(&existing, &"a".to_string()), Some(Some(3)));
    assert_eq!(saved_mtime_of(&existing, &"b".to_string()), Some(None));
    assert_eq!(saved_mtime_of(&existing, &"c".to_string()), None);
}

#[test]
fn scan_plan_drops_missing_and_reads_changed() {
    let existing = vec![track("/m/a.mp3", Some(10)), track("/m/gone.mp3", Some(5)), track("/m/b.mp3", Some(7))];
    let files = vec!["/m/a.mp3".to_string(), "/m/b.mp3".to_string(), "/m/new.mp3".to_string()];
    let mtimes = vec![Some(10), Some(8), Some(1)];
    let plan = scan_plan(&existing, &files, &mtimes);
    assert_eq!(plan.remove, vec!["/m/gone.mp3".to_string()]);
    assert_eq!(plan.update, vec![1, 2]);
}

#[test]
fn scan_of_unchanged_library_does_nothing() {
    let existing = vec![track("x", Some(1)), track("y", Some(2))];
    let files = vec!["x".to_string(), "y".to_string()];
    let plan = scan_plan(&existing, &files, &vec![Some(1), Some(2)]);
    assert!(plan.remove.is_empty());
    assert!(plan.update.is_empty());
}

#[test]
fn cover_names_use_blake3() {
    assert_eq!(
        cover_file_name(b"abc", "image/png"),
        "6437b3ac38465133ffb63b75273a8db548c558465d79db03fd359c6cd5bd9d85.png"
    );
    assert_eq!(
        cover_file_name(b"", "image/jpeg"),
        "af1349b9f5f9a1a6a0404dea36dcc9499bcb25c9adc112b7cc9a93cae41f3262.jpg"
    );
}

#[test]
fn cover_names_from_u64_hash() {
    assert_eq!(cover_file_name_from_hash(255, "image/png"), "ff.png");
    assert_eq!(cover_file_name_from_hash(0, "x"), "0.jpg");
    assert_eq!(cover_file_name_from_hash(u64::MAX, "image/gif"), "ffffffffffffffff.jpg");
}

#[test]
fn lower_hex_two_digits_a_byte() {
    assert_eq!(lower_hex_of(&[0x00, 0x0f, 0xa0, 0xff]).into_iter().collect::<String>(), "000fa0ff");
}

#[test]
fn cover_dir_only_for_bare_names() {
    assert!(needs_cover_dir("abc.jpg"));
    assert!(!needs_cover_dir("data:image/png;base64,xx"));
    assert!(!needs_cover_dir("https://x/y.jpg"));
    assert!(!needs_cover_dir("C:\\covers\\a.jpg"));
    assert!(!needs_cover_dir("/home/a.jpg"));
}

#[test]
fn lyrics_names() {
    let (lrc, txt) = lyrics_file_names("01 Song");
    assert_eq!(lrc, "01 Song.lrc");
    assert_eq!(txt, "01 Song.txt");
}

#[test]
fn duration_wraps_like_as() {
    assert_eq!(duration_seconds(215), 215);
    assert_eq!(duration_seconds(3_000_000_000), 3_000_000_000u64 as i32);
}

#[test]
fn rescan_reads_only_unrecorded_files() {
    // "z" was found before but its tags could not be read, so it was never recorded.
    let existing = vec![track("x", Some(1)), track("y", Some(2))];
    let files = vec!["x".to_string(), "z".to_string(), "y".to_string()];
    let plan = scan_plan(&existing, &files, &vec![Some(1), Some(9), Some(2)]);
    assert!(plan.remove.is_empty());
    assert_eq!(plan.update, vec![1]);
    assert!(obel::metadata::read_metadata(b"not audio", "mp3").is_none());
}
