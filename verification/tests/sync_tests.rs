use obel::schema::Track;
use obel::sync::{
    detect_devices, device_path, find_device, is_firmware_marker, label_from_buffer,
    removable_drive_letters, sanitize, sanitize_accepts, DeviceInfo, DriveInfo, DriveScan, VolumeInfo,
};
use obel::sync_plan::{
    build_sync_plan, fits_on_device, is_supported_ext, is_supported_lowercase_ext, needs_copy,
    preview_sync, required_space, total_size, SyncSummary, SyncTrack,
};

fn volume(label: &str, total: u64, free: u64) -> VolumeInfo {
    VolumeInfo { label: label.to_string(), total_bytes: total, free_bytes: free }
}

fn drive(letter: &str, free: u64) -> DriveInfo {
    DriveInfo {
        letter: letter.to_string(),
        label: "ECHO MINI".to_string(),
        total_bytes: 1000,
        free_bytes: free,
        is_echo_mini: true,
        echo_volume: Some("internal".to_string()),
    }
}

fn track(id: i32, path: &str, title: Option<&str>, artist: Option<&str>, album: Option<&str>) -> Track {
    Track {
        id,
        path: path.to_string(),
        title: title.map(|s| s.to_string()),
        artist: artist.map(|s| s.to_string()),
        album: album.map(|s| s.to_string()),
        genre: None,
        year: None,
        cover_art: None,
        duration: None,
        last_modified: None,
    }
}

#[test]
fn sanitize_replaces_reserved_characters() {
    assert_eq!(sanitize("AC/DC: Live?"), "AC_DC_ Live_");
    assert_eq!(sanitize("a<b>c|d*e\"f\\g"), "a_b_c_d_e_f_g");
}

#[test]
fn sanitize_replaces_control_characters() {
    assert_eq!(sanitize("a\u{7}b\u{85}c"), "a_b_c");
}

#[test]
fn sanitize_trims_spaces_and_trailing_dots() {
    assert_eq!(sanitize("  Hello World..  "), "Hello World");
    assert_eq!(sanitize("Hello. World."), "Hello. World");
    assert_eq!(sanitize("\u{3000}Name\u{A0}"), "Name");
}

#[test]
fn sanitize_empty_becomes_untitled() {
    assert_eq!(sanitize(""), "Untitled");
    assert_eq!(sanitize("   "), "Untitled");
    assert_eq!(sanitize("..."), "Untitled");
}

#[test]
fn sanitize_trims_spaces_and_dots_however_they_mix() {
    assert_eq!(sanitize("a ."), "a");
    assert_eq!(sanitize("a . . "), "a");
    assert_eq!(sanitize(&sanitize("a .")), sanitize("a ."));
}

#[test]
fn sanitize_trims_what_the_cut_leaves_at_the_end() {
    let spaced = format!("{} b", "a".repeat(149));
    assert_eq!(sanitize(&spaced), "a".repeat(149));
    let dotted = format!("{}. b", "a".repeat(148));
    assert_eq!(sanitize(&dotted), "a".repeat(148));
}

#[test]
fn sanitize_cuts_to_150_bytes() {
    let long = "a".repeat(200);
    assert_eq!(sanitize(&long), "a".repeat(150));
    let wide = "\u{e9}".repeat(100);
    assert!(sanitize_accepts(&wide));
    assert_eq!(sanitize(&wide), "\u{e9}".repeat(75));
    assert_eq!(sanitize(&wide).len(), 150);
}

#[test]
fn sanitize_refuses_a_cut_inside_a_character() {
    let odd = format!("a{}", "\u{e9}".repeat(100));
    assert!(!sanitize_accepts(&odd));
    assert!(sanitize_accepts("short"));
}

#[test]
fn device_path_builds_artist_album_file() {
    let d = drive("E:", 0);
    let p = device_path(&d, "", "Abbey Road", Some(3), "Come Together", "mp3");
    assert_eq!(p, vec!["E:\\", "Music", "Unknown Artist", "Abbey Road", "03 - Come Together.mp3"]);
}

#[test]
fn device_path_numbers() {
    let d = drive("F::", 0);
    let p = device_path(&d, "Band", "", Some(123), "t", "flac");
    assert_eq!(p[0], "F:\\");
    assert_eq!(p[3], "Unknown Album");
    assert_eq!(p[4], "123 - t.flac");
    let p = device_path(&d, "Band", "X", Some(-5), "t", "ogg");
    assert_eq!(p[4], "-5 - t.ogg");
    let p = device_path(&d, "Band", "X", Some(0), "t", "ogg");
    assert_eq!(p[4], "00 - t.ogg");
    let p = device_path(&d, "Band", "X", None, "A/B", "wav");
    assert_eq!(p[4], "A_B.wav");
}

#[test]
fn supported_extensions_any_case() {
    assert!(is_supported_ext("MP3"));
    assert!(is_supported_ext("Flac"));
    assert!(is_supported_ext("ape"));
    assert!(!is_supported_ext("txt"));
    assert!(!is_supported_ext(""));
    assert!(is_supported_lowercase_ext("m4a"));
    assert!(!is_supported_lowercase_ext("M4A"));
}

#[test]
fn firmware_marker_names() {
    assert!(is_firmware_marker("HIFIEC01.img"));
    assert!(is_firmware_marker("HIFIEC.img"));
    assert!(!is_firmware_marker("hifiec01.img"));
    assert!(!is_firmware_marker("HIFIEC01.bin"));
}

#[test]
fn label_from_utf16_buffer() {
    let mut buf: Vec<u16> = " ECHO MINI ".encode_utf16().collect();
    buf.push(0);
    buf.push(0x41);
    assert_eq!(label_from_buffer(&buf), "ECHO MINI");
    let no_end: Vec<u16> = "ABC".encode_utf16().collect();
    assert_eq!(label_from_buffer(&no_end), "");
}

#[test]
fn label_decodes_surrogates() {
    // A pair stands for one character; an unpaired surrogate becomes U+FFFD.
    let pair: Vec<u16> = vec![0x41, 0xD83C, 0xDFB5, 0x42, 0];
    assert_eq!(label_from_buffer(&pair), "A\u{1F3B5}B");
    let lone: Vec<u16> = vec![0xD800, 0x41, 0xDC00, 0];
    assert_eq!(label_from_buffer(&lone), "\u{FFFD}A\u{FFFD}");
    let high_at_end: Vec<u16> = vec![0x41, 0xDBFF, 0];
    assert_eq!(label_from_buffer(&high_at_end), "A\u{FFFD}");
}

#[test]
fn drive_from_letter_labels() {
    let d = DriveInfo::from_letter('E', &volume("ECHO MINI", 10, 5), None);
    assert_eq!(d.letter, "E:");
    assert!(d.is_echo_mini);
    assert_eq!(d.echo_volume.as_deref(), Some("internal"));
    let d = DriveInfo::from_letter('F', &volume("Echo SD", 10, 5), None);
    assert!(d.is_echo_mini);
    assert_eq!(d.echo_volume.as_deref(), Some("sd"));
    // Upper-casing finds "SD" in a lower-case label.
    let d = DriveInfo::from_letter('G', &volume("my sd card", 10, 5), None);
    assert!(!d.is_echo_mini);
    assert_eq!(d.echo_volume.as_deref(), Some("sd"));
    let d = DriveInfo::from_letter('H', &volume("USB", 10, 5), None);
    assert!(!d.is_echo_mini);
    assert_eq!(d.echo_volume, None);
    let seen = DeviceInfo { seen_letters: vec!['H'] };
    let d = DriveInfo::from_letter('H', &volume("USB", 10, 5), Some(&seen));
    assert!(d.is_echo_mini);
    assert_eq!(d.echo_volume.as_deref(), Some("internal"));
    assert_eq!(d.total_bytes, 10);
    assert_eq!(d.free_bytes, 5);
}

#[test]
fn detect_devices_marks_firmware_volumes() {
    let scans = vec![
        DriveScan { letter: 'E', volume: volume("NO NAME", 100, 50), has_marker: true },
        DriveScan { letter: 'F', volume: volume("STICK", 100, 50), has_marker: false },
    ];
    let devices = detect_devices(&scans);
    assert_eq!(devices.len(), 2);
    assert!(devices[0].is_echo_mini);
    assert_eq!(devices[0].letter, "E:");
    assert!(!devices[1].is_echo_mini);
}

#[test]
fn find_device_by_letter() {
    let devices = vec![drive("E:", 1), drive("F:", 2)];
    let d = find_device(&devices, "F:").unwrap();
    assert_eq!(d.free_bytes, 2);
    match find_device(&devices, "G:") {
        Err(e) => assert_eq!(
            e,
            "Device G: is not connected or detected. Reconnect the player and try again."
        ),
        Ok(_) => panic!("found a drive that is not there"),
    }
}

#[test]
fn plan_groups_and_numbers() {
    let tracks = vec![
        track(1, "/m/a1.mp3", Some("One"), Some("A"), Some("X")),
        track(2, "/m/b1.FLAC", Some("B one"), Some("B"), Some("Y")),
        track(3, "/m/a2.txt", Some("Two"), Some("A"), Some("X")),
        track(4, "/m/a3.ogg", None, Some("A"), Some("X")),
        track(5, "/m/u.wav", Some("U"), None, None),
    ];
    let sizes = vec![10, 20, 30, 40, 50];
    let plan = build_sync_plan(tracks, &sizes);
    let summary: Vec<(String, String, Option<i32>, String, String, u64)> = plan
        .iter()
        .map(|t: &SyncTrack| {
            (t.artist.clone(), t.album.clone(), t.track_num, t.title.clone(), t.ext.clone(), t.size)
        })
        .collect();
    assert_eq!(
        summary,
        vec![
            ("A".to_string(), "X".to_string(), Some(1), "One".to_string(), "mp3".to_string(), 10),
            ("A".to_string(), "X".to_string(), Some(3), "Untitled".to_string(), "ogg".to_string(), 40),
            ("B".to_string(), "Y".to_string(), Some(1), "B one".to_string(), "flac".to_string(), 20),
            (
                "Unknown Artist".to_string(),
                "Unknown Album".to_string(),
                Some(1),
                "U".to_string(),
                "wav".to_string(),
                50
            ),
        ]
    );
    assert_eq!(plan[0].src_path, "/m/a1.mp3");
}

#[test]
fn plan_path_without_dot() {
    let tracks = vec![track(1, "noext", None, None, None), track(2, "dir.mp3/file", None, None, None)];
    let plan = build_sync_plan(tracks, &vec![1, 2]);
    assert!(plan.is_empty());
}

#[test]
fn required_space_sums_sizes() {
    let tracks = vec![
        track(1, "a.mp3", None, None, None),
        track(2, "b.mp3", None, None, None),
    ];
    let plan = build_sync_plan(tracks, &vec![5, 7]);
    assert_eq!(required_space(&plan), 12);
    assert_eq!(total_size(&plan), Some(12));
    let big = build_sync_plan(
        vec![track(1, "a.mp3", None, None, None), track(2, "b.mp3", None, None, None)],
        &vec![u64::MAX, 1],
    );
    assert_eq!(total_size(&big), None);
}

#[test]
fn copy_decision_by_size() {
    assert!(needs_copy(None, 5));
    assert!(needs_copy(Some(4), 5));
    assert!(!needs_copy(Some(5), 5));
}

#[test]
fn preview_counts_what_changes() {
    let tracks = vec![
        track(1, "a.mp3", None, None, None),
        track(2, "b.mp3", None, None, None),
        track(3, "c.mp3", None, None, None),
    ];
    let plan = build_sync_plan(tracks, &vec![5, 7, 11]);
    let existing = vec![Some(5), Some(6), None];
    let p = preview_sync(&plan, &existing, &drive("E:", 17));
    assert_eq!(p.total, 3);
    assert_eq!(p.to_copy, 2);
    assert_eq!(p.up_to_date, 1);
    assert_eq!(p.bytes_needed, 18);
    assert_eq!(p.free_bytes, 17);
    assert!(!fits_on_device(&p));
    let all_there = vec![Some(5), Some(7), Some(11)];
    let p = preview_sync(&plan, &all_there, &drive("E:", 0));
    assert_eq!(p.to_copy, 0);
    assert_eq!(p.bytes_needed, 0);
    assert!(fits_on_device(&p));
}

#[test]
fn summary_counts() {
    let mut s = SyncSummary::start(3);
    s.record(true);
    s.record(false);
    s.record(true);
    assert_eq!((s.copied, s.skipped, s.total), (2, 1, 3));
}

#[test]
fn removable_letters_only() {
    let mut types = vec![0u32; 26];
    types[0] = 2;
    types[2] = 3;
    types[4] = 2;
    types[5] = 2;
    assert_eq!(removable_drive_letters(0b10101, &types), vec!['A', 'E']);
    assert_eq!(removable_drive_letters(0, &types), Vec::<char>::new());
    let all = vec![2u32; 26];
    assert_eq!(removable_drive_letters(1 << 25 | 1 << 26 | 1 << 31, &all), vec!['Z']);
}

#[test]
fn required_space_adds_up_and_ignores_order() {
    let a = build_sync_plan(
        vec![track(1, "a.mp3", None, Some("X"), None), track(2, "b.mp3", None, Some("X"), None)],
        &vec![5, 7],
    );
    let b = build_sync_plan(vec![track(3, "c.flac", None, Some("Y"), None)], &vec![11]);
    let (ra, rb) = (required_space(&a), required_space(&b));
    let mut both = a;
    both.extend(b);
    assert_eq!(required_space(&both), ra + rb);
    assert_eq!(required_space(&both), 23);
    both.reverse();
    assert_eq!(required_space(&both), 23);
}

#[test]
fn summary_counts_every_track_once() {
    let outcomes = [true, false, false, true, false];
    let mut s = SyncSummary::start(outcomes.len());
    for &c in &outcomes {
        s.record(c);
    }
    assert_eq!(s.copied, 2);
    assert_eq!(s.skipped, 3);
    assert_eq!(s.copied + s.skipped, s.total);
}

#[test]
fn ascii_case_of_extensions_and_labels() {
    assert!(is_supported_ext("FLAC"));
    assert!(is_supported_ext("Mp3"));
    assert!(!is_supported_ext("TXT"));
    let d = DriveInfo::from_letter('G', &volume("my sd card", 10, 5), None);
    assert_eq!(d.echo_volume.as_deref(), Some("sd"));
}
