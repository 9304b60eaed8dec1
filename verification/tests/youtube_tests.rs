use obel::text::{chars_of, decimal_chars, string_of, trim};
use obel::youtube::{
    check_url, download_args, download_failed_message, downloaded_message,
    downloader_candidates, downloader_missing_message, first_working, output_pattern, version_args,
};

#[test]
fn url_checks() {
    assert_eq!(check_url("  \t "), Err("YouTube URL is required.".to_string()));
    assert_eq!(check_url(" https://youtu.be/x \n"), Ok("https://youtu.be/x".to_string()));
}

#[test]
fn candidates_in_order() {
    let c = downloader_candidates();
    let names: Vec<(String, Vec<String>)> = c.iter().map(|d| (d.program.clone(), d.args.clone())).collect();
    assert_eq!(
        names,
        vec![
            ("yt-dlp".to_string(), vec![]),
            ("youtube-dl".to_string(), vec![]),
            ("python".to_string(), vec!["-m".to_string(), "yt_dlp".to_string()]),
            ("python3".to_string(), vec!["-m".to_string(), "yt_dlp".to_string()]),
            ("py".to_string(), vec!["-3".to_string(), "-m".to_string(), "yt_dlp".to_string()]),
        ]
    );
    assert_eq!(version_args(&c[4]), vec!["-3", "-m", "yt_dlp", "--version"]);
}

#[test]
fn download_arguments() {
    let c = downloader_candidates();
    let args = download_args(&c[2], "/d/%(title)s.%(ext)s", "https://y/v");
    assert_eq!(
        args,
        vec![
            "-m", "yt_dlp", "--extract-audio", "--audio-format", "mp3", "--audio-quality", "0",
            "--restrict-filenames", "--no-playlist", "--embed-thumbnail", "--add-metadata",
            "--output", "/d/%(title)s.%(ext)s", "https://y/v",
        ]
    );
    assert_eq!(output_pattern(), "%(title)s.%(ext)s");
}

#[test]
fn download_messages() {
    assert_eq!(download_failed_message(b"  ERROR: boom \n"), "Download failed: ERROR: boom");
    assert_eq!(download_failed_message(&[0xff, b'x']), "Download failed: \u{fffd}x");
    assert_eq!(downloaded_message("/music"), "Downloaded to /music");
    assert!(downloader_missing_message().starts_with("yt-dlp not found."));
}

#[test]
fn text_helpers() {
    assert_eq!(chars_of("h\u{e9}"), vec!['h', '\u{e9}']);
    assert_eq!(string_of(&trim(&chars_of("\u{2003} x y \n"))), "x y");
    assert_eq!(string_of(&decimal_chars(0)), "0");
    assert_eq!(string_of(&decimal_chars(9070)), "9070");
}

#[test]
fn first_working_downloader_is_the_first_that_ran() {
    assert_eq!(first_working(&vec![]), None);
    assert_eq!(first_working(&vec![false, false]), None);
    assert_eq!(first_working(&vec![true]), Some(0));
    assert_eq!(first_working(&vec![false, false, true]), Some(2));
    assert_eq!(first_working(&vec![false, true, true]), Some(1));
}
