use obel::metadata::{
    duration_seconds, metadata_from_tags, read_metadata, RawPicture, RawTag, RawTags,
};

fn le32(n: u32) -> [u8; 4] {
    n.to_le_bytes()
}

/// A mono 8-bit PCM WAV file at 8000 Hz holding `seconds` of silence, with
/// `extra` chunks before its data chunk.
fn wav(seconds: u32, extra: &[u8]) -> Vec<u8> {
    let samples = 8000 * seconds;
    let mut body = Vec::new();
    body.extend_from_slice(b"WAVE");
    body.extend_from_slice(b"fmt ");
    body.extend_from_slice(&le32(16));
    body.extend_from_slice(&1u16.to_le_bytes());
    body.extend_from_slice(&1u16.to_le_bytes());
    body.extend_from_slice(&le32(8000));
    body.extend_from_slice(&le32(8000));
    body.extend_from_slice(&1u16.to_le_bytes());
    body.extend_from_slice(&8u16.to_le_bytes());
    body.extend_from_slice(extra);
    body.extend_from_slice(b"data");
    body.extend_from_slice(&le32(samples));
    body.extend(std::iter::repeat(128u8).take(samples as usize));
    let mut out = Vec::new();
    out.extend_from_slice(b"RIFF");
    out.extend_from_slice(&le32(body.len() as u32));
    out.extend_from_slice(&body);
    out
}

/// An `ID3 ` chunk holding an ID3v2.4 tag with a title and a recording date.
fn id3_chunk(title: &str, date: &str) -> Vec<u8> {
    let mut frames = Vec::new();
    for (id, text) in [(b"TIT2", title), (b"TDRC", date)] {
        frames.extend_from_slice(id);
        frames.extend_from_slice(&[0, 0, 0, (text.len() + 1) as u8]);
        frames.extend_from_slice(&[0, 0, 3]);
        frames.extend_from_slice(text.as_bytes());
    }
    if frames.len() % 2 == 1 {
        frames.push(0);
    }
    let mut tag = Vec::new();
    tag.extend_from_slice(b"ID3");
    tag.extend_from_slice(&[4, 0, 0, 0, 0, 0, frames.len() as u8]);
    tag.extend_from_slice(&frames);
    let mut chunk = Vec::new();
    chunk.extend_from_slice(b"ID3 ");
    chunk.extend_from_slice(&le32(tag.len() as u32));
    chunk.extend_from_slice(&tag);
    chunk
}

fn picture(data: &[u8], mime: Option<&str>) -> RawPicture {
    RawPicture { data: data.to_vec(), mime: mime.map(|m| m.to_string()) }
}

fn tag(pictures: Vec<RawPicture>, year: Option<u32>) -> RawTag {
    RawTag {
        title: Some("Song".to_string()),
        artist: Some("Band".to_string()),
        album: None,
        genre: Some("Rock".to_string()),
        year,
        pictures,
    }
}

#[test]
fn metadata_of_an_unparsed_file_is_none() {
    assert!(metadata_from_tags(None).is_none());
}

#[test]
fn metadata_without_a_tag_has_only_the_duration() {
    let m = metadata_from_tags(Some(RawTags { tag: None, duration_secs: 245 })).unwrap();
    assert_eq!(m.duration, Some(245));
    assert!(m.title.is_none() && m.artist.is_none() && m.album.is_none() && m.genre.is_none());
    assert!(m.year.is_none() && m.cover_data.is_none() && m.cover_mime.is_none());
}

#[test]
fn metadata_copies_the_text_fields_and_year() {
    let m = metadata_from_tags(Some(RawTags { tag: Some(tag(vec![], Some(1999))), duration_secs: 3 }))
        .unwrap();
    assert_eq!(m.title.as_deref(), Some("Song"));
    assert_eq!(m.artist.as_deref(), Some("Band"));
    assert_eq!(m.album, None);
    assert_eq!(m.genre.as_deref(), Some("Rock"));
    assert_eq!(m.year, Some(1999));
    assert_eq!(m.duration, Some(3));
    assert!(m.cover_data.is_none() && m.cover_mime.is_none());
}

#[test]
fn metadata_takes_the_first_picture() {
    let pics = vec![picture(&[1, 2, 3], Some("image/png")), picture(&[9], Some("image/gif"))];
    let m = metadata_from_tags(Some(RawTags { tag: Some(tag(pics, None)), duration_secs: 0 }))
        .unwrap();
    assert_eq!(m.cover_data, Some(vec![1, 2, 3]));
    assert_eq!(m.cover_mime.as_deref(), Some("image/png"));
}

#[test]
fn metadata_picture_without_mime_is_jpeg() {
    let pics = vec![picture(&[7, 7], None), picture(&[9], Some("image/png"))];
    let m = metadata_from_tags(Some(RawTags { tag: Some(tag(pics, None)), duration_secs: 0 }))
        .unwrap();
    assert_eq!(m.cover_data, Some(vec![7, 7]));
    assert_eq!(m.cover_mime.as_deref(), Some("image/jpeg"));
}

#[test]
fn metadata_year_and_duration_wrap_as_i32() {
    let m = metadata_from_tags(Some(RawTags {
        tag: Some(tag(vec![], Some(3_000_000_000))),
        duration_secs: 4_294_967_297,
    }))
    .unwrap();
    assert_eq!(m.year, Some(-1_294_967_296));
    assert_eq!(m.duration, Some(1));
    assert_eq!(duration_seconds(4_294_967_297), 1);
}

#[test]
fn read_metadata_reads_a_wav_without_tags() {
    let m = read_metadata(&wav(2, &[]), "wav").unwrap();
    assert_eq!(m.duration, Some(2));
    assert!(m.title.is_none() && m.year.is_none() && m.cover_data.is_none());
}

#[test]
fn read_metadata_goes_by_the_extension() {
    let data = wav(1, &[]);
    assert!(read_metadata(&data, "WAV").is_some());
    assert!(read_metadata(&data, "xyz").is_none());
    assert!(read_metadata(&data, "flac").is_none());
    assert!(read_metadata(b"not audio", "wav").is_none());
}

#[test]
fn read_metadata_reads_the_primary_tag() {
    let m = read_metadata(&wav(1, &id3_chunk("Hello", "2001")), "wav").unwrap();
    assert_eq!(m.title.as_deref(), Some("Hello"));
    assert_eq!(m.year, Some(2001));
    assert_eq!(m.duration, Some(1));
    assert!(m.artist.is_none() && m.cover_data.is_none());
}
