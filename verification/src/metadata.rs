//! The tags read from an audio file.

use std::io::Cursor;

use lofty::file::{AudioFile, FileType, TaggedFileExt};
use lofty::probe::Probe;
use lofty::tag::Accessor;
use vstd::prelude::*;

use crate::schema::opt_view;

verus! {

/// What the tags of an audio file say.
pub struct TrackMetadata {
    pub title: Option<String>,
    pub artist: Option<String>,
    pub album: Option<String>,
    pub genre: Option<String>,
    pub year: Option<i32>,
    /// Length in whole seconds.
    pub duration: Option<i32>,
    pub cover_data: Option<Vec<u8>>,
    pub cover_mime: Option<String>,
}

pub struct TrackMetadataView {
    pub title: Option<Seq<char>>,
    pub artist: Option<Seq<char>>,
    pub album: Option<Seq<char>>,
    pub genre: Option<Seq<char>>,
    pub year: Option<i32>,
    pub duration: Option<i32>,
    pub cover_data: Option<Seq<u8>>,
    pub cover_mime: Option<Seq<char>>,
}

impl View for TrackMetadata {
    type V = TrackMetadataView;

    open spec fn view(&self) -> TrackMetadataView {
        TrackMetadataView {
            title: opt_view(self.title),
            artist: opt_view(self.artist),
            album: opt_view(self.album),
            genre: opt_view(self.genre),
            year: self.year,
            duration: self.duration,
            cover_data: match self.cover_data {
                Some(d) => Some(d@),
                None => None,
            },
            cover_mime: opt_view(self.cover_mime),
        }
    }
}

/// A track length in whole seconds, as stored: the seconds as an `i32`,
/// wrapping as `as` does for lengths past `i32::MAX`.
pub fn duration_seconds(secs: u64) -> (r: i32)
    ensures
        r == secs as i32,
{
    secs as i32
}

// ---------------------------------------------------------------------------
// What the tag reader hands back
// ---------------------------------------------------------------------------

/// A picture embedded in a tag: its bytes and, when the tag names one, its
/// MIME type.
pub struct RawPicture {
    pub data: Vec<u8>,
    pub mime: Option<String>,
}

pub struct RawPictureView {
    pub data: Seq<u8>,
    pub mime: Option<Seq<char>>,
}

impl View for RawPicture {
    type V = RawPictureView;

    open spec fn view(&self) -> RawPictureView {
        RawPictureView { data: self.data@, mime: opt_view(self.mime) }
    }
}

/// The fields of a file's primary tag, with every picture in tag order.
pub struct RawTag {
    pub title: Option<String>,
    pub artist: Option<String>,
    pub album: Option<String>,
    pub genre: Option<String>,
    pub year: Option<u32>,
    pub pictures: Vec<RawPicture>,
}

pub struct RawTagView {
    pub title: Option<Seq<char>>,
    pub artist: Option<Seq<char>>,
    pub album: Option<Seq<char>>,
    pub genre: Option<Seq<char>>,
    pub year: Option<u32>,
    pub pictures: Seq<RawPictureView>,
}

impl View for RawTag {
    type V = RawTagView;

    open spec fn view(&self) -> RawTagView {
        RawTagView {
            title: opt_view(self.title),
            artist: opt_view(self.artist),
            album: opt_view(self.album),
            genre: opt_view(self.genre),
            year: self.year,
            pictures: self.pictures@.map_values(|p: RawPicture| p@),
        }
    }
}

/// A parsed audio file: its primary tag, if it has one, and its length in
/// whole seconds.
pub struct RawTags {
    pub tag: Option<RawTag>,
    pub duration_secs: u64,
}

pub struct RawTagsView {
    pub tag: Option<RawTagView>,
    pub duration_secs: u64,
}

impl View for RawTags {
    type V = RawTagsView;

    open spec fn view(&self) -> RawTagsView {
        RawTagsView {
            tag: match self.tag {
                Some(t) => Some(t@),
                None => None,
            },
            duration_secs: self.duration_secs,
        }
    }
}

pub open spec fn opt_tags_view(t: Option<RawTags>) -> Option<RawTagsView> {
    match t {
        Some(t) => Some(t@),
        None => None,
    }
}

pub open spec fn opt_meta_view(m: Option<TrackMetadata>) -> Option<TrackMetadataView> {
    match m {
        Some(m) => Some(m@),
        None => None,
    }
}

/// What lofty parses from `data` read as a file with extension `ext`
/// (`None` where the extension names no format lofty knows, or the bytes
/// do not parse as that format).
pub uninterp spec fn tags_of(data: Seq<u8>, ext: Seq<char>) -> Option<RawTagsView>;

/// Parses `data` as an audio file of the format that `ext` names, as
/// `lofty::read_from_path` does with a path of that extension:
/// `FileType::from_ext`, then `Probe::with_file_type(..).read()`, then the
/// primary tag's text fields, year and pictures, and the duration in whole
/// seconds. Its result is named by `tags_of`; nothing more is stated of it.
#[verifier::external_body]
fn read_tags(data: &[u8], ext: &str) -> (r: Option<RawTags>)
    ensures
        opt_tags_view(r) == tags_of(data@, ext@),
{
    let file = Probe::with_file_type(Cursor::new(data), FileType::from_ext(ext)?).read().ok()?;
    let tag = file.primary_tag().map(|t| RawTag {
        title: t.title().map(String::from),
        artist: t.artist().map(String::from),
        album: t.album().map(String::from),
        genre: t.genre().map(String::from),
        year: t.year(),
        pictures: t.pictures().iter().map(|p| RawPicture {
            data: p.data().to_vec(),
            mime: p.mime_type().map(|m| m.to_string()),
        }).collect(),
    });
    Some(RawTags { tag, duration_secs: file.properties().duration().as_secs() })
}

// ---------------------------------------------------------------------------
// From tags to a track's metadata
// ---------------------------------------------------------------------------

/// The MIME type of cover art whose tag names none.
pub open spec fn default_cover_mime() -> Seq<char> {
    "image/jpeg"@
}

/// What a track's metadata is, given the parsed file: no metadata for a
/// file that did not parse; otherwise the tag's text fields, its year as
/// an `i32`, its first picture and that picture's MIME type (JPEG when
/// the tag names none), and the duration in whole seconds. A file without
/// a tag has only its duration.
pub open spec fn metadata_of(t: Option<RawTagsView>) -> Option<TrackMetadataView> {
    match t {
        None => None,
        Some(t) => {
            let duration = Some(t.duration_secs as i32);
            Some(
                match t.tag {
                    None => TrackMetadataView {
                        title: None,
                        artist: None,
                        album: None,
                        genre: None,
                        year: None,
                        duration,
                        cover_data: None,
                        cover_mime: None,
                    },
                    Some(tag) => TrackMetadataView {
                        title: tag.title,
                        artist: tag.artist,
                        album: tag.album,
                        genre: tag.genre,
                        year: match tag.year {
                            Some(y) => Some(y as i32),
                            None => None,
                        },
                        duration,
                        cover_data: if tag.pictures.len() > 0 {
                            Some(tag.pictures[0].data)
                        } else {
                            None
                        },
                        cover_mime: if tag.pictures.len() > 0 {
                            Some(
                                match tag.pictures[0].mime {
                                    Some(m) => m,
                                    None => default_cover_mime(),
                                },
                            )
                        } else {
                            None
                        },
                    },
                },
            )
        },
    }
}

/// What a parsed file's tag says is carried over: a file that did not
/// parse has no metadata; one that did has its length in whole seconds
/// (as `as i32` gives it); with a primary tag, the title, artist, album
/// and genre are the tag's, the year is the tag's year as `as i32` gives
/// it, and the cover is the first picture, with its MIME type or JPEG;
/// without a tag or a picture, there is nothing else.
pub proof fn law_metadata_carries_tags(t: Option<RawTagsView>)
    ensures
        t is None <==> metadata_of(t) is None,
        t matches Some(tags) ==> {
            let m = metadata_of(t)->0;
            &&& m.duration == Some(tags.duration_secs as i32)
            &&& match tags.tag {
                None => m.title is None && m.artist is None && m.album is None && m.genre is None
                    && m.year is None && m.cover_data is None && m.cover_mime is None,
                Some(tag) => {
                    &&& m.title == tag.title
                    &&& m.artist == tag.artist
                    &&& m.album == tag.album
                    &&& m.genre == tag.genre
                    &&& (tag.year is None <==> m.year is None)
                    &&& (tag.year matches Some(y) ==> m.year == Some(y as i32))
                    &&& (tag.pictures.len() == 0 <==> m.cover_data is None)
                    &&& (tag.pictures.len() == 0 <==> m.cover_mime is None)
                    &&& (tag.pictures.len() > 0 ==> m.cover_data == Some(tag.pictures[0].data))
                    &&& (tag.pictures.len() > 0 ==> m.cover_mime == Some(
                        match tag.pictures[0].mime {
                            Some(mime) => mime,
                            None => "image/jpeg"@,
                        },
                    ))
                },
            }
        },
{
}

/// A track's metadata from a parsed file (see `metadata_of`).
pub fn metadata_from_tags(t: Option<RawTags>) -> (r: Option<TrackMetadata>)
    ensures
        opt_meta_view(r) == metadata_of(opt_tags_view(t)),
{
    match t {
        None => None,
        Some(RawTags { tag, duration_secs }) => {
            let duration = Some(duration_seconds(duration_secs));
            match tag {
                None => Some(
                    TrackMetadata {
                        title: None,
                        artist: None,
                        album: None,
                        genre: None,
                        year: None,
                        duration,
                        cover_data: None,
                        cover_mime: None,
                    },
                ),
                Some(RawTag { title, artist, album, genre, year, pictures }) => {
                    let mut pictures = pictures;
                    let (cover_data, cover_mime) = if pictures.len() > 0 {
                        let first = pictures.remove(0);
                        let mime = match first.mime {
                            Some(m) => m,
                            None => String::from_str("image/jpeg"),
                        };
                        (Some(first.data), Some(mime))
                    } else {
                        (None, None)
                    };
                    let year = match year {
                        Some(y) => Some(y as i32),
                        None => None,
                    };
                    Some(
                        TrackMetadata {
                            title,
                            artist,
                            album,
                            genre,
                            year,
                            duration,
                            cover_data,
                            cover_mime,
                        },
                    )
                },
            }
        },
    }
}

/// The metadata of an audio file, given its bytes and its extension, as
/// `metadata_of` says of what lofty parses from them; `None` when they do
/// not parse.
pub fn read_metadata(data: &[u8], ext: &str) -> (r: Option<TrackMetadata>)
    ensures
        opt_meta_view(r) == metadata_of(tags_of(data@, ext@)),
{
    metadata_from_tags(read_tags(data, ext))
}

} // verus!
