//! Discord Rich Presence: when to connect, what to show, and the cover
//! art lookup on MusicBrainz.
//!
//! The connection to Discord itself is made by the caller; this module
//! keeps its state (connected, enabled) and decides, for each request,
//! whether to try to connect and what activity to send.

use vstd::prelude::*;

use crate::schema::opt_view;
use crate::text::{chars_of, extend_chars, string_of};

verus! {

/// The presence state: whether the connection to Discord is up, and
/// whether presence is enabled by the user.
pub struct DiscordRPC {
    pub connected: bool,
    pub enabled: bool,
}

/// The party shown with the activity: the playback session, with the
/// track's place in its album.
pub struct PresenceParty {
    pub id: String,
    pub size: [i32; 2],
}

/// The activity to send to Discord.
pub struct Presence {
    pub details: String,
    pub state: String,
    pub large_image: String,
    /// Start and end of the track, in seconds since the Unix epoch.
    pub timestamps: Option<(i64, i64)>,
    pub party: Option<PresenceParty>,
}

/// The activity that `update_presence` sends.
pub open spec fn presence_ok(
    p: Presence,
    title: Seq<char>,
    artist: Seq<char>,
    cover_url: Option<Seq<char>>,
    track_number: Option<u32>,
    total_tracks: Option<u32>,
    start_time: Option<i64>,
    end_time: Option<i64>,
) -> bool {
    &&& p.details@ == "\u{266A} "@ + title
    &&& p.state@ == artist
    &&& p.large_image@ == match cover_url {
        Some(u) => u,
        None => "app_icon"@,
    }
    &&& p.timestamps == match (start_time, end_time) {
        (Some(s), Some(e)) => Some((s, e)),
        _ => None,
    }
    &&& match (track_number, total_tracks) {
        (Some(n), Some(t)) => (p.party matches Some(party) && party.id@ == "obel_playback_session"@
            && party.size@ == seq![n as i32, t as i32]),
        _ => p.party is None,
    }
}

/// What `ensure_connected` answers without trying to connect: `false`
/// when presence is disabled, `true` when already connected.
pub open spec fn connection_answer_spec(s: DiscordRPC) -> Option<bool> {
    if !s.enabled {
        Some(false)
    } else if s.connected {
        Some(true)
    } else {
        None
    }
}

/// The state after enabling or disabling presence.
pub open spec fn set_enabled_spec(s: DiscordRPC, enabled: bool) -> DiscordRPC {
    DiscordRPC { enabled, ..s }
}

/// The state after an attempt to connect.
pub open spec fn connect_spec(s: DiscordRPC, ok: bool) -> DiscordRPC {
    DiscordRPC { connected: s.connected || ok, ..s }
}

/// Once presence is disabled, nothing connects to Discord: the answer is
/// `false` without an attempt, whatever the connection state.
pub proof fn law_disabled_never_connects(s: DiscordRPC)
    ensures
        connection_answer_spec(set_enabled_spec(s, false)) == Some(false),
{
}

/// A successful connection is kept: while presence stays enabled, later
/// requests are answered `true` without a new attempt.
pub proof fn law_connection_kept(s: DiscordRPC)
    requires
        s.enabled,
    ensures
        connection_answer_spec(connect_spec(s, true)) == Some(true),
{
}

impl DiscordRPC {
    /// The state after startup: enabled, and connected when the first
    /// attempt to connect succeeded.
    pub fn new(connected: bool) -> (r: DiscordRPC)
        ensures
            r.connected == connected,
            r.enabled,
    {
        DiscordRPC { connected, enabled: true }
    }

    pub fn is_enabled(&self) -> (r: bool)
        ensures
            r == self.enabled,
    {
        self.enabled
    }

    /// The answer of `ensure_connected` when no attempt to connect is
    /// needed: `false` when presence is disabled, `true` when already
    /// connected; `None` when the caller has to try to connect.
    pub fn connection_answer(&self) -> (r: Option<bool>)
        ensures
            r == connection_answer_spec(*self),
    {
        if !self.enabled {
            return Some(false);
        }
        if self.connected {
            return Some(true);
        }
        None
    }

    /// Records an attempt to connect, and answers whether presence is now
    /// connected.
    pub fn record_connect(&mut self, ok: bool) -> (r: bool)
        ensures
            r == ok,
            *final(self) == connect_spec(*old(self), ok),
    {
        if ok {
            self.connected = true;
            return true;
        }
        false
    }

    /// Enables or disables presence; answers whether the activity shown
    /// must be cleared (when disabling while connected).
    pub fn set_enabled(&mut self, enabled: bool) -> (clear: bool)
        ensures
            *final(self) == set_enabled_spec(*old(self), enabled),
            clear == (!enabled && old(self).connected),
    {
        self.enabled = enabled;
        !enabled && self.connected
    }

    /// The activity to show for a track: `♪ {title}` with the artist, the
    /// cover (or the app icon), the track's time span when both ends are
    /// known, and its place in the album when both numbers are known.
    /// `None` while presence is disabled.
    pub fn update_presence(
        &self,
        title: &str,
        artist: &str,
        cover_url: Option<String>,
        track_number: Option<u32>,
        total_tracks: Option<u32>,
        start_time: Option<i64>,
        end_time: Option<i64>,
    ) -> (r: Option<Presence>)
        ensures
            !self.enabled ==> r is None,
            self.enabled ==> (r matches Some(p) && presence_ok(
                p,
                title@,
                artist@,
                match cover_url {
                    Some(u) => Some(u@),
                    None => None,
                },
                track_number,
                total_tracks,
                start_time,
                end_time,
            )),
    {
        if !self.enabled {
            return None;
        }
        let mut details = chars_of("\u{266A} ");
        let t = chars_of(title);
        extend_chars(&mut details, &t);
        let state = String::from_str(artist);
        let image = match cover_url {
            Some(u) => u,
            None => String::from_str("app_icon"),
        };
        let timestamps = match (start_time, end_time) {
            (Some(s), Some(e)) => Some((s, e)),
            _ => None,
        };
        let party = match (track_number, total_tracks) {
            (Some(n), Some(total)) => Some(
                PresenceParty {
                    id: String::from_str("obel_playback_session"),
                    size: [n as i32, total as i32],
                },
            ),
            _ => None,
        };
        let p = Presence {
            details: string_of(&details),
            state,
            large_image: image,
            timestamps,
            party,
        };
        proof {
            match (track_number, total_tracks) {
                (Some(n), Some(total)) => {
                    assert(p.party->0.size@ =~= seq![n as i32, total as i32]);
                },
                _ => {},
            }
        }
        Some(p)
    }

    /// Records the outcome of sending an activity: a failure means the
    /// connection is gone.
    pub fn record_presence_result(&mut self, ok: bool)
        ensures
            final(self).enabled == old(self).enabled,
            final(self).connected == (old(self).connected && ok),
    {
        if !ok {
            self.connected = false;
        }
    }
}

// ---------------------------------------------------------------------------
// Cover art lookup
// ---------------------------------------------------------------------------

/// The MusicBrainz search for an album's releases.
pub open spec fn release_query(artist: Seq<char>, album: Seq<char>) -> Seq<char> {
    "artist:\""@ + artist + "\" AND release:\""@ + album + "\""@
}

pub fn musicbrainz_query(artist: &str, album: &str) -> (r: String)
    ensures
        r@ == release_query(artist@, album@),
{
    let mut q = String::from_str("artist:\"");
    q.append(artist);
    q.append("\" AND release:\"");
    q.append(album);
    q.append("\"");
    q
}

/// The characters that percent-encoding leaves as they are: ASCII letters
/// and digits, `-`, `.`, `_` and `~`.
pub open spec fn is_unreserved(b: u8) -> bool {
    (48 <= b <= 57) || (65 <= b <= 90) || (97 <= b <= 122) || b == 45 || b == 46 || b == 95 || b
        == 126
}

pub open spec fn upper_hex_digit(d: u8) -> char {
    if d < 10 {
        ((48 + d) as u8) as char
    } else {
        ((55 + d) as u8) as char
    }
}

/// Percent-encoding of bytes: unreserved bytes stand for themselves, every
/// other byte becomes `%` and two upper-case hexadecimal digits.
pub open spec fn percent_encode(bytes: Seq<u8>) -> Seq<char>
    decreases bytes.len(),
{
    if bytes.len() == 0 {
        Seq::empty()
    } else {
        let b = bytes.last();
        percent_encode(bytes.drop_last()) + if is_unreserved(b) {
            seq![b as char]
        } else {
            seq!['%', upper_hex_digit(b / 16), upper_hex_digit(b % 16)]
        }
    }
}

/// `urlencoding::encode`: percent-encodes every byte of the UTF-8 form of
/// `s` except ASCII letters and digits and `-`, `_`, `.`, `~`, with
/// upper-case hexadecimal digits.
#[verifier::external_body]
fn url_encode(s: &str) -> (r: String)
    ensures
        r@ == percent_encode(vstd::utf8::encode_utf8(s@)),
{
    urlencoding::encode(s).into_owned()
}

/// The MusicBrainz search URL for an album's releases.
pub open spec fn release_search_url(artist: Seq<char>, album: Seq<char>) -> Seq<char> {
    "https://musicbrainz.org/ws/2/release?query="@ + percent_encode(
        vstd::utf8::encode_utf8(release_query(artist, album)),
    ) + "&fmt=json"@
}

/// The URL that searches MusicBrainz for the releases of `album` by
/// `artist`, as JSON.
pub fn musicbrainz_search_url(artist: &str, album: &str) -> (r: String)
    ensures
        r@ == release_search_url(artist@, album@),
{
    let query = musicbrainz_query(artist, album);
    let encoded = url_encode(query.as_str());
    let mut url = String::from_str("https://musicbrainz.org/ws/2/release?query=");
    url.append(encoded.as_str());
    url.append("&fmt=json");
    url
}

/// The front cover of a release on the Cover Art Archive.
pub fn cover_art_url(mbid: &str) -> (r: String)
    ensures
        r@ == cover_art_spec(mbid@),
{
    let mut url = String::from_str("https://coverartarchive.org/release/");
    url.append(mbid);
    url.append("/front");
    url
}

/// The front cover of a release on the Cover Art Archive, as text.
pub open spec fn cover_art_spec(mbid: Seq<char>) -> Seq<char> {
    "https://coverartarchive.org/release/"@ + mbid + "/front"@
}

/// The release ids of a search response: for each element of its
/// `releases` array, the element's `id` when that is a string.
pub open spec fn release_ids_view(
    r: Option<Option<Vec<Option<String>>>>,
) -> Option<Option<Seq<Option<Seq<char>>>>> {
    match r {
        None => None,
        Some(None) => Some(None),
        Some(Some(v)) => Some(Some(v@.map_values(|o: Option<String>| opt_view(o)))),
    }
}

/// What `serde_json` parses from a MusicBrainz search response: `None`
/// when the body is not JSON; otherwise `None` inside when the value has
/// no `releases` array, and else, for each element of that array, its
/// `id` when that is a string.
pub uninterp spec fn release_ids_of(body: Seq<u8>) -> Option<Option<Seq<Option<Seq<char>>>>>;

/// `serde_json::from_slice::<serde_json::Value>` on a response body, then
/// `get("releases")`, `as_array`, and for each element `get("id")` and
/// `as_str` (what indexing the value as `["releases"][i]["id"]` gives).
/// Its result is named by `release_ids_of`; nothing more is stated of it.
#[verifier::external_body]
fn release_ids(body: &[u8]) -> (r: Option<Option<Vec<Option<String>>>>)
    ensures
        release_ids_view(r) == release_ids_of(body@),
{
    let v: serde_json::Value = serde_json::from_slice(body).ok()?;
    Some(v.get("releases").and_then(|r| r.as_array()).map(|a| {
        a.iter().map(|e| e.get("id").and_then(|i| i.as_str()).map(String::from)).collect()
    }))
}

/// The cover URL that a search response leads to: that of the first
/// release, when the response parsed, has a `releases` array, and the
/// first element of it has a string `id`; otherwise none.
pub open spec fn cover_url_of(ids: Option<Option<Seq<Option<Seq<char>>>>>) -> Option<Seq<char>> {
    match ids {
        Some(Some(v)) => if v.len() > 0 {
            match v[0] {
                Some(id) => Some(cover_art_spec(id)),
                None => None,
            }
        } else {
            None
        },
        _ => None,
    }
}

/// The cover URL of the first release among the parsed release ids (see
/// `cover_url_of`).
pub fn cover_url_from_ids(ids: &Option<Option<Vec<Option<String>>>>) -> (r: Option<String>)
    ensures
        opt_view(r) == cover_url_of(release_ids_view(*ids)),
{
    match ids {
        Some(Some(v)) => {
            if v.len() > 0 {
                match &v[0] {
                    Some(id) => Some(cover_art_url(id.as_str())),
                    None => None,
                }
            } else {
                None
            }
        },
        _ => None,
    }
}

/// The cover URL that a MusicBrainz search response body leads to: the
/// Cover Art Archive front cover of its first release (see
/// `cover_url_of`).
pub fn cover_url_from_response(body: &[u8]) -> (r: Option<String>)
    ensures
        opt_view(r) == cover_url_of(release_ids_of(body@)),
{
    let ids = release_ids(body);
    cover_url_from_ids(&ids)
}

} // verus!
