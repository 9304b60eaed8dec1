//! Audio downloads from YouTube through an installed `yt-dlp`: which
//! programs are tried, with which arguments, and what the user is told.

use vstd::prelude::*;

use crate::text::{chars_of, string_of, trim, trim_ws};

verus! {

/// A way to run the downloader: a program and the arguments that come
/// before the downloader's own.
pub struct Downloader {
    pub program: String,
    pub args: Vec<String>,
}

pub open spec fn strings_view(v: Seq<String>) -> Seq<Seq<char>> {
    v.map_values(|s: String| s@)
}

/// The message given for an empty URL.
pub open spec fn url_required_message() -> Seq<char> {
    "YouTube URL is required."@
}

/// The URL with surrounding white space removed, or the message that one
/// is required when nothing is left.
pub fn check_url(url: &str) -> (r: Result<String, String>)
    ensures
        trim_ws(url@).len() == 0 ==> (r matches Err(e) && e@ == url_required_message()),
        trim_ws(url@).len() > 0 ==> (r matches Ok(u) && u@ == trim_ws(url@)),
{
    let chars = chars_of(url);
    let t = trim(&chars);
    if t.len() == 0 {
        Err(String::from_str("YouTube URL is required."))
    } else {
        Ok(string_of(&t))
    }
}

fn strings(items: &[&str]) -> (r: Vec<String>)
    ensures
        r.len() == items.len(),
        forall|i: int| 0 <= i < items.len() ==> #[trigger] r[i]@ == items[i]@,
{
    let mut r: Vec<String> = Vec::new();
    let n = items.len();
    let mut i: usize = 0;
    while i < n
        invariant
            i <= n == items@.len(),
            r.len() == i,
            forall|k: int| 0 <= k < i ==> #[trigger] r[k]@ == items[k]@,
        decreases n - i,
    {
        r.push(String::from_str(items[i]));
        i += 1;
    }
    r
}

/// The programs tried, in order: `yt-dlp`, `youtube-dl`, then the
/// `yt_dlp` module under `python`, `python3` and the `py -3` launcher.
pub open spec fn candidate_list() -> Seq<(Seq<char>, Seq<Seq<char>>)> {
    seq![
        ("yt-dlp"@, Seq::empty()),
        ("youtube-dl"@, Seq::empty()),
        ("python"@, seq!["-m"@, "yt_dlp"@]),
        ("python3"@, seq!["-m"@, "yt_dlp"@]),
        ("py"@, seq!["-3"@, "-m"@, "yt_dlp"@]),
    ]
}

/// The ways to run the downloader, in the order in which they are tried.
pub fn downloader_candidates() -> (r: Vec<Downloader>)
    ensures
        r.len() == candidate_list().len(),
        forall|i: int|
            0 <= i < r.len() ==> (#[trigger] r[i].program@, strings_view(r[i].args@))
                == candidate_list()[i],
{
    let mut r: Vec<Downloader> = Vec::new();
    r.push(Downloader { program: String::from_str("yt-dlp"), args: Vec::new() });
    r.push(Downloader { program: String::from_str("youtube-dl"), args: Vec::new() });
    r.push(Downloader { program: String::from_str("python"), args: strings(&["-m", "yt_dlp"]) });
    r.push(Downloader { program: String::from_str("python3"), args: strings(&["-m", "yt_dlp"]) });
    r.push(Downloader { program: String::from_str("py"), args: strings(&["-3", "-m", "yt_dlp"]) });
    proof {
        assert forall|i: int| 0 <= i < r.len() implies (#[trigger] r[i].program@, strings_view(
            r[i].args@,
        )) == candidate_list()[i] by {
            assert(strings_view(r[i].args@) =~= candidate_list()[i].1);
        }
    }
    r
}

/// The first downloader that ran, given whether each one tried so far ran,
/// in the order tried.
pub fn first_working(ok: &Vec<bool>) -> (r: Option<usize>)
    ensures
        match r {
            Some(i) => i < ok@.len() && ok@[i as int] && forall|j: int| 0 <= j < i ==> !ok@[j],
            None => forall|j: int| 0 <= j < ok@.len() ==> !ok@[j],
        },
{
    let mut i: usize = 0;
    while i < ok.len()
        invariant
            i <= ok@.len(),
            forall|j: int| 0 <= j < i ==> !ok@[j],
        decreases ok@.len() - i,
    {
        if ok[i] {
            return Some(i);
        }
        i += 1;
    }
    None
}

/// The arguments that ask a downloader for its version.
pub fn version_args(d: &Downloader) -> (r: Vec<String>)
    ensures
        strings_view(r@) == strings_view(d.args@) + seq!["--version"@],
{
    let mut r = copy_strings(&d.args);
    r.push(String::from_str("--version"));
    assert(strings_view(r@) =~= strings_view(d.args@) + seq!["--version"@]);
    r
}

fn copy_strings(v: &Vec<String>) -> (r: Vec<String>)
    ensures
        r.len() == v.len(),
        forall|k: int| 0 <= k < v.len() ==> #[trigger] r@[k]@ == v@[k]@,
{
    let mut r: Vec<String> = Vec::new();
    let n = v.len();
    let mut i: usize = 0;
    while i < n
        invariant
            i <= n == v@.len(),
            r.len() == i,
            forall|k: int| 0 <= k < i ==> #[trigger] r@[k]@ == v@[k]@,
        decreases n - i,
    {
        r.push(v[i].clone());
        i += 1;
    }
    r
}

/// The options of a download: best-quality MP3 audio, safe file names, no
/// playlist, thumbnail and tags embedded, saved under `pattern`.
pub open spec fn download_options(pattern: Seq<char>, url: Seq<char>) -> Seq<Seq<char>> {
    seq![
        "--extract-audio"@,
        "--audio-format"@,
        "mp3"@,
        "--audio-quality"@,
        "0"@,
        "--restrict-filenames"@,
        "--no-playlist"@,
        "--embed-thumbnail"@,
        "--add-metadata"@,
        "--output"@,
        pattern,
        url,
    ]
}

/// The arguments of a download of `url` with downloader `d`, the file
/// saved under the output pattern `pattern`.
pub fn download_args(d: &Downloader, pattern: &str, url: &str) -> (r: Vec<String>)
    ensures
        strings_view(r@) == strings_view(d.args@) + download_options(pattern@, url@),
{
    let mut r = copy_strings(&d.args);
    let opts = strings(
        &[
            "--extract-audio",
            "--audio-format",
            "mp3",
            "--audio-quality",
            "0",
            "--restrict-filenames",
            "--no-playlist",
            "--embed-thumbnail",
            "--add-metadata",
            "--output",
        ],
    );
    let n = d.args.len();
    let m = opts.len();
    let mut j: usize = 0;
    while j < m
        invariant
            j <= m == opts@.len() == 10,
            n == d.args@.len(),
            forall|k: int| 0 <= k < 10 ==> #[trigger] opts@[k]@ == download_options(pattern@, url@)[k],
            r.len() == n + j,
            forall|k: int| 0 <= k < n ==> #[trigger] r@[k]@ == d.args@[k]@,
            forall|k: int| 0 <= k < j ==> #[trigger] r@[n + k]@ == opts@[k]@,
        decreases m - j,
    {
        r.push(opts[j].clone());
        j += 1;
    }
    r.push(String::from_str(pattern));
    r.push(String::from_str(url));
    proof {
        let want = strings_view(d.args@) + download_options(pattern@, url@);
        assert forall|k: int| 0 <= k < r.len() implies #[trigger] strings_view(r@)[k] == want[k] by {
            if k < n {
            } else if k < n + 10 {
                assert(r@[n + (k - n)]@ == opts@[k - n]@);
            }
        }
        assert(strings_view(r@) =~= want);
    }
    r
}

/// What `String::from_utf8_lossy` gives for these bytes.
pub uninterp spec fn utf8_lossy(bytes: Seq<u8>) -> Seq<char>;

/// `String::from_utf8_lossy`: decodes UTF-8, with U+FFFD for each invalid
/// sequence. Its result is named by `utf8_lossy`; nothing more of the
/// decoding is claimed.
#[verifier::external_body]
fn from_utf8_lossy(bytes: &[u8]) -> (r: String)
    ensures
        r@ == utf8_lossy(bytes@),
{
    String::from_utf8_lossy(bytes).into_owned()
}

/// The message for a download that failed, with the downloader's error
/// output.
pub fn download_failed_message(stderr: &[u8]) -> (r: String)
    ensures
        r@ == "Download failed: "@ + trim_ws(utf8_lossy(stderr@)),
{
    let text = from_utf8_lossy(stderr);
    let chars = chars_of(text.as_str());
    let t = trim(&chars);
    let t = string_of(&t);
    let mut msg = String::from_str("Download failed: ");
    msg.append(t.as_str());
    msg
}

/// The message for a download that succeeded into `folder`.
pub fn downloaded_message(folder: &str) -> (r: String)
    ensures
        r@ == "Downloaded to "@ + folder@,
{
    let mut msg = String::from_str("Downloaded to ");
    msg.append(folder);
    msg
}

/// The message given when no downloader can be run.
pub fn downloader_missing_message() -> (r: String)
    ensures
        r@ == "yt-dlp not found. Install it: pip install yt-dlp, or download from https://github.com/yt-dlp/yt-dlp/releases"@,
{
    String::from_str(
        "yt-dlp not found. Install it: pip install yt-dlp, or download from https://github.com/yt-dlp/yt-dlp/releases",
    )
}

/// The name pattern of downloaded files, inside the destination folder.
pub fn output_pattern() -> (r: String)
    ensures
        r@ == "%(title)s.%(ext)s"@,
{
    String::from_str("%(title)s.%(ext)s")
}

} // verus!
