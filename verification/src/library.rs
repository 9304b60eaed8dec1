//! The library: which files a scan keeps, which tracks it drops or
//! re-reads, and how cover art and lyrics files are named.

use vstd::prelude::*;

use crate::metadata::{metadata_of, tags_of};
use crate::schema::Track;
use crate::text::{
    ascii_lowercase, chars_of, contains_chars, contains_seq, extend_chars, is_ascii_text,
    lemma_take_full, lowercase, starts_with_chars, starts_with_seq, string_of, to_lowercase,
};

verus! {

/// The greeting of the sample command.
pub open spec fn greeting(name: Seq<char>) -> Seq<char> {
    "Hello, "@ + name + "! You've been greeted from Rust!"@
}

/// Greets `name`.
pub fn greet(name: &str) -> (r: String)
    ensures
        r@ == greeting(name@),
{
    let mut s = String::from_str("Hello, ");
    s.append(name);
    s.append("! You've been greeted from Rust!");
    s
}

// ---------------------------------------------------------------------------
// Audio files
// ---------------------------------------------------------------------------

/// The formats that a scan or an import takes in.
pub open spec fn audio_exts() -> Seq<Seq<char>> {
    seq!["mp3"@, "flac"@, "ogg"@, "wav"@, "aac"@, "m4a"@]
}

/// The formats a scan or an import takes in are exactly MP3, FLAC, Ogg,
/// WAV, AAC and M4A, by their lower-case extension.
pub proof fn law_audio_formats(e: Seq<char>)
    ensures
        audio_exts().contains(e) <==> (e == "mp3"@ || e == "flac"@ || e == "ogg"@ || e
            == "wav"@ || e == "aac"@ || e == "m4a"@),
{
    let s = audio_exts();
    if e == "mp3"@ { assert(s[0] == e); }
    if e == "flac"@ { assert(s[1] == e); }
    if e == "ogg"@ { assert(s[2] == e); }
    if e == "wav"@ { assert(s[3] == e); }
    if e == "aac"@ { assert(s[4] == e); }
    if e == "m4a"@ { assert(s[5] == e); }
}

/// Whether an already lower-cased extension is one that a scan takes in.
pub fn is_audio_lowercase_ext(ext: &str) -> (r: bool)
    ensures
        r == audio_exts().contains(ext@),
{
    let e = chars_of(ext);
    let names: [&str; 6] = ["mp3", "flac", "ogg", "wav", "aac", "m4a"];
    let mut i: usize = 0;
    while i < 6
        invariant
            i <= 6,
            e@ == ext@,
            forall|k: int| 0 <= k < 6 ==> #[trigger] names@[k]@ == audio_exts()[k],
            forall|k: int| 0 <= k < i ==> audio_exts()[k] != e@,
        decreases 6 - i,
    {
        let name = chars_of(names[i]);
        if crate::text::chars_eq(&e, &name) {
            assert(audio_exts().contains(e@));
            return true;
        }
        i += 1;
    }
    false
}

/// Whether a file with this extension (`None` when the file name has none,
/// or it is not valid UTF-8) is an audio file that a scan or an import
/// takes in, whatever its case.
pub fn is_audio_ext(ext: Option<&str>) -> (r: bool)
    ensures
        r == match ext {
            Some(e) => audio_exts().contains(lowercase(e@)),
            None => false,
        },
        match ext {
            Some(e) => is_ascii_text(e@) ==> r == audio_exts().contains(ascii_lowercase(e@)),
            None => true,
        },
{
    match ext {
        Some(e) => {
            let lower = to_lowercase(e);
            is_audio_lowercase_ext(lower.as_str())
        },
        None => false,
    }
}

/// Whether an import takes in a file with this extension. A file name
/// with no extension counts as one with an empty extension.
pub fn is_importable(ext: Option<&str>) -> (r: bool)
    ensures
        r == audio_exts().contains(
            lowercase(
                match ext {
                    Some(e) => e@,
                    None => ""@,
                },
            ),
        ),
        match ext {
            Some(e) => is_ascii_text(e@) ==> r == audio_exts().contains(ascii_lowercase(e@)),
            None => true,
        },
{
    let e = match ext {
        Some(e) => e,
        None => "",
    };
    let lower = to_lowercase(e);
    is_audio_lowercase_ext(lower.as_str())
}

// ---------------------------------------------------------------------------
// Incremental scans
// ---------------------------------------------------------------------------

/// The modification time recorded for `path`: `None` when no track has
/// that path; the last such track's otherwise.
pub open spec fn saved_mtime(ts: Seq<Track>, path: Seq<char>) -> Option<Option<i64>>
    decreases ts.len(),
{
    if ts.len() == 0 {
        None
    } else if ts.last().path@ == path {
        Some(ts.last().last_modified)
    } else {
        saved_mtime(ts.drop_last(), path)
    }
}

/// A file needs reading when no track has its path, when its modification
/// time cannot be read, or when it differs from the recorded one (a track
/// recorded with none counts as recorded at 0).
pub open spec fn needs_update_spec(saved: Option<Option<i64>>, mtime: Option<i64>) -> bool {
    match saved {
        Some(saved_mtime) => match mtime {
            Some(curr) => curr != match saved_mtime {
                Some(s) => s,
                None => 0,
            },
            None => true,
        },
        None => true,
    }
}

/// Whether a file must be read again, given what is recorded for its path
/// and its modification time now.
pub fn needs_update(saved: Option<Option<i64>>, mtime: Option<i64>) -> (r: bool)
    ensures
        r == needs_update_spec(saved, mtime),
{
    match saved {
        Some(saved_mtime) => match mtime {
            Some(curr) => curr != saved_mtime.unwrap_or(0),
            None => true,
        },
        None => true,
    }
}

/// Whether `path` is among the files found.
pub open spec fn is_listed(files: Seq<String>, path: Seq<char>) -> bool {
    exists|i: int| 0 <= i < files.len() && files[i]@ == path
}

/// The paths of the tracks whose files were not found, in library order.
pub open spec fn stale_paths(ts: Seq<Track>, files: Seq<String>) -> Seq<Seq<char>>
    decreases ts.len(),
{
    if ts.len() == 0 {
        Seq::empty()
    } else {
        let prev = stale_paths(ts.drop_last(), files);
        if is_listed(files, ts.last().path@) {
            prev
        } else {
            prev.push(ts.last().path@)
        }
    }
}

/// The indices of the files that need reading, in order.
pub open spec fn update_indices(ts: Seq<Track>, files: Seq<String>, mtimes: Seq<Option<i64>>) -> Seq<
    usize,
>
    decreases files.len(),
{
    if files.len() == 0 {
        Seq::empty()
    } else {
        let prev = update_indices(ts, files.drop_last(), mtimes.drop_last());
        if needs_update_spec(saved_mtime(ts, files.last()@), mtimes.last()) {
            prev.push((files.len() - 1) as usize)
        } else {
            prev
        }
    }
}

/// What a scan does to the library: the tracks to drop, by path, and the
/// files to read (again), by index into the files found.
pub struct ScanPlan {
    pub remove: Vec<String>,
    pub update: Vec<usize>,
}

pub open spec fn strings_view(v: Seq<String>) -> Seq<Seq<char>> {
    v.map_values(|s: String| s@)
}

/// Whether a path is among the files found.
fn listed(files: &Vec<String>, path: &String) -> (r: bool)
    ensures
        r == is_listed(files@, path@),
{
    let n = files.len();
    let mut i: usize = 0;
    while i < n
        invariant
            i <= n == files@.len(),
            forall|k: int| 0 <= k < i ==> files@[k]@ != path@,
        decreases n - i,
    {
        if files[i] == *path {
            return true;
        }
        i += 1;
    }
    false
}

/// What is recorded for `path` among `existing`.
pub fn saved_mtime_of(existing: &Vec<Track>, path: &String) -> (r: Option<Option<i64>>)
    ensures
        r == saved_mtime(existing@, path@),
{
    let mut j: usize = existing.len();
    assert(existing@.take(j as int) =~= existing@);
    while j > 0
        invariant
            j <= existing@.len(),
            saved_mtime(existing@, path@) == saved_mtime(existing@.take(j as int), path@),
        decreases j,
    {
        assert(existing@.take(j as int).drop_last() =~= existing@.take(j - 1));
        if existing[j - 1].path == *path {
            return Some(existing[j - 1].last_modified);
        }
        j -= 1;
    }
    None
}

/// Decides what a scan does, given the tracks in the library, the audio
/// files found under the library's folders, and the modification time of
/// each of those files (`mtimes[i]` for `files[i]`, `None` when it could
/// not be read): the tracks whose files are gone are dropped, and the files
/// that are new or changed since they were recorded are read.
pub fn scan_plan(existing: &Vec<Track>, files: &Vec<String>, mtimes: &Vec<Option<i64>>) -> (r:
    ScanPlan)
    requires
        mtimes.len() == files.len(),
    ensures
        strings_view(r.remove@) == stale_paths(existing@, files@),
        r.update@ == update_indices(existing@, files@, mtimes@),
{
    let mut remove: Vec<String> = Vec::new();
    let n = existing.len();
    let mut i: usize = 0;
    while i < n
        invariant
            i <= n == existing@.len(),
            strings_view(remove@) == stale_paths(existing@.take(i as int), files@),
        decreases n - i,
    {
        assert(existing@.take(i + 1).drop_last() =~= existing@.take(i as int));
        if !listed(files, &existing[i].path) {
            let ghost prev = remove@;
            remove.push(existing[i].path.clone());
            assert(strings_view(remove@) =~= strings_view(prev).push(existing@[i as int].path@));
        }
        i += 1;
    }
    proof {
        lemma_take_full(existing@);
    }
    let mut update: Vec<usize> = Vec::new();
    let m = files.len();
    let mut j: usize = 0;
    while j < m
        invariant
            j <= m == files@.len() == mtimes@.len(),
            update@ == update_indices(existing@, files@.take(j as int), mtimes@.take(j as int)),
        decreases m - j,
    {
        assert(files@.take(j + 1).drop_last() =~= files@.take(j as int));
        assert(mtimes@.take(j + 1).drop_last() =~= mtimes@.take(j as int));
        let saved = saved_mtime_of(existing, &files[j]);
        if needs_update(saved, mtimes[j]) {
            update.push(j);
        }
        j += 1;
    }
    proof {
        lemma_take_full(files@);
        lemma_take_full(mtimes@);
    }
    ScanPlan { remove, update }
}

// ---------------------------------------------------------------------------
// Laws of a scan
// ---------------------------------------------------------------------------

/// A scan drops exactly the tracks whose files were not found again.
pub proof fn law_scan_drops_missing(ts: Seq<Track>, files: Seq<String>, path: Seq<char>)
    ensures
        stale_paths(ts, files).contains(path) <==> (!is_listed(files, path) && exists|i: int|
            0 <= i < ts.len() && ts[i].path@ == path),
    decreases ts.len(),
{
    if ts.len() > 0 {
        let prev = ts.drop_last();
        law_scan_drops_missing(prev, files, path);
        let sp = stale_paths(prev, files);
        let s = stale_paths(ts, files);
        if s.contains(path) {
            if !sp.contains(path) {
                assert(!is_listed(files, ts.last().path@) && s == sp.push(ts.last().path@));
                let j = choose|j: int| 0 <= j < s.len() && s[j] == path;
                assert(j == sp.len());
                assert(ts[ts.len() - 1].path@ == path);
            } else {
                let i = choose|i: int| 0 <= i < prev.len() && prev[i].path@ == path;
                assert(ts[i] == prev[i]);
            }
        }
        if !is_listed(files, path) && exists|i: int| 0 <= i < ts.len() && ts[i].path@ == path {
            let i = choose|i: int| 0 <= i < ts.len() && ts[i].path@ == path;
            if i < ts.len() - 1 {
                assert(prev[i] == ts[i]);
                assert(sp.contains(path));
                let j = choose|j: int| 0 <= j < sp.len() && sp[j] == path;
                if is_listed(files, ts.last().path@) {
                    assert(s == sp);
                } else {
                    assert(s[j] == sp[j]);
                }
            } else {
                assert(s == sp.push(path));
                assert(s[sp.len() as int] == path);
            }
        }
    }
}

/// A scan reads exactly the files that are new, or whose modification
/// time is unknown or differs from the recorded one: a file unchanged
/// since it was recorded is not read again.
pub proof fn law_scan_reads_changed(
    ts: Seq<Track>,
    files: Seq<String>,
    mtimes: Seq<Option<i64>>,
    j: usize,
)
    requires
        files.len() == mtimes.len(),
        files.len() <= usize::MAX,
    ensures
        update_indices(ts, files, mtimes).contains(j) <==> (j < files.len() && needs_update_spec(
            saved_mtime(ts, files[j as int]@),
            mtimes[j as int],
        )),
    decreases files.len(),
{
    if files.len() > 0 {
        let pf = files.drop_last();
        let pm = mtimes.drop_last();
        law_scan_reads_changed(ts, pf, pm, j);
        lemma_update_indices_bound(ts, pf, pm);
        let u = update_indices(ts, files, mtimes);
        let pu = update_indices(ts, pf, pm);
        let last = (files.len() - 1) as usize;
        let now = needs_update_spec(saved_mtime(ts, files.last()@), mtimes.last());
        if j < last {
            assert(pf[j as int] == files[j as int]);
            assert(pm[j as int] == mtimes[j as int]);
        }
        if now {
            assert(u == pu.push(last));
        } else {
            assert(u == pu);
        }
        if u.contains(j) {
            let x = choose|x: int| 0 <= x < u.len() && u[x] == j;
            if x < pu.len() {
                assert(u[x] == pu[x]);
                assert(pu.contains(j));
            } else {
                assert(j == last);
            }
        }
        if j < files.len() && needs_update_spec(saved_mtime(ts, files[j as int]@), mtimes[j as int]) {
            if j < last {
                let x = choose|x: int| 0 <= x < pu.len() && pu[x] == j;
                assert(u[x] == pu[x]);
            } else {
                assert(u[pu.len() as int] == j);
            }
        }
    } else {
        assert(update_indices(ts, files, mtimes) =~= Seq::<usize>::empty());
    }
}

/// A scan of an unchanged library changes nothing: when every track's
/// file is found again and every file found is recorded with the
/// modification time it has now, nothing is dropped and nothing is read.
pub proof fn law_scan_of_unchanged_library(ts: Seq<Track>, files: Seq<String>, mtimes: Seq<Option<i64>>)
    requires
        files.len() == mtimes.len(),
        forall|i: int| 0 <= i < ts.len() ==> is_listed(files, #[trigger] ts[i].path@),
        forall|j: int|
            0 <= j < files.len() ==> (#[trigger] mtimes[j]) is Some && saved_mtime(ts, files[j]@)
                == Some(mtimes[j]),
    ensures
        stale_paths(ts, files) == Seq::<Seq<char>>::empty(),
        update_indices(ts, files, mtimes) == Seq::<usize>::empty(),
{
    lemma_no_stale(ts, files);
    lemma_no_updates(ts, files, mtimes);
}

/// A second scan adds nothing: when every track's file is found again and
/// every file found has a readable modification time and is either
/// recorded with that time or not recorded because its contents do not
/// parse (`datas[j]` and `exts[j]` are the bytes and the extension of
/// `files[j]`), nothing is dropped, and the only files read again are the
/// unrecorded ones, none of which gives metadata to record.
pub proof fn law_rescan_adds_nothing(
    ts: Seq<Track>,
    files: Seq<String>,
    mtimes: Seq<Option<i64>>,
    datas: Seq<Seq<u8>>,
    exts: Seq<Seq<char>>,
)
    requires
        files.len() == mtimes.len(),
        files.len() == datas.len(),
        files.len() == exts.len(),
        files.len() <= usize::MAX,
        forall|i: int| 0 <= i < ts.len() ==> is_listed(files, #[trigger] ts[i].path@),
        forall|j: int|
            0 <= j < files.len() ==> (#[trigger] mtimes[j]) is Some && (saved_mtime(ts, files[j]@)
                == Some(mtimes[j]) || (saved_mtime(ts, files[j]@) is None && tags_of(
                datas[j],
                exts[j],
            ) is None)),
    ensures
        stale_paths(ts, files) == Seq::<Seq<char>>::empty(),
        forall|x: int|
            0 <= x < update_indices(ts, files, mtimes).len() ==> {
                let j = #[trigger] update_indices(ts, files, mtimes)[x] as int;
                &&& j < files.len()
                &&& saved_mtime(ts, files[j]@) is None
                &&& metadata_of(tags_of(datas[j], exts[j])) is None
            },
{
    lemma_no_stale(ts, files);
    lemma_update_indices_bound(ts, files, mtimes);
    let u = update_indices(ts, files, mtimes);
    assert forall|x: int| 0 <= x < u.len() implies {
        let j = #[trigger] u[x] as int;
        &&& j < files.len()
        &&& saved_mtime(ts, files[j]@) is None
        &&& metadata_of(tags_of(datas[j], exts[j])) is None
    } by {
        let j = u[x];
        assert(u.contains(j));
        law_scan_reads_changed(ts, files, mtimes, j);
        assert(mtimes[j as int] is Some);
    }
}

proof fn lemma_no_stale(ts: Seq<Track>, files: Seq<String>)
    requires
        forall|i: int| 0 <= i < ts.len() ==> is_listed(files, #[trigger] ts[i].path@),
    ensures
        stale_paths(ts, files) == Seq::<Seq<char>>::empty(),
    decreases ts.len(),
{
    if ts.len() > 0 {
        let prev = ts.drop_last();
        assert forall|i: int| 0 <= i < prev.len() implies is_listed(files, #[trigger] prev[i].path@) by {
            assert(prev[i] == ts[i]);
        }
        lemma_no_stale(prev, files);
        assert(is_listed(files, ts[ts.len() - 1].path@));
    }
}

proof fn lemma_no_updates(ts: Seq<Track>, files: Seq<String>, mtimes: Seq<Option<i64>>)
    requires
        files.len() == mtimes.len(),
        forall|j: int|
            0 <= j < files.len() ==> (#[trigger] mtimes[j]) is Some && saved_mtime(ts, files[j]@)
                == Some(mtimes[j]),
    ensures
        update_indices(ts, files, mtimes) == Seq::<usize>::empty(),
    decreases files.len(),
{
    if files.len() > 0 {
        let pf = files.drop_last();
        let pm = mtimes.drop_last();
        assert forall|j: int| 0 <= j < pf.len() implies (#[trigger] pm[j]) is Some && saved_mtime(ts, pf[j]@)
            == Some(pm[j]) by {
            assert(pf[j] == files[j]);
            assert(pm[j] == mtimes[j]);
        }
        lemma_no_updates(ts, pf, pm);
        let last = files.len() - 1;
        assert(mtimes[last] is Some && saved_mtime(ts, files[last]@) == Some(mtimes[last]));
    }
}

proof fn lemma_update_indices_bound(ts: Seq<Track>, files: Seq<String>, mtimes: Seq<Option<i64>>)
    requires
        files.len() <= usize::MAX,
    ensures
        forall|x: int|
            0 <= x < update_indices(ts, files, mtimes).len() ==> (#[trigger] update_indices(
                ts,
                files,
                mtimes,
            )[x]) < files.len(),
    decreases files.len(),
{
    if files.len() > 0 {
        lemma_update_indices_bound(ts, files.drop_last(), mtimes.drop_last());
        let pu = update_indices(ts, files.drop_last(), mtimes.drop_last());
        let u = update_indices(ts, files, mtimes);
        assert forall|x: int| 0 <= x < u.len() implies (#[trigger] u[x]) < files.len() by {
            if x < pu.len() {
                assert(u[x] == pu[x]);
            }
        }
    }
}

// ---------------------------------------------------------------------------
// Cover art
// ---------------------------------------------------------------------------

/// What `blake3::hash` gives, as its 32 bytes.
pub uninterp spec fn blake3_of(data: Seq<u8>) -> Seq<u8>;

/// `blake3::hash`, as the bytes of the hash (`Hash::as_bytes`). Its result
/// is named by `blake3_of`; that it has 32 bytes comes from its type.
#[verifier::external_body]
fn blake3_digest(data: &[u8]) -> (r: [u8; 32])
    ensures
        r@ == blake3_of(data@),
{
    *blake3::hash(data).as_bytes()
}

pub open spec fn hex_digit(d: u8) -> char {
    if d < 10 {
        ((48 + d) as u8) as char
    } else {
        ((87 + d) as u8) as char
    }
}

/// Lower-case hexadecimal of `bytes`, two digits a byte, high digit first
/// (what `blake3::Hash::to_hex` writes).
pub open spec fn lower_hex(bytes: Seq<u8>) -> Seq<char>
    decreases bytes.len(),
{
    if bytes.len() == 0 {
        Seq::empty()
    } else {
        lower_hex(bytes.drop_last()) + seq![
            hex_digit(bytes.last() / 16),
            hex_digit(bytes.last() % 16),
        ]
    }
}

fn hex_char(d: u8) -> (c: char)
    requires
        d < 16,
    ensures
        c == hex_digit(d),
{
    if d < 10 {
        (48 + d) as char
    } else {
        (87 + d) as char
    }
}

pub fn lower_hex_of(bytes: &[u8]) -> (r: Vec<char>)
    ensures
        r@ == lower_hex(bytes@),
{
    let mut r: Vec<char> = Vec::new();
    let n = bytes.len();
    let mut i: usize = 0;
    assert(bytes@.take(0) =~= Seq::<u8>::empty());
    while i < n
        invariant
            i <= n == bytes@.len(),
            r@ == lower_hex(bytes@.take(i as int)),
        decreases n - i,
    {
        let b = bytes[i];
        assert(bytes@.take(i + 1).drop_last() =~= bytes@.take(i as int));
        let ghost prev = r@;
        r.push(hex_char(b / 16));
        r.push(hex_char(b % 16));
        assert(r@ =~= prev + seq![hex_digit(b / 16), hex_digit(b % 16)]);
        i += 1;
    }
    proof {
        lemma_take_full(bytes@);
    }
    r
}

/// The extension under which a cover of this MIME type is saved.
pub open spec fn cover_ext(mime: Seq<char>) -> Seq<char> {
    if contains_seq(mime, "png"@) {
        "png"@
    } else {
        "jpg"@
    }
}

/// The file name under which cover art is saved in the covers folder: the
/// hash of its bytes in hexadecimal, then `.png` for a PNG type and `.jpg`
/// otherwise. Equal images share one file.
pub fn cover_file_name(data: &[u8], mime: &str) -> (r: String)
    ensures
        r@ == lower_hex(blake3_of(data@)) + "."@ + cover_ext(mime@),
{
    let digest = blake3_digest(data);
    let mut name = lower_hex_of(&digest);
    let dot = chars_of(".");
    extend_chars(&mut name, &dot);
    let m = chars_of(mime);
    let png = chars_of("png");
    let ext = if contains_chars(&m, &png) {
        png
    } else {
        chars_of("jpg")
    };
    extend_chars(&mut name, &ext);
    string_of(&name)
}

/// The file name of cover art saved under a 64-bit hash of its bytes:
/// the hash in lower-case hexadecimal without leading zeros, then the
/// extension for its MIME type.
pub fn cover_file_name_from_hash(hash: u64, mime: &str) -> (r: String)
    ensures
        r@ == hex_u64(hash as nat) + "."@ + cover_ext(mime@),
{
    let mut name = hex_u64_chars(hash);
    let dot = chars_of(".");
    extend_chars(&mut name, &dot);
    let m = chars_of(mime);
    let png = chars_of("png");
    let ext = if contains_chars(&m, &png) {
        png
    } else {
        chars_of("jpg")
    };
    extend_chars(&mut name, &ext);
    string_of(&name)
}

/// `{:x}` of a number: lower-case hexadecimal without leading zeros.
pub open spec fn hex_u64(n: nat) -> Seq<char>
    decreases n,
{
    if n < 16 {
        seq![hex_digit(n as u8)]
    } else {
        hex_u64(n / 16).push(hex_digit((n % 16) as u8))
    }
}

fn hex_u64_chars(n: u64) -> (r: Vec<char>)
    ensures
        r@ == hex_u64(n as nat),
    decreases n,
{
    if n < 16 {
        let mut v: Vec<char> = Vec::new();
        v.push(hex_char(n as u8));
        v
    } else {
        let mut v = hex_u64_chars(n / 16);
        v.push(hex_char((n % 16) as u8));
        v
    }
}

/// A stored cover name that is a bare file name in the covers folder (not
/// a data URL, a URL, or an absolute path).
pub open spec fn is_bare_cover_name(name: Seq<char>) -> bool {
    &&& !starts_with_seq(name, "data:"@)
    &&& !contains_seq(name, "://"@)
    &&& !contains_seq(name, ":\\"@)
    &&& !starts_with_seq(name, "/"@)
}

/// Whether a stored cover name is to be looked up in the covers folder.
pub fn needs_cover_dir(name: &str) -> (r: bool)
    ensures
        r == is_bare_cover_name(name@),
{
    let n = chars_of(name);
    let data = chars_of("data:");
    let url = chars_of("://");
    let drive = chars_of(":\\");
    let root = chars_of("/");
    !starts_with_chars(&n, &data) && !contains_chars(&n, &url) && !contains_chars(&n, &drive)
        && !starts_with_chars(&n, &root)
}

// ---------------------------------------------------------------------------
// Lyrics
// ---------------------------------------------------------------------------

/// The lyrics files looked for beside a track, in order of preference:
/// `{stem}.lrc`, then `{stem}.txt`.
pub fn lyrics_file_names(stem: &str) -> (r: (String, String))
    ensures
        r.0@ == stem@ + ".lrc"@,
        r.1@ == stem@ + ".txt"@,
{
    let mut lrc = String::from_str(stem);
    lrc.append(".lrc");
    let mut txt = String::from_str(stem);
    txt.append(".txt");
    (lrc, txt)
}

} // verus!
