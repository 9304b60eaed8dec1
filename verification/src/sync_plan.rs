//! The sync plan: which tracks of the library go to the device, under
//! which names, and what a sync will copy.
//!
//! Tracks are grouped by (artist, album) in the order in which each group
//! first appears in the library, and numbered within their group by their
//! place in it. Only tracks of a supported format are planned. A track is
//! copied when the device has no file at its place or a file of another
//! size; nothing on the device is ever deleted.

use vstd::prelude::*;

use crate::schema::{string_or, text_or, Track};
use crate::sync::DriveInfo;
use crate::text::{
    after_last, after_last_char, ascii_lowercase, chars_eq, chars_of, is_ascii_text,
    lemma_take_full, lowercase, string_of, to_lowercase,
};

verus! {

/// The formats that the device plays.
pub open spec fn supported_exts() -> Seq<Seq<char>> {
    seq!["mp3"@, "flac"@, "ogg"@, "wav"@, "aac"@, "m4a"@, "ape"@]
}

/// Whether an already lower-cased extension is one of the supported
/// formats.
pub fn is_supported_lowercase_ext(ext: &str) -> (r: bool)
    ensures
        r == supported_exts().contains(ext@),
{
    let e = chars_of(ext);
    let names: [&str; 7] = ["mp3", "flac", "ogg", "wav", "aac", "m4a", "ape"];
    let mut i: usize = 0;
    while i < 7
        invariant
            i <= 7,
            e@ == ext@,
            forall|k: int| 0 <= k < 7 ==> #[trigger] names@[k]@ == supported_exts()[k],
            forall|k: int| 0 <= k < i ==> supported_exts()[k] != e@,
        decreases 7 - i,
    {
        let name = chars_of(names[i]);
        if chars_eq(&e, &name) {
            assert(supported_exts()[i as int] == e@);
            assert(supported_exts().contains(e@));
            return true;
        }
        i += 1;
    }
    false
}

/// Whether `ext` names a supported format, in any case.
pub fn is_supported_ext(ext: &str) -> (r: bool)
    ensures
        r == supported_exts().contains(lowercase(ext@)),
        is_ascii_text(ext@) ==> r == supported_exts().contains(ascii_lowercase(ext@)),
{
    let lower = to_lowercase(ext);
    is_supported_lowercase_ext(lower.as_str())
}

/// A track ready to be copied to the device.
pub struct SyncTrack {
    pub src_path: String,
    pub ext: String,
    pub artist: String,
    pub album: String,
    pub track_num: Option<i32>,
    pub title: String,
    pub size: u64,
}

pub struct SyncTrackView {
    pub src_path: Seq<char>,
    pub ext: Seq<char>,
    pub artist: Seq<char>,
    pub album: Seq<char>,
    pub track_num: Option<i32>,
    pub title: Seq<char>,
    pub size: u64,
}

impl View for SyncTrack {
    type V = SyncTrackView;

    open spec fn view(&self) -> SyncTrackView {
        SyncTrackView {
            src_path: self.src_path@,
            ext: self.ext@,
            artist: self.artist@,
            album: self.album@,
            track_num: self.track_num,
            title: self.title@,
            size: self.size,
        }
    }
}

pub open spec fn plan_view(plan: Seq<SyncTrack>) -> Seq<SyncTrackView> {
    plan.map_values(|t: SyncTrack| t@)
}

/// The (artist, album) group of a track.
pub open spec fn group_key(t: Track) -> (Seq<char>, Seq<char>) {
    (text_or(t.artist, "Unknown Artist"@), text_or(t.album, "Unknown Album"@))
}

/// The groups of `ts`, each once, in the order of their first track.
pub open spec fn group_order(ts: Seq<Track>) -> Seq<(Seq<char>, Seq<char>)>
    decreases ts.len(),
{
    if ts.len() == 0 {
        Seq::empty()
    } else {
        let prev = group_order(ts.drop_last());
        if prev.contains(group_key(ts.last())) {
            prev
        } else {
            prev.push(group_key(ts.last()))
        }
    }
}

/// The number of tracks of `ts` in group `k`.
pub open spec fn key_count(ts: Seq<Track>, k: (Seq<char>, Seq<char>)) -> nat
    decreases ts.len(),
{
    if ts.len() == 0 {
        0
    } else {
        key_count(ts.drop_last(), k) + if group_key(ts.last()) == k {
            1nat
        } else {
            0nat
        }
    }
}

/// The lower-cased text after the last dot of a track's path.
pub open spec fn track_ext(t: Track) -> Seq<char> {
    lowercase(after_last(t.path@, '.'))
}

/// Whether a track is of a format that the device plays.
pub open spec fn is_planned(t: Track) -> bool {
    supported_exts().contains(lowercase(track_ext(t)))
}

/// The plan entry of track `t`, of size `size`, the `n`th of its group.
pub open spec fn plan_entry(t: Track, size: u64, n: nat) -> SyncTrackView {
    SyncTrackView {
        src_path: t.path@,
        ext: track_ext(t),
        artist: group_key(t).0,
        album: group_key(t).1,
        track_num: Some(n as i32),
        title: text_or(t.title, "Untitled"@),
        size: size,
    }
}

/// The entries of group `k`, in library order.
pub open spec fn group_entries(ts: Seq<Track>, sizes: Seq<u64>, k: (Seq<char>, Seq<char>)) -> Seq<
    SyncTrackView,
>
    decreases ts.len(),
{
    if ts.len() == 0 {
        Seq::empty()
    } else {
        let prev = group_entries(ts.drop_last(), sizes.drop_last(), k);
        if group_key(ts.last()) == k && is_planned(ts.last()) {
            prev.push(plan_entry(ts.last(), sizes.last(), key_count(ts, k)))
        } else {
            prev
        }
    }
}

/// The entries of the groups `keys`, one group after the other.
pub open spec fn plan_groups(ts: Seq<Track>, sizes: Seq<u64>, keys: Seq<(Seq<char>, Seq<char>)>) -> Seq<
    SyncTrackView,
>
    decreases keys.len(),
{
    if keys.len() == 0 {
        Seq::empty()
    } else {
        plan_groups(ts, sizes, keys.drop_last()) + group_entries(ts, sizes, keys.last())
    }
}

/// The sync plan of library `ts`, whose files have the sizes `sizes`.
pub open spec fn sync_plan(ts: Seq<Track>, sizes: Seq<u64>) -> Seq<SyncTrackView> {
    plan_groups(ts, sizes, group_order(ts))
}

proof fn lemma_group_order_step(ts: Seq<Track>, i: int)
    requires
        0 <= i < ts.len(),
    ensures
        group_order(ts.take(i + 1)) == (if group_order(ts.take(i)).contains(group_key(ts[i])) {
            group_order(ts.take(i))
        } else {
            group_order(ts.take(i)).push(group_key(ts[i]))
        }),
{
    assert(ts.take(i + 1).drop_last() =~= ts.take(i));
}

proof fn lemma_group_step(ts: Seq<Track>, sizes: Seq<u64>, i: int, k: (Seq<char>, Seq<char>))
    requires
        0 <= i < ts.len(),
        ts.len() == sizes.len(),
    ensures
        key_count(ts.take(i + 1), k) == key_count(ts.take(i), k) + if group_key(ts[i]) == k {
            1nat
        } else {
            0nat
        },
        group_entries(ts.take(i + 1), sizes.take(i + 1), k) == (if group_key(ts[i]) == k
            && is_planned(ts[i]) {
            group_entries(ts.take(i), sizes.take(i), k).push(
                plan_entry(ts[i], sizes[i], key_count(ts.take(i + 1), k)),
            )
        } else {
            group_entries(ts.take(i), sizes.take(i), k)
        }),
{
    assert(ts.take(i + 1).drop_last() =~= ts.take(i));
    assert(sizes.take(i + 1).drop_last() =~= sizes.take(i));
}

proof fn lemma_key_count_bound(ts: Seq<Track>, k: (Seq<char>, Seq<char>))
    ensures
        key_count(ts, k) <= ts.len(),
    decreases ts.len(),
{
    if ts.len() > 0 {
        lemma_key_count_bound(ts.drop_last(), k);
    }
}

/// The lower-cased text after the last dot of `path`.
fn extension_of(path: &String) -> (r: String)
    ensures
        r@ == lowercase(after_last(path@, '.')),
{
    let p = chars_of(path.as_str());
    let e = after_last_char(&p, '.');
    let e = string_of(&e);
    to_lowercase(e.as_str())
}

/// Builds the list of tracks of the library to copy to the device, given
/// the size of each track's file (`sizes[i]` for `tracks[i]`). Tracks are
/// grouped by (artist, album), the groups in the order of their first
/// track; within a group tracks keep library order and are numbered from
/// 1 by their place in the group, so that file names stay stable. Tracks
/// of an unsupported format are left out but keep their number.
pub fn build_sync_plan(tracks: Vec<Track>, sizes: &Vec<u64>) -> (plan: Vec<SyncTrack>)
    requires
        sizes.len() == tracks.len(),
        tracks.len() < i32::MAX,
    ensures
        plan_view(plan@) == sync_plan(tracks@, sizes@),
{
    let n = tracks.len();
    let ghost ts = tracks@;
    // The group of each track, and the groups in order of appearance.
    let mut track_artist: Vec<String> = Vec::new();
    let mut track_album: Vec<String> = Vec::new();
    let mut group_artist: Vec<String> = Vec::new();
    let mut group_album: Vec<String> = Vec::new();
    let mut i: usize = 0;
    while i < n
        invariant
            i <= n == ts.len(),
            ts == tracks@,
            track_artist.len() == i,
            track_album.len() == i,
            forall|j: int| 0 <= j < i ==> (#[trigger] track_artist@[j]@, track_album@[j]@) == group_key(ts[j]),
            group_artist.len() == group_album.len() == group_order(ts.take(i as int)).len(),
            forall|g: int|
                0 <= g < group_artist.len() ==> (#[trigger] group_artist@[g]@, group_album@[g]@)
                    == group_order(ts.take(i as int))[g],
        decreases n - i,
    {
        let a = string_or(&tracks[i].artist, "Unknown Artist");
        let b = string_or(&tracks[i].album, "Unknown Album");
        let ghost order = group_order(ts.take(i as int));
        let ghost key = group_key(ts[i as int]);
        let m = group_artist.len();
        let mut g: usize = 0;
        let mut found = false;
        while g < m
            invariant_except_break
                !found,
                forall|h: int| 0 <= h < g ==> order[h] != key,
            invariant
                g <= m == group_artist.len() == group_album.len() == order.len(),
                forall|h: int| 0 <= h < group_artist.len() ==> (#[trigger] group_artist@[h]@, group_album@[h]@) == order[h],
                (a@, b@) == key,
            ensures
                found ==> g < m && order[g as int] == key,
                !found ==> forall|h: int| 0 <= h < m ==> order[h] != key,
            decreases m - g,
        {
            if group_artist[g] == a && group_album[g] == b {
                found = true;
                assert(order[g as int] == key);
                break;
            }
            g += 1;
        }
        proof {
            lemma_group_order_step(ts, i as int);
            if found {
                assert(order.contains(key));
            } else {
                assert(!order.contains(key));
            }
        }
        if !found {
            group_artist.push(a.clone());
            group_album.push(b.clone());
        }
        track_artist.push(a);
        track_album.push(b);
        i += 1;
    }
    proof {
        lemma_take_full(ts);
    }
    let ghost order = group_order(ts);
    let mut plan: Vec<SyncTrack> = Vec::new();
    let num_groups = group_artist.len();
    let mut g: usize = 0;
    while g < num_groups
        invariant
            g <= num_groups == group_artist.len() == group_album.len() == order.len(),
            n == ts.len() == sizes.len() < i32::MAX,
            ts == tracks@,
            order == group_order(ts),
            track_artist.len() == n,
            track_album.len() == n,
            forall|j: int| 0 <= j < n ==> (#[trigger] track_artist@[j]@, track_album@[j]@) == group_key(ts[j]),
            forall|h: int| 0 <= h < num_groups ==> (#[trigger] group_artist@[h]@, group_album@[h]@) == order[h],
            plan_view(plan@) == plan_groups(ts, sizes@, order.take(g as int)),
        decreases num_groups - g,
    {
        let ghost key = order[g as int];
        let ghost before = plan_view(plan@);
        assert(ts.take(0) =~= Seq::<Track>::empty());
        assert(sizes@.take(0) =~= Seq::<u64>::empty());
        assert(before + Seq::<SyncTrackView>::empty() =~= before);
        let mut count: usize = 0;
        let mut j: usize = 0;
        while j < n
            invariant
                j <= n == ts.len() == sizes.len() < i32::MAX,
                ts == tracks@,
                g < num_groups == group_artist.len() == group_album.len(),
                (group_artist@[g as int]@, group_album@[g as int]@) == key,
                track_artist.len() == n,
                track_album.len() == n,
                forall|m: int| 0 <= m < n ==> (#[trigger] track_artist@[m]@, track_album@[m]@) == group_key(ts[m]),
                count == key_count(ts.take(j as int), key),
                count <= j,
                plan_view(plan@) == before + group_entries(ts.take(j as int), sizes@.take(j as int), key),
            decreases n - j,
        {
            proof {
                lemma_group_step(ts, sizes@, j as int, key);
            }
            if track_artist[j] == group_artist[g] && track_album[j] == group_album[g] {
                count += 1;
                let ext = extension_of(&tracks[j].path);
                if is_supported_ext(ext.as_str()) {
                    let entry = SyncTrack {
                        src_path: tracks[j].path.clone(),
                        ext,
                        artist: group_artist[g].clone(),
                        album: group_album[g].clone(),
                        track_num: Some(count as i32),
                        title: string_or(&tracks[j].title, "Untitled"),
                        size: sizes[j],
                    };
                    let ghost e = entry@;
                    let ghost prev = plan@;
                    plan.push(entry);
                    proof {
                        assert(e == plan_entry(ts[j as int], sizes@[j as int], key_count(ts.take(j + 1), key)));
                        assert(plan_view(plan@) =~= plan_view(prev).push(e));
                    }
                }
            }
            j += 1;
        }
        proof {
            lemma_take_full(ts);
            lemma_take_full(sizes@);
            assert(order.take(g + 1).drop_last() =~= order.take(g as int));
        }
        g += 1;
    }
    proof {
        lemma_take_full(order);
    }
    plan
}


/// The total size of the files of a plan.
pub open spec fn plan_bytes(plan: Seq<SyncTrackView>) -> nat
    decreases plan.len(),
{
    if plan.len() == 0 {
        0
    } else {
        plan_bytes(plan.drop_last()) + plan.last().size as nat
    }
}

proof fn lemma_plan_bytes_step(plan: Seq<SyncTrack>, i: int)
    requires
        0 <= i < plan.len(),
    ensures
        plan_bytes(plan_view(plan.take(i + 1))) == plan_bytes(plan_view(plan.take(i))) + plan[i].size,
{
    assert(plan_view(plan.take(i + 1)).drop_last() =~= plan_view(plan.take(i)));
}

/// The free space that syncing the whole plan would need.
pub fn required_space(plan: &Vec<SyncTrack>) -> (r: u64)
    requires
        plan_bytes(plan_view(plan@)) <= u64::MAX,
    ensures
        r == plan_bytes(plan_view(plan@)),
{
    match total_size(plan) {
        Some(t) => t,
        None => {
            assert(false);
            0
        },
    }
}

/// The total size of the plan's files, or `None` when it does not fit in
/// a `u64`.
pub fn total_size(plan: &Vec<SyncTrack>) -> (r: Option<u64>)
    ensures
        match r {
            Some(t) => t == plan_bytes(plan_view(plan@)),
            None => plan_bytes(plan_view(plan@)) > u64::MAX,
        },
{
    let n = plan.len();
    let mut total: u64 = 0;
    let mut i: usize = 0;
    assert(plan_view(plan@.take(0)) =~= Seq::<SyncTrackView>::empty());
    while i < n
        invariant
            i <= n == plan@.len(),
            total == plan_bytes(plan_view(plan@.take(i as int))),
        decreases n - i,
    {
        proof {
            lemma_plan_bytes_step(plan@, i as int);
        }
        if plan[i].size > u64::MAX - total {
            proof {
                lemma_plan_bytes_prefix(plan@, i + 1);
            }
            return None;
        }
        total = total + plan[i].size;
        i += 1;
    }
    proof {
        lemma_take_full(plan@);
    }
    Some(total)
}

/// The bytes of a prefix of a plan are at most those of the whole plan.
proof fn lemma_plan_bytes_prefix(plan: Seq<SyncTrack>, k: int)
    requires
        0 <= k <= plan.len(),
    ensures
        plan_bytes(plan_view(plan.take(k))) <= plan_bytes(plan_view(plan)),
    decreases plan.len() - k,
{
    if k < plan.len() {
        lemma_plan_bytes_step(plan, k);
        lemma_plan_bytes_prefix(plan, k + 1);
    } else {
        lemma_take_full(plan);
    }
}

/// A track needs copying when the device has no file at its place, or a
/// file of another size (the size stands for the content: modification
/// times are not reliable on FAT32).
pub open spec fn needs_copy_spec(existing: Option<u64>, size: u64) -> bool {
    match existing {
        Some(len) => len != size,
        None => true,
    }
}

/// Whether a track of `size` bytes needs copying, given the size of the
/// file already at its place on the device, if any.
pub fn needs_copy(existing: Option<u64>, size: u64) -> (r: bool)
    ensures
        r == needs_copy_spec(existing, size),
{
    match existing {
        Some(len) => len != size,
        None => true,
    }
}

/// The number of plan entries that need copying.
pub open spec fn copy_count(plan: Seq<SyncTrackView>, existing: Seq<Option<u64>>) -> nat
    decreases plan.len(),
{
    if plan.len() == 0 {
        0
    } else {
        copy_count(plan.drop_last(), existing.drop_last()) + if needs_copy_spec(
            existing.last(),
            plan.last().size,
        ) {
            1nat
        } else {
            0nat
        }
    }
}

/// The bytes of the plan entries that need copying.
pub open spec fn copy_bytes(plan: Seq<SyncTrackView>, existing: Seq<Option<u64>>) -> nat
    decreases plan.len(),
{
    if plan.len() == 0 {
        0
    } else {
        copy_bytes(plan.drop_last(), existing.drop_last()) + if needs_copy_spec(
            existing.last(),
            plan.last().size,
        ) {
            plan.last().size as nat
        } else {
            0nat
        }
    }
}

/// What a sync would do, shown before it starts.
pub struct SyncPreviewPayload {
    pub total: usize,
    pub to_copy: usize,
    pub up_to_date: usize,
    pub bytes_needed: u64,
    pub free_bytes: u64,
}

/// The outcome of a sync.
pub struct SyncSummary {
    pub copied: usize,
    pub skipped: usize,
    pub total: usize,
}

proof fn lemma_copy_step(plan: Seq<SyncTrack>, existing: Seq<Option<u64>>, i: int)
    requires
        0 <= i < plan.len(),
        plan.len() == existing.len(),
    ensures
        copy_count(plan_view(plan.take(i + 1)), existing.take(i + 1)) == copy_count(
            plan_view(plan.take(i)),
            existing.take(i),
        ) + if needs_copy_spec(existing[i], plan[i].size) {
            1nat
        } else {
            0nat
        },
        copy_bytes(plan_view(plan.take(i + 1)), existing.take(i + 1)) == copy_bytes(
            plan_view(plan.take(i)),
            existing.take(i),
        ) + if needs_copy_spec(existing[i], plan[i].size) {
            plan[i].size as nat
        } else {
            0nat
        },
        plan_bytes(plan_view(plan.take(i + 1))) == plan_bytes(plan_view(plan.take(i))) + plan[i].size,
{
    assert(plan_view(plan.take(i + 1)).drop_last() =~= plan_view(plan.take(i)));
    assert(existing.take(i + 1).drop_last() =~= existing.take(i));
}

/// A sync never needs more bytes than the whole plan, nor copies more
/// tracks than the plan holds.
pub proof fn law_copy_within_plan(plan: Seq<SyncTrackView>, existing: Seq<Option<u64>>)
    requires
        plan.len() == existing.len(),
    ensures
        copy_bytes(plan, existing) <= plan_bytes(plan),
        copy_count(plan, existing) <= plan.len(),
    decreases plan.len(),
{
    if plan.len() > 0 {
        law_copy_within_plan(plan.drop_last(), existing.drop_last());
    }
}

/// Sums up what syncing `plan` to `target` would do, given the size of the
/// file already at each entry's place on the device (`existing[i]` for
/// `plan[i]`, `None` when there is none).
pub fn preview_sync(plan: &Vec<SyncTrack>, existing: &Vec<Option<u64>>, target: &DriveInfo) -> (r:
    SyncPreviewPayload)
    requires
        existing.len() == plan.len(),
        plan_bytes(plan_view(plan@)) <= u64::MAX,
    ensures
        r.total == plan.len(),
        r.to_copy == copy_count(plan_view(plan@), existing@),
        r.up_to_date == r.total - r.to_copy,
        r.bytes_needed == copy_bytes(plan_view(plan@), existing@),
        r.free_bytes == target.free_bytes,
{
    let n = plan.len();
    let mut to_copy: usize = 0;
    let mut bytes: u64 = 0;
    let mut i: usize = 0;
    let ghost pv = plan_view(plan@);
    assert(plan_view(plan@.take(0)) =~= Seq::<SyncTrackView>::empty());
    assert(existing@.take(0) =~= Seq::<Option<u64>>::empty());
    proof {
        lemma_take_full(plan@);
    }
    while i < n
        invariant
            i <= n == plan@.len() == existing@.len(),
            plan_bytes(plan_view(plan@)) <= u64::MAX,
            to_copy == copy_count(plan_view(plan@.take(i as int)), existing@.take(i as int)),
            to_copy <= i,
            bytes == copy_bytes(plan_view(plan@.take(i as int)), existing@.take(i as int)),
        decreases n - i,
    {
        proof {
            lemma_copy_step(plan@, existing@, i as int);
            law_copy_within_plan(plan_view(plan@.take(i + 1)), existing@.take(i + 1));
            lemma_plan_bytes_prefix(plan@, i + 1);
        }
        if needs_copy(existing[i], plan[i].size) {
            to_copy += 1;
            bytes = bytes + plan[i].size;
        }
        i += 1;
    }
    proof {
        lemma_take_full(plan@);
        lemma_take_full(existing@);
    }
    SyncPreviewPayload {
        total: n,
        to_copy,
        up_to_date: n - to_copy,
        bytes_needed: bytes,
        free_bytes: target.free_bytes,
    }
}

/// Whether the device has room for what the sync would copy.
pub fn fits_on_device(preview: &SyncPreviewPayload) -> (r: bool)
    ensures
        r == (preview.bytes_needed <= preview.free_bytes),
{
    preview.bytes_needed <= preview.free_bytes
}

/// A sync of `total` tracks that has not copied or skipped any yet.
pub open spec fn start_summary(total: usize) -> SyncSummary {
    SyncSummary { copied: 0, skipped: 0, total }
}

/// The summary after one more track: copied, or skipped as up to date.
pub open spec fn record_spec(s: SyncSummary, copied: bool) -> SyncSummary {
    if copied {
        SyncSummary { copied: (s.copied + 1) as usize, ..s }
    } else {
        SyncSummary { skipped: (s.skipped + 1) as usize, ..s }
    }
}

/// The summary of a sync of `total` tracks after recording `outcomes`
/// (copied or not), in order.
pub open spec fn summary_after(total: usize, outcomes: Seq<bool>) -> SyncSummary
    decreases outcomes.len(),
{
    if outcomes.len() == 0 {
        start_summary(total)
    } else {
        record_spec(summary_after(total, outcomes.drop_last()), outcomes.last())
    }
}

/// How many of `outcomes` are copies.
pub open spec fn copied_count(outcomes: Seq<bool>) -> nat
    decreases outcomes.len(),
{
    if outcomes.len() == 0 {
        0
    } else {
        copied_count(outcomes.drop_last()) + if outcomes.last() {
            1nat
        } else {
            0nat
        }
    }
}

impl SyncSummary {
    /// A sync of `total` tracks that has not copied or skipped any yet.
    pub fn start(total: usize) -> (r: SyncSummary)
        ensures
            r == start_summary(total),
    {
        SyncSummary { copied: 0, skipped: 0, total }
    }

    /// Records one more track of the plan: copied, or skipped as up to
    /// date.
    pub fn record(&mut self, copied: bool)
        requires
            old(self).copied + old(self).skipped < old(self).total,
        ensures
            *final(self) == record_spec(*old(self), copied),
            final(self).total == old(self).total,
            final(self).copied == old(self).copied + if copied {
                1int
            } else {
                0int
            },
            final(self).skipped == old(self).skipped + if copied {
                0int
            } else {
                1int
            },
    {
        if copied {
            self.copied = self.copied + 1;
        } else {
            self.skipped = self.skipped + 1;
        }
    }
}


// ---------------------------------------------------------------------------
// Laws of the plan
// ---------------------------------------------------------------------------

/// An entry that the plan may hold: a supported format, numbered from 1.
pub open spec fn entry_ok(e: SyncTrackView) -> bool {
    &&& supported_exts().contains(lowercase(e.ext))
    &&& e.track_num matches Some(n) && n >= 1
}

proof fn lemma_key_count_last(ts: Seq<Track>)
    requires
        ts.len() > 0,
    ensures
        key_count(ts, group_key(ts.last())) >= 1,
        key_count(ts, group_key(ts.last())) <= ts.len(),
{
    lemma_key_count_bound(ts.drop_last(), group_key(ts.last()));
}

proof fn lemma_group_entries_ok(ts: Seq<Track>, sizes: Seq<u64>, k: (Seq<char>, Seq<char>))
    requires
        ts.len() < i32::MAX,
    ensures
        forall|i: int| 0 <= i < group_entries(ts, sizes, k).len() ==> entry_ok(#[trigger] group_entries(ts, sizes, k)[i]),
    decreases ts.len(),
{
    if ts.len() > 0 {
        lemma_group_entries_ok(ts.drop_last(), sizes.drop_last(), k);
        let prev = group_entries(ts.drop_last(), sizes.drop_last(), k);
        if group_key(ts.last()) == k && is_planned(ts.last()) {
            lemma_key_count_last(ts);
            let n = key_count(ts, k);
            let e = plan_entry(ts.last(), sizes.last(), n);
            assert(1 <= n < i32::MAX);
            assert((n as i32) as int == n);
            assert(entry_ok(e));
            assert forall|i: int| 0 <= i < prev.push(e).len() implies entry_ok(#[trigger] prev.push(e)[i]) by {
                if i < prev.len() {
                    assert(prev.push(e)[i] == prev[i]);
                }
            }
        }
    }
}

proof fn lemma_plan_groups_ok(ts: Seq<Track>, sizes: Seq<u64>, keys: Seq<(Seq<char>, Seq<char>)>)
    requires
        ts.len() < i32::MAX,
    ensures
        forall|i: int| 0 <= i < plan_groups(ts, sizes, keys).len() ==> entry_ok(#[trigger] plan_groups(ts, sizes, keys)[i]),
    decreases keys.len(),
{
    if keys.len() > 0 {
        lemma_plan_groups_ok(ts, sizes, keys.drop_last());
        lemma_group_entries_ok(ts, sizes, keys.last());
        let a = plan_groups(ts, sizes, keys.drop_last());
        let b = group_entries(ts, sizes, keys.last());
        assert forall|i: int| 0 <= i < (a + b).len() implies entry_ok(#[trigger] (a + b)[i]) by {
            if i < a.len() {
                assert((a + b)[i] == a[i]);
            } else {
                assert((a + b)[i] == b[i - a.len()]);
            }
        }
    }
}

/// Every entry of a sync plan is of a supported format and numbered from
/// 1.
pub proof fn law_plan_entries_supported(ts: Seq<Track>, sizes: Seq<u64>)
    requires
        ts.len() < i32::MAX,
    ensures
        forall|i: int| 0 <= i < sync_plan(ts, sizes).len() ==> entry_ok(#[trigger] sync_plan(ts, sizes)[i]),
{
    lemma_plan_groups_ok(ts, sizes, group_order(ts));
}

/// Entry `e` is the plan entry of a track of the library of a supported
/// format, with that track's path, title and size.
pub open spec fn from_library(e: SyncTrackView, ts: Seq<Track>, sizes: Seq<u64>) -> bool {
    exists|i: int|
        0 <= i < ts.len() && is_planned(ts[i]) && e.src_path == ts[i].path@ && e.size == sizes[i]
            && e.title == text_or(ts[i].title, "Untitled"@) && e.ext == track_ext(ts[i])
            && (e.artist, e.album) == group_key(ts[i])
}

proof fn lemma_from_library_prefix(e: SyncTrackView, ts: Seq<Track>, sizes: Seq<u64>)
    requires
        ts.len() > 0,
        ts.len() == sizes.len(),
        from_library(e, ts.drop_last(), sizes.drop_last()),
    ensures
        from_library(e, ts, sizes),
{
    let i = choose|i: int|
        0 <= i < ts.drop_last().len() && is_planned(ts.drop_last()[i]) && e.src_path
            == ts.drop_last()[i].path@ && e.size == sizes.drop_last()[i] && e.title == text_or(
            ts.drop_last()[i].title,
            "Untitled"@,
        ) && e.ext == track_ext(ts.drop_last()[i]) && (e.artist, e.album) == group_key(
            ts.drop_last()[i],
        );
    assert(ts[i] == ts.drop_last()[i]);
    assert(sizes[i] == sizes.drop_last()[i]);
}

proof fn lemma_group_entries_from_library(ts: Seq<Track>, sizes: Seq<u64>, k: (Seq<char>, Seq<char>))
    requires
        ts.len() == sizes.len(),
    ensures
        forall|j: int|
            0 <= j < group_entries(ts, sizes, k).len() ==> from_library(
                #[trigger] group_entries(ts, sizes, k)[j],
                ts,
                sizes,
            ),
    decreases ts.len(),
{
    if ts.len() > 0 {
        let pt = ts.drop_last();
        let ps = sizes.drop_last();
        lemma_group_entries_from_library(pt, ps, k);
        let prev = group_entries(pt, ps, k);
        let cur = group_entries(ts, sizes, k);
        assert forall|j: int| 0 <= j < cur.len() implies from_library(#[trigger] cur[j], ts, sizes) by {
            if j < prev.len() {
                assert(cur[j] == prev[j]);
                lemma_from_library_prefix(prev[j], ts, sizes);
            } else {
                let last = ts.len() - 1;
                assert(cur[j] == plan_entry(ts[last], sizes[last], key_count(ts, k)));
                assert(group_key(ts[last]) == k);
            }
        }
    }
}

/// Every entry of a sync plan comes from a track of the library of a
/// supported format, and carries that track's path, title, extension,
/// group and file size.
pub proof fn law_plan_entries_from_library(ts: Seq<Track>, sizes: Seq<u64>)
    requires
        ts.len() == sizes.len(),
    ensures
        forall|j: int|
            0 <= j < sync_plan(ts, sizes).len() ==> from_library(
                #[trigger] sync_plan(ts, sizes)[j],
                ts,
                sizes,
            ),
{
    lemma_plan_groups_from_library(ts, sizes, group_order(ts));
}

proof fn lemma_plan_groups_from_library(ts: Seq<Track>, sizes: Seq<u64>, keys: Seq<(Seq<char>, Seq<char>)>)
    requires
        ts.len() == sizes.len(),
    ensures
        forall|j: int|
            0 <= j < plan_groups(ts, sizes, keys).len() ==> from_library(
                #[trigger] plan_groups(ts, sizes, keys)[j],
                ts,
                sizes,
            ),
    decreases keys.len(),
{
    if keys.len() > 0 {
        lemma_plan_groups_from_library(ts, sizes, keys.drop_last());
        lemma_group_entries_from_library(ts, sizes, keys.last());
        let a = plan_groups(ts, sizes, keys.drop_last());
        let b = group_entries(ts, sizes, keys.last());
        assert forall|j: int| 0 <= j < (a + b).len() implies from_library(#[trigger] (a + b)[j], ts, sizes) by {
            if j < a.len() {
                assert((a + b)[j] == a[j]);
            } else {
                assert((a + b)[j] == b[j - a.len()]);
            }
        }
    }
}

/// The number of tracks of a supported format.
pub open spec fn planned_count(ts: Seq<Track>) -> nat
    decreases ts.len(),
{
    if ts.len() == 0 {
        0
    } else {
        planned_count(ts.drop_last()) + if is_planned(ts.last()) {
            1nat
        } else {
            0nat
        }
    }
}

/// The number of tracks of a supported format in group `k`.
pub open spec fn planned_in(ts: Seq<Track>, k: (Seq<char>, Seq<char>)) -> nat
    decreases ts.len(),
{
    if ts.len() == 0 {
        0
    } else {
        planned_in(ts.drop_last(), k) + if group_key(ts.last()) == k && is_planned(ts.last()) {
            1nat
        } else {
            0nat
        }
    }
}

/// The planned tracks of the groups `keys`, added up.
pub open spec fn planned_in_groups(ts: Seq<Track>, keys: Seq<(Seq<char>, Seq<char>)>) -> nat
    decreases keys.len(),
{
    if keys.len() == 0 {
        0
    } else {
        planned_in_groups(ts, keys.drop_last()) + planned_in(ts, keys.last())
    }
}

proof fn lemma_group_entries_len(ts: Seq<Track>, sizes: Seq<u64>, k: (Seq<char>, Seq<char>))
    ensures
        group_entries(ts, sizes, k).len() == planned_in(ts, k),
    decreases ts.len(),
{
    if ts.len() > 0 {
        lemma_group_entries_len(ts.drop_last(), sizes.drop_last(), k);
    }
}

proof fn lemma_plan_groups_len(ts: Seq<Track>, sizes: Seq<u64>, keys: Seq<(Seq<char>, Seq<char>)>)
    ensures
        plan_groups(ts, sizes, keys).len() == planned_in_groups(ts, keys),
    decreases keys.len(),
{
    if keys.len() > 0 {
        lemma_plan_groups_len(ts, sizes, keys.drop_last());
        lemma_group_entries_len(ts, sizes, keys.last());
    }
}

/// The groups in order appear once each, and every track's group is among
/// them.
proof fn lemma_group_order_props(ts: Seq<Track>)
    ensures
        forall|a: int, b: int|
            0 <= a < b < group_order(ts).len() ==> group_order(ts)[a] != group_order(ts)[b],
        forall|i: int| 0 <= i < ts.len() ==> group_order(ts).contains(#[trigger] group_key(ts[i])),
        forall|k: (Seq<char>, Seq<char>)| #[trigger] group_order(ts).contains(k) ==> exists|i: int|
            0 <= i < ts.len() && group_key(ts[i]) == k,
    decreases ts.len(),
{
    if ts.len() > 0 {
        let prev = ts.drop_last();
        lemma_group_order_props(prev);
        let o = group_order(ts);
        let po = group_order(prev);
        assert forall|i: int| 0 <= i < ts.len() implies o.contains(#[trigger] group_key(ts[i])) by {
            if i < ts.len() - 1 {
                assert(ts[i] == prev[i]);
                assert(po.contains(group_key(prev[i])));
                let j = choose|j: int| 0 <= j < po.len() && po[j] == group_key(prev[i]);
                assert(o[j] == po[j]);
            } else {
                if !po.contains(group_key(ts.last())) {
                    assert(o[po.len() as int] == group_key(ts.last()));
                }
            }
        }
        assert forall|k: (Seq<char>, Seq<char>)| #[trigger] o.contains(k) implies exists|i: int|
            0 <= i < ts.len() && group_key(ts[i]) == k by {
            let j = choose|j: int| 0 <= j < o.len() && o[j] == k;
            if j < po.len() {
                assert(po[j] == k);
                assert(po.contains(k));
                let i = choose|i: int| 0 <= i < prev.len() && group_key(prev[i]) == k;
                assert(ts[i] == prev[i]);
            } else {
                assert(group_key(ts[ts.len() - 1]) == k);
            }
        }
    }
}

/// A group with no track has no planned track.
proof fn lemma_planned_in_absent(ts: Seq<Track>, k: (Seq<char>, Seq<char>))
    requires
        forall|i: int| 0 <= i < ts.len() ==> group_key(ts[i]) != k,
    ensures
        planned_in(ts, k) == 0,
    decreases ts.len(),
{
    if ts.len() > 0 {
        lemma_planned_in_absent(ts.drop_last(), k);
    }
}

/// Adding up over groups that each appear once: adding a track to the
/// library adds it to the sum of its group, and only there.
proof fn lemma_planned_in_groups_push(
    ts: Seq<Track>,
    keys: Seq<(Seq<char>, Seq<char>)>,
)
    requires
        ts.len() > 0,
        forall|a: int, b: int| 0 <= a < b < keys.len() ==> keys[a] != keys[b],
    ensures
        planned_in_groups(ts, keys) == planned_in_groups(ts.drop_last(), keys) + if keys.contains(
            group_key(ts.last()),
        ) && is_planned(ts.last()) {
            1nat
        } else {
            0nat
        },
    decreases keys.len(),
{
    if keys.len() > 0 {
        let rest = keys.drop_last();
        assert forall|a: int, b: int| 0 <= a < b < rest.len() implies rest[a] != rest[b] by {
            assert(rest[a] == keys[a]);
            assert(rest[b] == keys[b]);
        }
        lemma_planned_in_groups_push(ts, rest);
        let kt = group_key(ts.last());
        if keys.last() == kt {
            assert(!rest.contains(kt)) by {
                if rest.contains(kt) {
                    let j = choose|j: int| 0 <= j < rest.len() && rest[j] == kt;
                    assert(keys[j] == keys[keys.len() - 1]);
                }
            }
            assert(keys.contains(kt)) by {
                assert(keys[keys.len() - 1] == kt);
            }
        } else {
            assert(keys.contains(kt) == rest.contains(kt)) by {
                if keys.contains(kt) {
                    let j = choose|j: int| 0 <= j < keys.len() && keys[j] == kt;
                    assert(j < keys.len() - 1);
                    assert(rest[j] == kt);
                }
                if rest.contains(kt) {
                    let j = choose|j: int| 0 <= j < rest.len() && rest[j] == kt;
                    assert(keys[j] == kt);
                }
            }
        }
    }
}

proof fn lemma_planned_in_groups_absent(ts: Seq<Track>, keys: Seq<(Seq<char>, Seq<char>)>)
    requires
        ts.len() > 0,
        !keys.contains(group_key(ts.last())),
    ensures
        planned_in_groups(ts, keys) == planned_in_groups(ts.drop_last(), keys),
    decreases keys.len(),
{
    if keys.len() > 0 {
        let rest = keys.drop_last();
        assert(!rest.contains(group_key(ts.last()))) by {
            if rest.contains(group_key(ts.last())) {
                let j = choose|j: int| 0 <= j < rest.len() && rest[j] == group_key(ts.last());
                assert(keys[j] == group_key(ts.last()));
            }
        }
        lemma_planned_in_groups_absent(ts, rest);
        assert(keys[keys.len() - 1] != group_key(ts.last()));
    }
}

proof fn lemma_planned_total(ts: Seq<Track>)
    ensures
        planned_in_groups(ts, group_order(ts)) == planned_count(ts),
    decreases ts.len(),
{
    if ts.len() > 0 {
        let prev = ts.drop_last();
        lemma_planned_total(prev);
        lemma_group_order_props(prev);
        lemma_group_order_props(ts);
        let kt = group_key(ts.last());
        let po = group_order(prev);
        let o = group_order(ts);
        lemma_planned_in_groups_push(ts, o);
        assert(o.contains(kt)) by {
            assert(o.contains(group_key(ts[ts.len() - 1])));
        }
        if po.contains(kt) {
            assert(o == po);
        } else {
            assert(o == po.push(kt));
            assert(o.drop_last() =~= po);
            // The new group holds no earlier track.
            assert forall|i: int| 0 <= i < prev.len() implies group_key(prev[i]) != kt by {
                assert(po.contains(#[trigger] group_key(prev[i])));
            }
            lemma_planned_in_absent(prev, kt);
            assert(planned_in_groups(prev, o) == planned_in_groups(prev, po) + planned_in(prev, kt));
        }
    }
}

/// A sync plan holds one entry for each track of a supported format.
pub proof fn law_plan_size(ts: Seq<Track>, sizes: Seq<u64>)
    ensures
        sync_plan(ts, sizes).len() == planned_count(ts),
{
    lemma_plan_groups_len(ts, sizes, group_order(ts));
    lemma_planned_total(ts);
}

/// Tracks already on the device with the right size are not copied: when
/// every entry is up to date, a sync copies nothing.
pub proof fn law_up_to_date_not_copied(plan: Seq<SyncTrackView>, existing: Seq<Option<u64>>)
    requires
        plan.len() == existing.len(),
        forall|i: int| 0 <= i < plan.len() ==> existing[i] == Some(#[trigger] plan[i].size),
    ensures
        copy_count(plan, existing) == 0,
        copy_bytes(plan, existing) == 0,
    decreases plan.len(),
{
    if plan.len() > 0 {
        let p = plan.drop_last();
        let e = existing.drop_last();
        assert forall|i: int| 0 <= i < p.len() implies e[i] == Some(#[trigger] p[i].size) by {
            assert(plan[i].size == p[i].size);
        }
        law_up_to_date_not_copied(p, e);
        assert(existing.last() == Some(plan[plan.len() - 1].size));
    }
}

/// The bytes of two plans placed one after the other are the bytes of
/// each, added.
pub proof fn law_plan_bytes_concat(a: Seq<SyncTrackView>, b: Seq<SyncTrackView>)
    ensures
        plan_bytes(a + b) == plan_bytes(a) + plan_bytes(b),
    decreases b.len(),
{
    if b.len() == 0 {
        assert(a + b =~= a);
    } else {
        law_plan_bytes_concat(a, b.drop_last());
        assert((a + b).drop_last() =~= a + b.drop_last());
    }
}

/// The free space that two plans need together is what each needs, added.
pub proof fn law_required_space_concat(a: Seq<SyncTrack>, b: Seq<SyncTrack>)
    ensures
        plan_bytes(plan_view(a + b)) == plan_bytes(plan_view(a)) + plan_bytes(plan_view(b)),
{
    assert(plan_view(a + b) =~= plan_view(a) + plan_view(b));
    law_plan_bytes_concat(plan_view(a), plan_view(b));
}

/// Taking one track out of a plan takes its size out of the plan's bytes.
proof fn lemma_plan_bytes_remove(s: Seq<SyncTrackView>, i: int)
    requires
        0 <= i < s.len(),
    ensures
        plan_bytes(s) == plan_bytes(s.remove(i)) + s[i].size,
{
    let l = s.take(i);
    let r = s.skip(i + 1);
    let m = seq![s[i]];
    assert(s =~= (l + m) + r);
    assert(s.remove(i) =~= l + r);
    law_plan_bytes_concat(l + m, r);
    law_plan_bytes_concat(l, m);
    law_plan_bytes_concat(l, r);
    assert(m.drop_last() =~= Seq::<SyncTrackView>::empty());
    assert(plan_bytes(m) == plan_bytes(m.drop_last()) + m.last().size as nat);
    assert(plan_bytes(m) == s[i].size);
}

/// The free space that a plan needs does not depend on the order of its
/// tracks: any reordering needs the same.
pub proof fn law_required_space_permutation(a: Seq<SyncTrack>, p: Seq<SyncTrack>)
    requires
        a.to_multiset() == p.to_multiset(),
    ensures
        plan_bytes(plan_view(a)) == plan_bytes(plan_view(p)),
    decreases p.len(),
{
    broadcast use vstd::seq_lib::group_to_multiset_ensures;

    vstd::seq_lib::to_multiset_len(a);
    vstd::seq_lib::to_multiset_len(p);
    if p.len() == 0 {
        assert(a.len() == 0);
        assert(plan_view(a) =~= plan_view(p));
    } else {
        let j = p.len() - 1;
        let x = p[j];
        assert(p.to_multiset().count(x) > 0);
        assert(a.contains(x));
        let i = choose|i: int| 0 <= i < a.len() && a[i] == x;
        lemma_plan_bytes_remove(plan_view(a), i);
        lemma_plan_bytes_remove(plan_view(p), j);
        assert(plan_view(a.remove(i)) =~= plan_view(a).remove(i));
        assert(plan_view(p.remove(j)) =~= plan_view(p).remove(j));
        law_required_space_permutation(a.remove(i), p.remove(j));
    }
}

/// A sync counts every track once: after one record for each of its
/// `total` tracks, the copied tracks are those recorded as copied, the
/// rest are skipped, and copied plus skipped is the total.
pub proof fn law_summary_counts_every_track(total: usize, outcomes: Seq<bool>)
    requires
        outcomes.len() <= total,
    ensures
        summary_after(total, outcomes).total == total,
        summary_after(total, outcomes).copied == copied_count(outcomes),
        summary_after(total, outcomes).skipped == outcomes.len() - copied_count(outcomes),
        outcomes.len() == total ==> summary_after(total, outcomes).copied + summary_after(
            total,
            outcomes,
        ).skipped == total,
    decreases outcomes.len(),
{
    if outcomes.len() > 0 {
        law_summary_counts_every_track(total, outcomes.drop_last());
        lemma_copied_count_bound(outcomes.drop_last());
    }
}

proof fn lemma_copied_count_bound(outcomes: Seq<bool>)
    ensures
        copied_count(outcomes) <= outcomes.len(),
    decreases outcomes.len(),
{
    if outcomes.len() > 0 {
        lemma_copied_count_bound(outcomes.drop_last());
    }
}

/// The formats a sync plans are exactly MP3, FLAC, Ogg, WAV, AAC, M4A and
/// APE, by their lower-case extension.
pub proof fn law_sync_formats(e: Seq<char>)
    ensures
        supported_exts().contains(e) <==> (e == "mp3"@ || e == "flac"@ || e == "ogg"@ || e
            == "wav"@ || e == "aac"@ || e == "m4a"@ || e == "ape"@),
{
    let s = supported_exts();
    if e == "mp3"@ { assert(s[0] == e); }
    if e == "flac"@ { assert(s[1] == e); }
    if e == "ogg"@ { assert(s[2] == e); }
    if e == "wav"@ { assert(s[3] == e); }
    if e == "aac"@ { assert(s[4] == e); }
    if e == "m4a"@ { assert(s[5] == e); }
    if e == "ape"@ { assert(s[6] == e); }
}

/// A library track is planned exactly when its extension, lower-cased, is
/// that of one of the formats the player plays.
pub proof fn law_planned_formats(t: Track)
    ensures
        is_planned(t) <==> ({
            let e = lowercase(track_ext(t));
            e == "mp3"@ || e == "flac"@ || e == "ogg"@ || e == "wav"@ || e == "aac"@ || e
                == "m4a"@ || e == "ape"@
        }),
{
    law_sync_formats(lowercase(track_ext(t)));
}

/// A track is copied exactly when the device has no file at its place or
/// a file whose size differs from the track's, smaller or larger.
pub proof fn law_copy_when_size_differs(existing: Option<u64>, size: u64)
    ensures
        existing is None ==> needs_copy_spec(existing, size),
        forall|len: u64| existing == Some(len) && len != size ==> needs_copy_spec(existing, size),
        existing == Some(size) ==> !needs_copy_spec(existing, size),
{
}

} // verus!
