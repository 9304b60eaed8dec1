//! Device detection and library sync for portable players (such as the
//! SnowSky Echo Mini, which shows up as one or two removable volumes: the
//! internal storage labelled "ECHO MINI" and an optional card labelled
//! "Echo SD").
//!
//! Everything here is decided on plain values: the volumes found on the
//! machine, the library's tracks, the sizes of files. Reading those, and
//! copying files, is left to the caller.

use vstd::prelude::*;

use crate::schema::{clone_opt, opt_view, string_or, text_or, Track};
use crate::text::{
    is_loose_end, is_white_space, lemma_byte_len_bound, lemma_byte_len_prefix, lemma_trim_end_loose,
    lemma_trim_end_loose_keeps, lemma_trim_start_first, trim_end_loose, trim_end_loose_chars,
    trim_start, all_chars, lemma_all_chars_take, lemma_byte_len_empty, lemma_byte_len_positive,
    lemma_trim_end_char_keeps, lemma_trim_end_keeps, lemma_trim_start_keeps, trim_start_ws, byte_len, char_width, control_code, decimal, decimal_chars, is_control_code,
    lemma_byte_len_take, lemma_byte_len_take_increasing, sub_chars, trim_end_char,
    trim_end_matching, chars_eq, chars_of, contains_chars, contains_seq, ends_with_chars, ends_with_seq,
    extend_chars, has_char, lemma_take_full, starts_with_chars, starts_with_seq, string_of,
    to_uppercase, trim, trim_ws, uppercase, ascii_uppercase, is_ascii_text, digit_char,
};

verus! {

// ---------------------------------------------------------------------------
// Drives
// ---------------------------------------------------------------------------

/// A removable volume as the sync screen shows it.
pub struct DriveInfo {
    /// The drive letter followed by a colon, such as `E:`.
    pub letter: String,
    pub label: String,
    pub total_bytes: u64,
    pub free_bytes: u64,
    pub is_echo_mini: bool,
    /// `"internal"` or `"sd"` for a player volume.
    pub echo_volume: Option<String>,
}

pub struct DriveView {
    pub letter: Seq<char>,
    pub label: Seq<char>,
    pub total_bytes: u64,
    pub free_bytes: u64,
    pub is_echo_mini: bool,
    pub echo_volume: Option<Seq<char>>,
}

impl View for DriveInfo {
    type V = DriveView;

    open spec fn view(&self) -> DriveView {
        DriveView {
            letter: self.letter@,
            label: self.label@,
            total_bytes: self.total_bytes,
            free_bytes: self.free_bytes,
            is_echo_mini: self.is_echo_mini,
            echo_volume: opt_view(self.echo_volume),
        }
    }
}

impl DriveInfo {
    /// A copy of this drive.
    pub fn duplicate(&self) -> (r: DriveInfo)
        ensures
            r@ == self@,
    {
        DriveInfo {
            letter: self.letter.clone(),
            label: self.label.clone(),
            total_bytes: self.total_bytes,
            free_bytes: self.free_bytes,
            is_echo_mini: self.is_echo_mini,
            echo_volume: clone_opt(&self.echo_volume),
        }
    }
}

/// What the volume of a drive letter reports: its label and its sizes.
pub struct VolumeInfo {
    pub label: String,
    pub total_bytes: u64,
    pub free_bytes: u64,
}

/// The letters of the volumes found with a player firmware file on them.
pub struct DeviceInfo {
    pub seen_letters: Vec<char>,
}

/// One removable drive as found on the machine: its letter, what its
/// volume reports, and whether its root holds a player firmware file.
pub struct DriveScan {
    pub letter: char,
    pub volume: VolumeInfo,
    pub has_marker: bool,
}

/// The volume labels that the player gives its storage.
pub open spec fn is_player_label(label: Seq<char>) -> bool {
    label == "ECHO MINI"@ || label == "Echo SD"@
}

/// The drive that `from_letter` describes.
pub open spec fn drive_spec(
    letter: char,
    label: Seq<char>,
    total: u64,
    free: u64,
    seen: Option<Seq<char>>,
) -> DriveView {
    drive_spec_cased(letter, label, uppercase(label), total, free, seen)
}

/// The drive described from its label and the label upper-cased.
pub open spec fn drive_spec_cased(
    letter: char,
    label: Seq<char>,
    upper: Seq<char>,
    total: u64,
    free: u64,
    seen: Option<Seq<char>>,
) -> DriveView {
    let is_echo = is_player_label(label) || (seen matches Some(s) && s.contains(letter));
    DriveView {
        letter: seq![letter] + ":"@,
        label: label,
        total_bytes: total,
        free_bytes: free,
        is_echo_mini: is_echo,
        echo_volume: if contains_seq(upper, "SD"@) {
            Some("sd"@)
        } else if is_echo {
            Some("internal"@)
        } else {
            None
        },
    }
}

/// Whether two strings hold the same text.
fn same_text(a: &str, b: &str) -> (r: bool)
    ensures
        r == (a@ == b@),
{
    let x = chars_of(a);
    let y = chars_of(b);
    chars_eq(&x, &y)
}

impl DriveInfo {
    /// Describes the drive `letter` from what its volume reports. The drive
    /// is a player volume when its label is one that the player gives, or
    /// when the letter is among those seen with a firmware file; a label
    /// that holds "SD" once upper-cased marks the card.
    pub fn from_letter(letter: char, volume: &VolumeInfo, device_info: Option<&DeviceInfo>) -> (r:
        DriveInfo)
        ensures
            r@ == drive_spec(
                letter,
                volume.label@,
                volume.total_bytes,
                volume.free_bytes,
                match device_info {
                    Some(d) => Some(d.seen_letters@),
                    None => None,
                },
            ),
            is_ascii_text(volume.label@) ==> r@ == drive_spec_cased(
                letter,
                volume.label@,
                ascii_uppercase(volume.label@),
                volume.total_bytes,
                volume.free_bytes,
                match device_info {
                    Some(d) => Some(d.seen_letters@),
                    None => None,
                },
            ),
    {
        let label = volume.label.clone();
        let seen = match device_info {
            Some(d) => has_char(&d.seen_letters, letter),
            None => false,
        };
        let is_echo_mini = same_text(label.as_str(), "ECHO MINI") || same_text(
            label.as_str(),
            "Echo SD",
        ) || seen;
        let upper = to_uppercase(label.as_str());
        let upper_chars = chars_of(upper.as_str());
        let sd = chars_of("SD");
        let echo_volume = if contains_chars(&upper_chars, &sd) {
            Some(String::from_str("sd"))
        } else if is_echo_mini {
            Some(String::from_str("internal"))
        } else {
            None
        };
        let mut letter_chars: Vec<char> = Vec::new();
        letter_chars.push(letter);
        let colon = chars_of(":");
        extend_chars(&mut letter_chars, &colon);
        DriveInfo {
            letter: string_of(&letter_chars),
            label,
            total_bytes: volume.total_bytes,
            free_bytes: volume.free_bytes,
            is_echo_mini,
            echo_volume,
        }
    }
}

/// The letters of the drives whose scan found a firmware file, in order.
pub open spec fn marked_letters(scans: Seq<DriveScan>) -> Seq<char>
    decreases scans.len(),
{
    if scans.len() == 0 {
        Seq::empty()
    } else {
        let prev = marked_letters(scans.drop_last());
        if scans.last().has_marker {
            prev.push(scans.last().letter)
        } else {
            prev
        }
    }
}

/// Describes every scanned drive, in order. A drive counts as a player
/// volume when its label is one that the player gives, or when its letter
/// is among those whose root holds a firmware file.
pub fn detect_devices(scans: &Vec<DriveScan>) -> (r: Vec<DriveInfo>)
    ensures
        r.len() == scans.len(),
        forall|i: int|
            0 <= i < scans.len() ==> #[trigger] r[i]@ == drive_spec(
                scans[i].letter,
                scans[i].volume.label@,
                scans[i].volume.total_bytes,
                scans[i].volume.free_bytes,
                Some(marked_letters(scans@)),
            ),
{
    let n = scans.len();
    let mut device = DeviceInfo { seen_letters: Vec::new() };
    let mut i: usize = 0;
    while i < n
        invariant
            i <= n == scans@.len(),
            device.seen_letters@ == marked_letters(scans@.take(i as int)),
        decreases n - i,
    {
        assert(scans@.take(i + 1).drop_last() =~= scans@.take(i as int));
        if scans[i].has_marker {
            device.seen_letters.push(scans[i].letter);
        }
        i += 1;
    }
    proof {
        lemma_take_full(scans@);
    }
    let mut r: Vec<DriveInfo> = Vec::new();
    let mut j: usize = 0;
    while j < n
        invariant
            j <= n == scans@.len(),
            device.seen_letters@ == marked_letters(scans@),
            r.len() == j,
            forall|k: int|
                0 <= k < j ==> #[trigger] r[k]@ == drive_spec(
                    scans[k].letter,
                    scans[k].volume.label@,
                    scans[k].volume.total_bytes,
                    scans[k].volume.free_bytes,
                    Some(marked_letters(scans@)),
                ),
        decreases n - j,
    {
        let d = DriveInfo::from_letter(scans[j].letter, &scans[j].volume, Some(&device));
        r.push(d);
        j += 1;
    }
    r
}

/// A drive is taken for a player volume exactly when its label is one
/// that the player gives, or when some drive with its letter holds the
/// player's firmware file; in particular every drive with the firmware
/// file is.
pub proof fn law_player_detection(scans: Seq<DriveScan>, i: int)
    requires
        0 <= i < scans.len(),
    ensures
        drive_spec(
            scans[i].letter,
            scans[i].volume.label@,
            scans[i].volume.total_bytes,
            scans[i].volume.free_bytes,
            Some(marked_letters(scans)),
        ).is_echo_mini == (is_player_label(scans[i].volume.label@) || exists|j: int|
            0 <= j < scans.len() && scans[j].has_marker && scans[j].letter == scans[i].letter),
{
    lemma_marked_letters(scans, scans[i].letter);
}

proof fn lemma_marked_letters(scans: Seq<DriveScan>, c: char)
    ensures
        marked_letters(scans).contains(c) <==> exists|j: int|
            0 <= j < scans.len() && scans[j].has_marker && scans[j].letter == c,
    decreases scans.len(),
{
    if scans.len() > 0 {
        let prev = scans.drop_last();
        lemma_marked_letters(prev, c);
        let pm = marked_letters(prev);
        let m = marked_letters(scans);
        if m.contains(c) {
            let x = choose|x: int| 0 <= x < m.len() && m[x] == c;
            if x < pm.len() {
                assert(m[x] == pm[x]);
                assert(pm.contains(c));
                let j = choose|j: int| 0 <= j < prev.len() && prev[j].has_marker && prev[j].letter == c;
                assert(scans[j] == prev[j]);
            } else {
                assert(scans[scans.len() - 1].has_marker && scans[scans.len() - 1].letter == c);
            }
        }
        if exists|j: int| 0 <= j < scans.len() && scans[j].has_marker && scans[j].letter == c {
            let j = choose|j: int| 0 <= j < scans.len() && scans[j].has_marker && scans[j].letter == c;
            if j < scans.len() - 1 {
                assert(prev[j] == scans[j]);
                assert(pm.contains(c));
                let x = choose|x: int| 0 <= x < pm.len() && pm[x] == c;
                assert(m[x] == pm[x]);
            } else {
                assert(m == pm.push(c));
                assert(m[pm.len() as int] == c);
            }
        }
    }
}

/// The drive type that Windows reports for a removable drive.
pub const DRIVE_REMOVABLE: u32 = 2;

/// The letters of the drives present in `mask` whose type is removable,
/// from `A` to `Z`; `types[i]` is the type of the drive of letter `i`.
pub open spec fn removable_letters(mask: u32, types: Seq<u32>, n: nat) -> Seq<char>
    decreases n,
{
    if n == 0 {
        Seq::empty()
    } else {
        let prev = removable_letters(mask, types, (n - 1) as nat);
        if mask & (1u32 << ((n - 1) as u32)) != 0 && types[n - 1] == DRIVE_REMOVABLE {
            prev.push(((65 + n - 1) as u8) as char)
        } else {
            prev
        }
    }
}

/// The removable drives among those present in a logical-drives mask,
/// given the type of each drive letter's drive (`types[i]` for the letter
/// `A` + `i`; only those of present drives are looked at).
pub fn removable_drive_letters(mask: u32, types: &Vec<u32>) -> (r: Vec<char>)
    requires
        types.len() == 26,
    ensures
        r@ == removable_letters(mask, types@, 26),
{
    let mut letters: Vec<char> = Vec::new();
    let mut i: u32 = 0;
    while i < 26
        invariant
            i <= 26,
            types@.len() == 26,
            letters@ == removable_letters(mask, types@, i as nat),
        decreases 26 - i,
    {
        if mask & (1u32 << i) != 0 && types[i as usize] == DRIVE_REMOVABLE {
            letters.push(((65u8 + i as u8) as char));
        }
        i += 1;
    }
    letters
}

/// A file at the root of a volume whose name marks it as the player's
/// firmware (`HIFIEC*.img`).
pub open spec fn is_marker_name(name: Seq<char>) -> bool {
    starts_with_seq(name, "HIFIEC"@) && ends_with_seq(name, ".img"@)
}

/// Whether a file name at the root of a volume is the player's firmware.
pub fn is_firmware_marker(name: &str) -> (r: bool)
    ensures
        r == is_marker_name(name@),
{
    let n = chars_of(name);
    let p = chars_of("HIFIEC");
    let s = chars_of(".img");
    starts_with_chars(&n, &p) && ends_with_chars(&n, &s)
}

/// The index of the first zero unit, or 0 when there is none.
pub open spec fn label_len(units: Seq<u16>) -> int {
    if exists|i: int| 0 <= i < units.len() && units[i] == 0 {
        choose|i: int| 0 <= i < units.len() && units[i] == 0 && forall|j: int| 0 <= j < i ==> units[j] != 0
    } else {
        0
    }
}

/// A UTF-16 unit that starts a surrogate pair.
pub open spec fn is_high_surrogate(u: u16) -> bool {
    0xD800 <= u <= 0xDBFF
}

/// A UTF-16 unit that ends a surrogate pair.
pub open spec fn is_low_surrogate(u: u16) -> bool {
    0xDC00 <= u <= 0xDFFF
}

/// The scalar value that a surrogate pair stands for.
pub open spec fn pair_value(high: u16, low: u16) -> int {
    0x10000 + (high - 0xD800) * 0x400 + (low - 0xDC00)
}

/// A Unicode scalar value: past the surrogates, up to U+10FFFF.
pub open spec fn is_scalar_value(x: u32) -> bool {
    x <= 0xD7FF || (0xE000 <= x <= 0x10FFFF)
}

/// UTF-16 decoded as `String::from_utf16_lossy` documents it: a high
/// surrogate followed by a low one stands for one character; any other
/// surrogate, unpaired, becomes U+FFFD; every other unit is its own
/// character.
pub open spec fn utf16_lossy(units: Seq<u16>) -> Seq<char>
    decreases units.len(),
{
    if units.len() == 0 {
        Seq::empty()
    } else {
        let u = units[0];
        if is_high_surrogate(u) && units.len() > 1 && is_low_surrogate(units[1]) {
            seq![pair_value(u, units[1]) as char] + utf16_lossy(units.skip(2))
        } else if is_high_surrogate(u) || is_low_surrogate(u) {
            seq!['\u{FFFD}'] + utf16_lossy(units.skip(1))
        } else {
            seq![(u as u32) as char] + utf16_lossy(units.skip(1))
        }
    }
}

/// `char::from_u32`: the character with scalar value `x`, or `None` when
/// `x` is a surrogate or past U+10FFFF.
#[verifier::external_body]
fn char_from_u32(x: u32) -> (r: Option<char>)
    ensures
        r == (if is_scalar_value(x) {
            Some(x as char)
        } else {
            None
        }),
{
    char::from_u32(x)
}

/// Decodes UTF-16, with U+FFFD for each unpaired surrogate.
fn decode_utf16_lossy(units: &Vec<u16>) -> (r: Vec<char>)
    ensures
        r@ == utf16_lossy(units@),
{
    let n = units.len();
    let mut r: Vec<char> = Vec::new();
    let mut i: usize = 0;
    assert(units@.skip(0) =~= units@);
    while i < n
        invariant
            i <= n == units@.len(),
            r@ + utf16_lossy(units@.skip(i as int)) == utf16_lossy(units@),
        decreases n - i,
    {
        let rest = Ghost(units@.skip(i as int));
        let u = units[i];
        assert(rest@[0] == u);
        if u >= 0xD800 && u <= 0xDBFF && i + 1 < n && units[i + 1] >= 0xDC00 && units[i + 1] <= 0xDFFF {
            let l = units[i + 1];
            assert(rest@[1] == l);
            let x: u32 = 0x10000 + ((u - 0xD800) as u32) * 0x400 + ((l - 0xDC00) as u32);
            assert(x == pair_value(u, l));
            let c = match char_from_u32(x) {
                Some(c) => c,
                None => {
                    assert(false);
                    '\u{FFFD}'
                },
            };
            assert(rest@.skip(2) =~= units@.skip(i + 2));
            assert(r@.push(c) + utf16_lossy(units@.skip(i + 2)) =~= r@ + utf16_lossy(rest@));
            r.push(c);
            i += 2;
        } else {
            let c = if u >= 0xD800 && u <= 0xDFFF {
                '\u{FFFD}'
            } else {
                match char_from_u32(u as u32) {
                    Some(c) => c,
                    None => {
                        assert(false);
                        '\u{FFFD}'
                    },
                }
            };
            assert(rest@.skip(1) =~= units@.skip(i + 1));
            assert(r@.push(c) + utf16_lossy(units@.skip(i + 1)) =~= r@ + utf16_lossy(rest@));
            r.push(c);
            i += 1;
        }
    }
    assert(units@.skip(n as int) =~= Seq::<u16>::empty());
    assert(r@ + Seq::<char>::empty() =~= r@);
    r
}

/// The volume label held in a zero-terminated UTF-16 buffer, trimmed. A
/// buffer with no terminator gives an empty label.
pub fn label_from_buffer(buf: &Vec<u16>) -> (r: String)
    ensures
        r@ == trim_ws(utf16_lossy(buf@.take(label_len(buf@)))),
{
    let n = buf.len();
    let mut i: usize = 0;
    while i < n && buf[i] != 0
        invariant
            i <= n == buf@.len(),
            forall|j: int| 0 <= j < i ==> buf@[j] != 0,
        decreases n - i,
    {
        i += 1;
    }
    let len = if i < n {
        assert(buf@[i as int] == 0);
        let ghost k = choose|k: int|
            0 <= k < buf@.len() && buf@[k] == 0 && forall|j: int| 0 <= j < k ==> buf@[j] != 0;
        assert(k == i) by {
            if k < i {
            } else if k > i {
            }
        }
        i
    } else {
        0
    };
    let mut units: Vec<u16> = Vec::new();
    let mut j: usize = 0;
    while j < len
        invariant
            j <= len <= n == buf@.len(),
            units@ == buf@.take(j as int),
        decreases len - j,
    {
        units.push(buf[j]);
        assert(buf@.take(j as int).push(buf@[j as int]) =~= buf@.take(j + 1));
        j += 1;
    }
    let chars = decode_utf16_lossy(&units);
    let trimmed = trim(&chars);
    string_of(&trimmed)
}

/// The connected drive whose letter is `drive_letter`.
pub open spec fn find_device_spec(devices: Seq<DriveView>, drive_letter: Seq<char>) -> Option<int> {
    if exists|i: int| 0 <= i < devices.len() && devices[i].letter == drive_letter {
        Some(
            choose|i: int|
                0 <= i < devices.len() && devices[i].letter == drive_letter && forall|j: int|
                    0 <= j < i ==> devices[j].letter != drive_letter,
        )
    } else {
        None
    }
}

pub open spec fn drive_views(devices: Seq<DriveInfo>) -> Seq<DriveView> {
    devices.map_values(|d: DriveInfo| d@)
}

/// The message given when no connected drive has the asked letter.
pub open spec fn not_connected_message(drive_letter: Seq<char>) -> Seq<char> {
    "Device "@ + drive_letter
        + " is not connected or detected. Reconnect the player and try again."@
}

/// The first of `devices` whose letter is `drive_letter`, or the message
/// that the device is not connected.
pub fn find_device(devices: &Vec<DriveInfo>, drive_letter: &str) -> (r: Result<DriveInfo, String>)
    ensures
        match find_device_spec(drive_views(devices@), drive_letter@) {
            Some(i) => r matches Ok(d) && d@ == devices@[i]@,
            None => r matches Err(e) && e@ == not_connected_message(drive_letter@),
        },
{
    let n = devices.len();
    let mut i: usize = 0;
    let ghost views = drive_views(devices@);
    while i < n
        invariant
            i <= n == devices@.len(),
            views == drive_views(devices@),
            forall|j: int| 0 <= j < i ==> views[j].letter != drive_letter@,
        decreases n - i,
    {
        if same_text(devices[i].letter.as_str(), drive_letter) {
            proof {
                assert(views[i as int].letter == drive_letter@);
                let k = choose|k: int|
                    0 <= k < views.len() && views[k].letter == drive_letter@ && forall|j: int|
                        0 <= j < k ==> views[j].letter != drive_letter@;
                assert(k == i) by {
                    if k > i {
                    }
                }
            }
            return Ok(devices[i].duplicate());
        }
        i += 1;
    }
    let mut msg = String::from_str("Device ");
    msg.append(drive_letter);
    msg.append(" is not connected or detected. Reconnect the player and try again.");
    Err(msg)
}


// ---------------------------------------------------------------------------
// Names on the device
// ---------------------------------------------------------------------------

/// The characters that FAT32 and exFAT do not allow in a file name.
pub open spec fn is_reserved_char(c: char) -> bool {
    c == '/' || c == '\\' || c == ':' || c == '*' || c == '?' || c == '"' || c == '<' || c == '>'
        || c == '|'
}

/// A character as it stands in a name on the device.
pub open spec fn clean_char(c: char) -> char {
    if is_reserved_char(c) || is_control_code(c) {
        '_'
    } else {
        c
    }
}

/// The name before it is cut to the byte limit: reserved and control
/// characters replaced by `_`, leading white space trimmed, trailing white
/// space and dots removed (however they mix), and `Untitled` for what is
/// then empty.
pub open spec fn sanitize_base(name: Seq<char>) -> Seq<char> {
    let t = trim_end_loose(trim_start_ws(name.map_values(|c: char| clean_char(c))));
    if t.len() == 0 {
        "Untitled"@
    } else {
        t
    }
}

/// The most bytes that a name on the device takes.
pub open spec fn name_byte_limit() -> nat {
    150
}

pub open spec fn min_nat(a: nat, b: nat) -> nat {
    if a <= b {
        a
    } else {
        b
    }
}

/// The base name has a prefix of exactly the bytes that the cut keeps: the
/// cut falls on a character boundary.
pub open spec fn can_sanitize(name: Seq<char>) -> bool {
    let b = sanitize_base(name);
    exists|k: int| 0 <= k <= b.len() && byte_len(b.take(k)) == min_nat(byte_len(b), name_byte_limit())
}

/// The base name cut to its first 150 bytes.
pub open spec fn cut_base(name: Seq<char>) -> Seq<char> {
    let b = sanitize_base(name);
    b.take(
        choose|k: int|
            0 <= k <= b.len() && byte_len(b.take(k)) == min_nat(byte_len(b), name_byte_limit()),
    )
}

/// A name made safe for the device: the base name cut to its first 150
/// bytes, with the white space and dots that the cut leaves at the end
/// removed again (`Untitled` when nothing is left).
pub open spec fn sanitized(name: Seq<char>) -> Seq<char> {
    let t = trim_end_loose(cut_base(name));
    if t.len() == 0 {
        "Untitled"@
    } else {
        t
    }
}

fn clean_chars(v: &Vec<char>) -> (r: Vec<char>)
    ensures
        r@ == v@.map_values(|c: char| clean_char(c)),
{
    let mut r: Vec<char> = Vec::new();
    let n = v.len();
    let mut i: usize = 0;
    while i < n
        invariant
            i <= n == v@.len(),
            r@ == v@.take(i as int).map_values(|c: char| clean_char(c)),
        decreases n - i,
    {
        let c = v[i];
        let d = if c == '/' || c == '\\' || c == ':' || c == '*' || c == '?' || c == '"' || c == '<'
            || c == '>' || c == '|' || control_code(c) {
            '_'
        } else {
            c
        };
        r.push(d);
        assert(v@.take(i + 1).map_values(|c: char| clean_char(c)) =~= v@.take(i as int).map_values(
            |c: char| clean_char(c),
        ).push(clean_char(c)));
        i += 1;
    }
    assert(v@.take(n as int) =~= v@);
    r
}

fn sanitize_base_chars(name: &str) -> (r: Vec<char>)
    ensures
        r@ == sanitize_base(name@),
{
    let v = chars_of(name);
    let cleaned = clean_chars(&v);
    let t = trim_start(&cleaned);
    let t = trim_end_loose_chars(&t);
    if t.len() == 0 {
        chars_of("Untitled")
    } else {
        t
    }
}

/// The longest prefix of `b` that fits in `limit` bytes: its length and
/// its byte count.
fn fitting_prefix(b: &Vec<char>, limit: usize) -> (r: (usize, usize))
    ensures
        r.0 <= b@.len(),
        r.1 == byte_len(b@.take(r.0 as int)),
        r.1 <= limit,
        r.0 < b@.len() ==> byte_len(b@.take(r.0 + 1)) > limit,
{
    let n = b.len();
    let mut k: usize = 0;
    let mut bytes: usize = 0;
    assert(b@.take(0) =~= Seq::<char>::empty());
    while k < n && char_width(b[k]) <= limit - bytes
        invariant
            k <= n == b@.len(),
            bytes == byte_len(b@.take(k as int)),
            bytes <= limit,
        decreases n - k,
    {
        proof {
            lemma_byte_len_take(b@, k as int);
        }
        bytes = bytes + char_width(b[k]);
        k += 1;
    }
    proof {
        if k < n {
            lemma_byte_len_take(b@, k as int);
        }
    }
    (k, bytes)
}

/// The prefix of `b` of exactly `min(byte_len(b), limit)` bytes, when one
/// exists.
fn cut_to_bytes(b: &Vec<char>, limit: usize) -> (r: Option<Vec<char>>)
    ensures
        match r {
            Some(v) => {
                &&& exists|k: int| 0 <= k <= b@.len() && byte_len(b@.take(k)) == min_nat(byte_len(b@), limit as nat)
                &&& v@ == b@.take(choose|k: int| 0 <= k <= b@.len() && byte_len(b@.take(k)) == min_nat(byte_len(b@), limit as nat))
            },
            None => !exists|k: int| 0 <= k <= b@.len() && byte_len(b@.take(k)) == min_nat(byte_len(b@), limit as nat),
        },
{
    let (k, bytes) = fitting_prefix(b, limit);
    let ghost target = min_nat(byte_len(b@), limit as nat);
    proof {
        lemma_take_full(b@);
        if k + 1 < b@.len() {
            lemma_byte_len_take_increasing(b@, k + 1, b@.len() as int);
        }
    }
    if k == b.len() || bytes == limit {
        proof {
            assert(byte_len(b@.take(k as int)) == target);
            let c = choose|c: int| 0 <= c <= b@.len() && byte_len(b@.take(c)) == target;
            if c < k {
                lemma_byte_len_take_increasing(b@, c, k as int);
            } else if c > k {
                lemma_byte_len_take_increasing(b@, k as int, c);
            }
        }
        Some(sub_chars(b, 0, k))
    } else {
        proof {
            assert(target == limit);
            assert forall|c: int| 0 <= c <= b@.len() implies byte_len(b@.take(c)) != target by {
                if c <= k {
                    if c < k {
                        lemma_byte_len_take_increasing(b@, c, k as int);
                    }
                } else {
                    if c > k + 1 {
                        lemma_byte_len_take_increasing(b@, k + 1, c);
                    }
                }
            }
        }
        None
    }
}

/// Whether `sanitize` accepts `name`: its cut falls on a character
/// boundary.
pub fn sanitize_accepts(name: &str) -> (r: bool)
    ensures
        r == can_sanitize(name@),
{
    let b = sanitize_base_chars(name);
    cut_to_bytes(&b, 150).is_some()
}

/// Makes a name safe for FAT32/exFAT: reserved and control characters
/// become `_`, surrounding white space and trailing dots go, an empty name
/// becomes `Untitled`, and the result is cut to 150 bytes, without white
/// space or a dot left at its end.
pub fn sanitize(name: &str) -> (r: String)
    requires
        can_sanitize(name@),
    ensures
        r@ == sanitized(name@),
        r@.len() > 0,
        !is_white_space(r@[0]),
        !is_loose_end(r@.last()),
        byte_len(r@) <= name_byte_limit(),
{
    let b = sanitize_base_chars(name);
    let cut = match cut_to_bytes(&b, 150) {
        Some(v) => v,
        None => {
            assert(false);
            Vec::new()
        },
    };
    let t = trim_end_loose_chars(&cut);
    let r = if t.len() == 0 {
        String::from_str("Untitled")
    } else {
        string_of(&t)
    };
    proof {
        law_sanitized_is_safe(name@);
    }
    r
}

/// A character that may stand in a name on the device.
pub open spec fn is_safe_char(c: char) -> bool {
    !is_reserved_char(c) && !is_control_code(c)
}

/// The characters of `Untitled` are safe, and it neither starts with
/// white space nor ends with white space or a dot.
proof fn lemma_untitled()
    ensures
        "Untitled"@.len() == 8,
        all_chars("Untitled"@, |c: char| is_safe_char(c)),
        !is_white_space("Untitled"@[0]),
        !is_loose_end("Untitled"@.last()),
        byte_len("Untitled"@) <= name_byte_limit(),
{
    reveal_strlit("Untitled");
    lemma_byte_len_bound("Untitled"@);
}

/// The base name is not empty, holds only safe characters, and does not
/// start with white space.
proof fn lemma_base_props(name: Seq<char>)
    ensures
        sanitize_base(name).len() > 0,
        all_chars(sanitize_base(name), |c: char| is_safe_char(c)),
        !is_white_space(sanitize_base(name)[0]),
{
    let p = |c: char| is_safe_char(c);
    let mapped = name.map_values(|c: char| clean_char(c));
    assert(all_chars(mapped, p)) by {
        assert forall|i: int| 0 <= i < mapped.len() implies p(#[trigger] mapped[i]) by {
            assert(mapped[i] == clean_char(name[i]));
        }
    }
    lemma_trim_start_keeps(mapped, p);
    let ts = trim_start_ws(mapped);
    lemma_trim_end_loose_keeps(ts, p);
    lemma_trim_start_first(mapped);
    lemma_trim_end_loose(ts);
    let t = trim_end_loose(ts);
    lemma_untitled();
    if t.len() > 0 {
        assert(t[0] == ts.take(t.len() as int)[0]);
    }
}

/// A name made safe for the device is never empty, takes at most 150
/// bytes, holds no reserved or control character, does not start with
/// white space, and ends with neither white space nor a dot.
pub proof fn law_sanitized_is_safe(name: Seq<char>)
    requires
        can_sanitize(name),
    ensures
        sanitized(name).len() > 0,
        byte_len(sanitized(name)) <= name_byte_limit(),
        forall|i: int| 0 <= i < sanitized(name).len() ==> is_safe_char(#[trigger] sanitized(name)[i]),
        !is_white_space(sanitized(name)[0]),
        !is_loose_end(sanitized(name).last()),
{
    let p = |c: char| is_safe_char(c);
    lemma_base_props(name);
    lemma_untitled();
    let b = sanitize_base(name);
    lemma_byte_len_positive(b);
    let k = choose|k: int|
        0 <= k <= b.len() && byte_len(b.take(k)) == min_nat(byte_len(b), name_byte_limit());
    let c = b.take(k);
    assert(cut_base(name) == c);
    lemma_all_chars_take(b, k, p);
    lemma_byte_len_empty(c);
    lemma_trim_end_loose(c);
    lemma_trim_end_loose_keeps(c, p);
    let t = trim_end_loose(c);
    if t.len() > 0 {
        lemma_byte_len_prefix(c, t.len() as int);
        assert(t[0] == c[0]);
        assert(c[0] == b[0]);
    }
}

/// Making a name safe twice gives what making it safe once gives.
pub proof fn law_sanitize_idempotent(name: Seq<char>)
    requires
        can_sanitize(name),
    ensures
        can_sanitize(sanitized(name)),
        sanitized(sanitized(name)) == sanitized(name),
{
    let r = sanitized(name);
    law_sanitized_is_safe(name);
    let mapped = r.map_values(|c: char| clean_char(c));
    assert(mapped =~= r) by {
        assert forall|i: int| 0 <= i < r.len() implies mapped[i] == r[i] by {
            assert(is_safe_char(r[i]));
        }
    }
    assert(trim_start_ws(r) == r);
    assert(trim_end_loose(r) == r);
    assert(sanitize_base(r) == r);
    lemma_take_full(r);
    assert(byte_len(r.take(r.len() as int)) == min_nat(byte_len(r), name_byte_limit()));
    assert(can_sanitize(r));
    let k = choose|k: int|
        0 <= k <= r.len() && byte_len(r.take(k)) == min_nat(byte_len(r), name_byte_limit());
    if k < r.len() {
        lemma_byte_len_take_increasing(r, k, r.len() as int);
    }
    assert(cut_base(r) == r);
}

/// `{:02}` of an integer: at least two characters, zero-padded after the
/// sign.
pub open spec fn two_digits(n: int) -> Seq<char> {
    if n < 0 {
        seq!['-'] + decimal((-n) as nat)
    } else if n < 10 {
        seq!['0'] + decimal(n as nat)
    } else {
        decimal(n as nat)
    }
}

/// The track number that starts a file name, such as `"03 - "`.
pub open spec fn number_prefix(track_num: Option<i32>) -> Seq<char> {
    match track_num {
        Some(n) => two_digits(n as int) + " - "@,
        None => Seq::empty(),
    }
}

/// A decimal digit character.
pub open spec fn is_digit(c: char) -> bool {
    48 <= c as u32 <= 57
}

/// The number that a string of decimal digits writes.
pub open spec fn digits_value(d: Seq<char>) -> int
    decreases d.len(),
{
    if d.len() == 0 {
        0
    } else {
        digits_value(d.drop_last()) * 10 + (d.last() as u32 - 48)
    }
}

proof fn lemma_decimal_digits(n: nat)
    ensures
        decimal(n).len() >= 1,
        forall|i: int| 0 <= i < decimal(n).len() ==> is_digit(#[trigger] decimal(n)[i]),
        digits_value(decimal(n)) == n,
        n >= 1 ==> decimal(n)[0] != '0',
        n >= 10 <==> decimal(n).len() >= 2,
    decreases n,
{
    let c = digit_char(n % 10);
    assert(c as u32 == 48 + n % 10);
    if n < 10 {
        assert(decimal(n) =~= seq![c]);
        assert(decimal(n).drop_last() =~= Seq::<char>::empty());
        assert(digits_value(Seq::<char>::empty()) == 0);
        assert(digits_value(decimal(n)) == digits_value(decimal(n).drop_last()) * 10 + (c as u32 - 48));
    } else {
        lemma_decimal_digits(n / 10);
        let d = decimal(n);
        assert(d.drop_last() =~= decimal(n / 10));
        assert(d.last() == c);
        assert((n / 10) * 10 + n % 10 == n);
        assert(digits_value(d) == digits_value(d.drop_last()) * 10 + (c as u32 - 48));
        assert forall|i: int| 0 <= i < d.len() implies is_digit(#[trigger] d[i]) by {
            if i < d.len() - 1 {
                assert(d[i] == decimal(n / 10)[i]);
            }
        }
        assert(d[0] == decimal(n / 10)[0]);
    }
}

/// The track number in a file name is written with at least two digits,
/// padded with zeros and no more: for a number from 0 on, the name starts
/// with decimal digits that write the number, two of them for numbers
/// under 10, and without a leading zero when there are more than two;
/// then `" - "`. A track without a number has no prefix.
pub proof fn law_number_prefix_two_digits(n: i32)
    ensures
        ({
            let p = number_prefix(Some(n));
            let d = p.take(p.len() - 3);
            &&& p.len() >= 5
            &&& p.skip(p.len() - 3) == " - "@
            &&& n >= 0 ==> {
                &&& forall|i: int| 0 <= i < d.len() ==> is_digit(#[trigger] d[i])
                &&& digits_value(d) == n
                &&& n < 10 ==> d.len() == 2
                &&& d.len() > 2 ==> d[0] != '0'
            }
            &&& n < 0 ==> {
                &&& d[0] == '-'
                &&& forall|i: int| 1 <= i < d.len() ==> is_digit(#[trigger] d[i])
                &&& digits_value(d.skip(1)) == -n
                &&& d.len() > 2 ==> d[1] != '0'
            }
        }),
        number_prefix(None) == Seq::<char>::empty(),
{
    reveal_strlit(" - ");
    let t = two_digits(n as int);
    let p = number_prefix(Some(n));
    assert(p.take(p.len() - 3) =~= t);
    assert(p.skip(p.len() - 3) =~= " - "@);
    if n < 0 {
        let m = (-n) as nat;
        lemma_decimal_digits(m);
        assert(t.skip(1) =~= decimal(m));
        assert forall|i: int| 1 <= i < t.len() implies is_digit(#[trigger] t[i]) by {
            assert(t[i] == decimal(m)[i - 1]);
        }
        if t.len() > 2 {
            assert(t[1] == decimal(m)[0]);
        }
    } else {
        lemma_decimal_digits(n as nat);
        if n < 10 {
            let dc = decimal(n as nat)[0];
            assert(t =~= seq!['0', dc]);
            assert(t.drop_last() =~= seq!['0']);
            assert(seq!['0'].drop_last() =~= Seq::<char>::empty());
            assert('0' as u32 == 48);
            assert(digits_value(Seq::<char>::empty()) == 0);
            assert(digits_value(seq!['0']) == 0);
            assert(digits_value(decimal(n as nat)) == dc as u32 - 48) by {
                assert(decimal(n as nat).drop_last() =~= Seq::<char>::empty());
            }
            assert(digits_value(t) == dc as u32 - 48);
            assert(is_digit(t[0]) && is_digit(t[1]));
        } else {
            assert(t == decimal(n as nat));
        }
        assert(p.len() >= 5);
        assert(digits_value(t) == n);
    }
}

fn number_prefix_chars(track_num: Option<i32>) -> (r: Vec<char>)
    ensures
        r@ == number_prefix(track_num),
{
    match track_num {
        Some(n) => {
            let mut v: Vec<char> = Vec::new();
            if n < 0 {
                v.push('-');
                let m: u64 = (-(n as i64)) as u64;
                let d = decimal_chars(m);
                extend_chars(&mut v, &d);
            } else if n < 10 {
                v.push('0');
                let d = decimal_chars(n as u64);
                extend_chars(&mut v, &d);
            } else {
                let d = decimal_chars(n as u64);
                extend_chars(&mut v, &d);
            }
            let sep = chars_of(" - ");
            extend_chars(&mut v, &sep);
            v
        },
        None => Vec::new(),
    }
}

/// The directory name for an artist or album: the name itself, or the
/// placeholder when it is empty.
pub open spec fn name_or(name: Seq<char>, placeholder: Seq<char>) -> Seq<char> {
    if name.len() == 0 {
        placeholder
    } else {
        name
    }
}

/// The names that `device_path` makes safe can all be made safe.
pub open spec fn device_path_accepts(artist: Seq<char>, album: Seq<char>, title: Seq<char>) -> bool {
    &&& can_sanitize(name_or(artist, "Unknown Artist"@))
    &&& can_sanitize(name_or(album, "Unknown Album"@))
    &&& can_sanitize(title)
}

/// Whether `device_path` accepts these names: each cut falls on a
/// character boundary.
pub fn device_path_accepted(artist: &str, album: &str, title: &str) -> (r: bool)
    ensures
        r == device_path_accepts(artist@, album@, title@),
{
    let a = if artist.is_empty() {
        sanitize_accepts("Unknown Artist")
    } else {
        sanitize_accepts(artist)
    };
    let b = if album.is_empty() {
        sanitize_accepts("Unknown Album")
    } else {
        sanitize_accepts(album)
    };
    a && b && sanitize_accepts(title)
}

/// The parts of the path of a track on the device, from the root:
/// `E:\`, `Music`, artist, album, and `{nn} - {title}.{ext}`.
pub open spec fn device_path_spec(
    letter: Seq<char>,
    artist: Seq<char>,
    album: Seq<char>,
    track_num: Option<i32>,
    title: Seq<char>,
    ext: Seq<char>,
) -> Seq<Seq<char>> {
    seq![
        trim_end_char(letter, ':') + ":\\"@,
        "Music"@,
        sanitized(name_or(artist, "Unknown Artist"@)),
        sanitized(name_or(album, "Unknown Album"@)),
        number_prefix(track_num) + sanitized(title) + "."@ + ext,
    ]
}

/// The path of a track on the device, as its parts from the root (the
/// caller joins them into a path): `{letter}:\Music\{artist}\{album}\`
/// then `{nn} - {title}.{ext}`, with every name made safe.
pub fn device_path(
    drive: &DriveInfo,
    artist: &str,
    album: &str,
    track_num: Option<i32>,
    title: &str,
    ext: &str,
) -> (r: Vec<String>)
    requires
        device_path_accepts(artist@, album@, title@),
    ensures
        r.len() == 5,
        forall|i: int|
            0 <= i < 5 ==> #[trigger] r[i]@ == device_path_spec(
                drive.letter@,
                artist@,
                album@,
                track_num,
                title@,
                ext@,
            )[i],
{
    let letter = chars_of(drive.letter.as_str());
    let mut root = trim_end_matching(&letter, ':');
    let tail = chars_of(":\\");
    extend_chars(&mut root, &tail);
    let artist_dir = if artist.is_empty() {
        sanitize("Unknown Artist")
    } else {
        sanitize(artist)
    };
    let album_dir = if album.is_empty() {
        sanitize("Unknown Album")
    } else {
        sanitize(album)
    };
    let mut file = number_prefix_chars(track_num);
    let title_clean = sanitize(title);
    let title_chars = chars_of(title_clean.as_str());
    extend_chars(&mut file, &title_chars);
    let dot = chars_of(".");
    extend_chars(&mut file, &dot);
    let ext_chars = chars_of(ext);
    extend_chars(&mut file, &ext_chars);
    let mut r: Vec<String> = Vec::new();
    r.push(string_of(&root));
    r.push(String::from_str("Music"));
    r.push(artist_dir);
    r.push(album_dir);
    r.push(string_of(&file));
    proof {
        let spec = device_path_spec(drive.letter@, artist@, album@, track_num, title@, ext@);
        assert(r[0]@ == spec[0]);
        assert(r[1]@ == spec[1]);
        assert(r[2]@ == spec[2]);
        assert(r[3]@ == spec[3]);
        assert(r[4]@ =~= spec[4]);
    }
    r
}

} // verus!
