//! Inputs and results that lie on the network: what is copied, when, and how
//! much room that takes.

use vstd::prelude::*;
use vstd::utf8::*;
use crate::codec_args::preset_number;
use crate::binary::says;
use crate::fixed::INFINITE;
use crate::outside::text_from_utf8;
use crate::path::extension_of;
use crate::path::FilePath;
use crate::settings::is_preset;
use crate::settings::is_safe;
use crate::settings::Settings;
use crate::settings::SettingsView;
use crate::text::chars_of;
use crate::text::decimal;
use crate::text::decimal_text;
use crate::text::parse_u64;
use crate::text::starts_with;
use crate::text::text_eq;
use crate::types::FileInfo;
use crate::types::InfoView;

verus! {

/// The largest input that is converted: ten gibibytes.
pub const MAX_FILE_SIZE: u64 = 10_737_418_240;

/// How much of inputs from the network is kept at a time, and the largest input
/// that is kept: 256 mebibytes.
pub const INPUT_SPOOL_TARGET_BYTES: usize = 268_435_456;

/// How much has to be free before copying goes on: 128 mebibytes.
pub const INPUT_SPOOL_LOW_WATER: usize = 134_217_728;

/// How much is copied at a time: one mebibyte.
pub const NETWORK_CHUNK_SIZE: usize = 1_048_576;

// The size of an input -------------------------------------------------------

/// Tenths of gibibytes, rounded to the nearest, and to the even one where two
/// are as near.
pub open spec fn gib_tenths(size: u64) -> int {
    let tenth = size * 10 / 1_073_741_824;
    let rest = size * 10 % 1_073_741_824;
    if rest > 536_870_912 || (rest == 536_870_912 && tenth % 2 == 1) {
        tenth + 1
    } else {
        tenth
    }
}

/// What is said of an input that is too large.
pub open spec fn oversize_message(size: u64) -> Seq<char> {
    "File size exceeds 10 GiB limit ("@ + decimal((gib_tenths(size) / 10) as nat) + "."@ + decimal(
        (gib_tenths(size) % 10) as nat,
    ) + " GiB)"@
}

/// Whether an input can be converted, by its size.
pub fn check_size(size: u64) -> (r: Result<(), String>)
    ensures
        match r {
            Ok(_) => size <= MAX_FILE_SIZE,
            Err(e) => size > MAX_FILE_SIZE && e@ == oversize_message(size),
        },
{
    if size <= MAX_FILE_SIZE {
        return Ok(());
    }
    let scaled: u128 = size as u128 * 10;
    let whole: u128 = scaled / 1_073_741_824;
    let rest: u128 = scaled % 1_073_741_824;
    let tenths: u64 = if rest > 536_870_912 || (rest == 536_870_912 && whole % 2 == 1) {
        (whole + 1) as u64
    } else {
        whole as u64
    };
    let mut message: String = "File size exceeds 10 GiB limit (".to_owned();
    let first: String = decimal_text(tenths / 10);
    message.append(first.as_str());
    message.append(".");
    let second: String = decimal_text(tenths % 10);
    message.append(second.as_str());
    message.append(" GiB)");
    Err(message)
}

// Copies of inputs -----------------------------------------------------------

/// Whether an input from the network is copied first: one that is too large is
/// read where it is.
pub fn should_cache_network_input(input_size: u64) -> (r: bool)
    ensures
        r == (input_size <= INPUT_SPOOL_TARGET_BYTES),
{
    input_size <= INPUT_SPOOL_TARGET_BYTES as u64
}

/// How little has to be kept before the next input is copied: a small one goes
/// on as soon as it fits, and a large one as soon as it fits too.
pub open spec fn resume_point(input_size: int) -> int {
    let fits = if input_size <= INPUT_SPOOL_TARGET_BYTES {
        INPUT_SPOOL_TARGET_BYTES - input_size
    } else {
        0
    };
    if input_size <= INPUT_SPOOL_TARGET_BYTES - INPUT_SPOOL_LOW_WATER && fits
        < INPUT_SPOOL_LOW_WATER {
        INPUT_SPOOL_LOW_WATER as int
    } else {
        fits
    }
}

/// How little has to be kept before an input is copied.
pub fn input_spool_resume_at(input_size: usize) -> (r: usize)
    ensures
        r == resume_point(input_size as int),
{
    let fits: usize = INPUT_SPOOL_TARGET_BYTES.saturating_sub(input_size);
    if input_size <= INPUT_SPOOL_TARGET_BYTES - INPUT_SPOOL_LOW_WATER {
        if fits < INPUT_SPOOL_LOW_WATER {
            INPUT_SPOOL_LOW_WATER
        } else {
            fits
        }
    } else {
        fits
    }
}

/// From the point where copying goes on, an input that is copied at all fits:
/// what is kept never exceeds its limit.
pub proof fn resuming_never_exceeds_the_limit(input_size: int, kept: int)
    requires
        0 <= input_size <= INPUT_SPOOL_TARGET_BYTES,
        0 <= kept <= resume_point(input_size),
    ensures
        kept + input_size <= INPUT_SPOOL_TARGET_BYTES,
{
}

/// An input fits beside what is kept.
pub open spec fn fits(kept: usize, input_size: usize) -> bool {
    kept + input_size <= INPUT_SPOOL_TARGET_BYTES
}

/// Whether an input has to wait before it is copied: as long as it does not fit.
pub fn must_wait(kept: usize, input_size: usize) -> (r: bool)
    ensures
        r == !fits(kept, input_size),
{
    kept.saturating_add(input_size) > INPUT_SPOOL_TARGET_BYTES
}

/// An input that has its turn when no more than its resume point is kept does
/// not wait.
pub proof fn the_resume_point_ends_the_wait(kept: usize, input_size: usize)
    requires
        input_size <= INPUT_SPOOL_TARGET_BYTES,
        kept <= resume_point(input_size as int),
    ensures
        fits(kept, input_size),
{
    resuming_never_exceeds_the_limit(input_size as int, kept as int);
}

/// Why an input is not copied.
#[derive(Debug, Clone, Copy, PartialEq, Eq, Structural)]
pub enum CopyRefusal {
    TooLarge,
    Cancelled,
    NoSpace,
}

pub open spec fn refusal_text(refusal: CopyRefusal) -> Seq<char> {
    match refusal {
        CopyRefusal::TooLarge => "network input exceeds the cache threshold"@,
        CopyRefusal::Cancelled => "conversion cancelled"@,
        CopyRefusal::NoSpace => "not enough temporary disk space to cache network input"@,
    }
}

/// What is said of an input that is not copied.
pub fn refusal_message(refusal: CopyRefusal) -> (r: String)
    ensures
        r@ == refusal_text(refusal),
{
    match refusal {
        CopyRefusal::TooLarge => "network input exceeds the cache threshold".to_owned(),
        CopyRefusal::Cancelled => "conversion cancelled".to_owned(),
        CopyRefusal::NoSpace => "not enough temporary disk space to cache network input".to_owned(),
    }
}

/// The size of an input that is to be copied, or why it is not.
pub fn copy_size(input_size: u64) -> (r: Result<usize, CopyRefusal>)
    ensures
        match r {
            Ok(size) => input_size <= INPUT_SPOOL_TARGET_BYTES && size == input_size,
            Err(refusal) => input_size > INPUT_SPOOL_TARGET_BYTES && refusal
                == CopyRefusal::TooLarge,
        },
{
    if should_cache_network_input(input_size) {
        Ok(input_size as usize)
    } else {
        Err(CopyRefusal::TooLarge)
    }
}

/// Whether there is room on the disk for an input that has its turn.
pub fn may_copy(input_size: u64, available: u64) -> (r: Result<(), CopyRefusal>)
    ensures
        r == (if available < input_size {
            Err::<(), CopyRefusal>(CopyRefusal::NoSpace)
        } else {
            Ok(())
        }),
{
    if available < input_size {
        Err(CopyRefusal::NoSpace)
    } else {
        Ok(())
    }
}

/// The extension of the copy of an input: its own, where it can be read.
pub fn cache_extension(input: &FilePath) -> (r: String)
    ensures
        r@ == (match extension_of(input@) {
            Some(ext) => if valid_utf8(ext) {
                decode_utf8(ext)
            } else {
                "media"@
            },
            None => "media"@,
        }),
{
    match input.extension() {
        Some(ext) => match text_from_utf8(&ext) {
            Some(text) => text,
            None => "media".to_owned(),
        },
        None => "media".to_owned(),
    }
}

// Room for results -----------------------------------------------------------

pub open spec fn saturated(x: int) -> int {
    if x > u64::MAX {
        u64::MAX as int
    } else {
        x
    }
}

/// The bits per second that a result is expected to take at most.
pub open spec fn expected_rate(format: Seq<char>, s: SettingsView, info: InfoView) -> int {
    let input_rate = if info.bit_rate_bps > 1_536_000 {
        info.bit_rate_bps as int
    } else {
        1_536_000
    };
    if format == "mp3"@ {
        if s.mp3_preset == "custom"@ && s.mp3_mode == "vbr"@ {
            320_000
        } else if s.mp3_preset == "custom"@ {
            s.mp3_bitrate * 1000
        } else {
            preset_number(s.mp3_preset, u64::MAX as nat, 192) as int * 1000
        }
    } else if format == "aac"@ {
        if s.aac_preset == "custom"@ {
            s.m4a_bitrate * 1000
        } else {
            preset_number(s.aac_preset, u64::MAX as nat, 128) as int * 1000
        }
    } else if format == "opus"@ {
        if s.opus_preset == "custom"@ {
            s.opus_bitrate * 1000
        } else {
            preset_number(s.opus_preset, u64::MAX as nat, 128) as int * 1000
        }
    } else if format == "flac"@ || format == "alac"@ {
        saturated(input_rate * 2)
    } else if format == "wav"@ || format == "aiff"@ {
        3_072_000
    } else {
        input_rate
    }
}

/// The length of an input that counts for its result: at least a second, and that
/// where the length is not a number.
pub open spec fn counted_us(duration_us: i64) -> int {
    if duration_us < 1_000_000 {
        1_000_000
    } else {
        duration_us as int
    }
}

/// The bytes that a result is expected to take at most: a quarter more than its
/// rate, and sixteen mebibytes for short ones.
pub open spec fn expected_bytes(rate: int, duration_us: i64) -> int {
    if duration_us == INFINITE && rate > 0 {
        u64::MAX as int
    } else {
        saturated(saturated(counted_us(duration_us) * rate * 5 / 32_000_000) + 16_777_216)
    }
}

fn preset_u64(preset: &str, fallback: u64) -> (r: u64)
    ensures
        r == preset_number(preset@, u64::MAX as nat, fallback as nat),
{
    match parse_u64(preset) {
        Some(n) => n,
        None => fallback,
    }
}

/// The bytes that a result is expected to take at most.
pub fn estimate_output_bytes(format: &str, settings: &Settings, info: &FileInfo) -> (r: u64)
    requires
        expected_rate(format@, settings@, info@) <= u64::MAX,
    ensures
        r == expected_bytes(expected_rate(format@, settings@, info@), info@.duration_us),
{
    let input_rate: u64 = if info.bit_rate_bps > 1_536_000 {
        info.bit_rate_bps
    } else {
        1_536_000
    };
    let rate: u64 = if text_eq(format, "mp3") {
        if text_eq(settings.mp3_preset.as_str(), "custom") {
            if text_eq(settings.mp3_mode.as_str(), "vbr") {
                320_000
            } else {
                settings.mp3_bitrate as u64 * 1000
            }
        } else {
            preset_u64(settings.mp3_preset.as_str(), 192) * 1000
        }
    } else if text_eq(format, "aac") {
        if text_eq(settings.aac_preset.as_str(), "custom") {
            settings.m4a_bitrate as u64 * 1000
        } else {
            preset_u64(settings.aac_preset.as_str(), 128) * 1000
        }
    } else if text_eq(format, "opus") {
        if text_eq(settings.opus_preset.as_str(), "custom") {
            settings.opus_bitrate as u64 * 1000
        } else {
            preset_u64(settings.opus_preset.as_str(), 128) * 1000
        }
    } else if text_eq(format, "flac") || text_eq(format, "alac") {
        input_rate.saturating_add(input_rate)
    } else if text_eq(format, "wav") || text_eq(format, "aiff") {
        3_072_000
    } else {
        input_rate
    };
    if info.duration_us == INFINITE && rate > 0 {
        return u64::MAX;
    }
    let us: u64 = if info.duration_us < 1_000_000 {
        1_000_000
    } else {
        info.duration_us as u64
    };
    let ghost exact = us * rate * 5 / 32_000_000;
    assert(us * rate <= 0x7fff_ffff_ffff_ffff * 0xffff_ffff_ffff_ffff) by (nonlinear_arith)
        requires
            0 <= us <= 0x7fff_ffff_ffff_ffff,
            0 <= rate <= 0xffff_ffff_ffff_ffff,
    ;
    let product: u128 = us as u128 * rate as u128;
    let bytes: u64 = if product > u128::MAX / 5 {
        u64::MAX
    } else {
        let share: u128 = product * 5 / 32_000_000;
        if share > u64::MAX as u128 {
            u64::MAX
        } else {
            share as u64
        }
    };
    bytes.saturating_add(16_777_216)
}

/// A longer input is expected to take no less room.
pub proof fn longer_inputs_take_no_less(rate: int, shorter: i64, longer: i64)
    requires
        0 <= rate,
        shorter <= longer,
    ensures
        expected_bytes(rate, shorter) <= expected_bytes(rate, longer),
{
    let a = counted_us(shorter);
    let b = counted_us(longer);
    assert(a * rate * 5 <= b * rate * 5) by (nonlinear_arith)
        requires
            a <= b,
            0 <= rate,
    ;
}

/// Settings that were validated ask for rates that can be counted.
pub proof fn validated_rates_can_be_counted(format: Seq<char>, s: SettingsView, info: InfoView)
    requires
        is_safe(s),
    ensures
        0 <= expected_rate(format, s, info) <= u64::MAX,
{
    lemma_safe_preset(s.mp3_preset, 128, 320, 192);
    lemma_safe_preset(s.aac_preset, 64, 256, 128);
    lemma_safe_preset(s.opus_preset, 16, 320, 128);
}

proof fn lemma_safe_preset(preset: Seq<char>, lo: nat, hi: nat, fallback: nat)
    requires
        is_preset(preset, lo, hi),
        hi <= 1000,
        fallback <= 1000,
    ensures
        preset_number(preset, u64::MAX as nat, fallback) <= 1000 || preset == "custom"@,
{
}

/// The room for results that was promised.
#[derive(Debug)]
pub struct OutputSpoolCapacity {
    pub reserved: u64,
}

/// Room that was promised to a result.
#[derive(Debug)]
pub struct OutputReservation {
    pub bytes: u64,
}

impl OutputSpoolCapacity {
    pub fn new() -> (r: Self)
        ensures
            r.reserved == 0,
    {
        OutputSpoolCapacity { reserved: 0 }
    }

    /// Promises room, if there is enough beside what was promised. What results
    /// take already is no longer free, and is counted once only.
    pub fn try_reserve(&mut self, bytes: u64, available: u64, taken: u64) -> (r: Option<
        OutputReservation,
    >)
        ensures
            if has_room(old(self).reserved, bytes, available, taken) {
                &&& r == Some(OutputReservation { bytes })
                &&& final(self).reserved == saturated(old(self).reserved + bytes)
            } else {
                &&& r is None
                &&& final(self).reserved == old(self).reserved
            },
    {
        let wanted: u64 = self.reserved.saturating_add(bytes);
        if available.saturating_add(taken) >= wanted {
            self.reserved = wanted;
            Some(OutputReservation { bytes })
        } else {
            None
        }
    }
}

impl OutputReservation {
    /// Gives the room back.
    pub fn release(self, capacity: &mut OutputSpoolCapacity)
        ensures
            final(capacity).reserved == (if old(capacity).reserved >= self.bytes {
                old(capacity).reserved - self.bytes
            } else {
                0
            }),
    {
        capacity.reserved = capacity.reserved.saturating_sub(self.bytes);
    }
}

/// Room that was reserved is free again once it is released.
pub proof fn a_reservation_is_undone(reserved: u64, bytes: u64)
    requires
        reserved + bytes <= u64::MAX,
    ensures
        saturated(reserved + bytes) - bytes == reserved,
{
}

// What lies on the network ---------------------------------------------------

/// What is known of where a path lies.
#[derive(Debug, Clone, Copy, PartialEq, Eq, Structural)]
pub enum Mount {
    /// Nothing could be learnt.
    Unknown,
    /// The type of the file system, as Linux numbers it.
    LinuxType(u64),
    /// Whether macOS calls the file system local.
    MacLocal(bool),
    /// A share of a server, as Windows writes it.
    WindowsShare,
    /// The type of the drive, as Windows numbers it.
    WindowsDrive(u32),
}

/// A path that lies on the network: on NFS or one of the forms of SMB, on a file
/// system that is not local, on a share or on a remote drive.
pub open spec fn is_remote(mount: Mount) -> bool {
    match mount {
        Mount::Unknown => false,
        Mount::LinuxType(t) => t == 0x6969 || t == 0xFF534D42 || t == 0xFE534D42 || t == 0x517B,
        Mount::MacLocal(local) => !local,
        Mount::WindowsShare => true,
        Mount::WindowsDrive(t) => t == 4,
    }
}

/// Whether a path lies on the network, from what is known of where it lies.
pub fn is_path_on_network(mount: Mount) -> (r: bool)
    ensures
        r == is_remote(mount),
{
    match mount {
        Mount::Unknown => false,
        Mount::LinuxType(t) => t == 0x6969 || t == 0xFF534D42 || t == 0xFE534D42 || t == 0x517B,
        Mount::MacLocal(local) => !local,
        Mount::WindowsShare => true,
        Mount::WindowsDrive(t) => t == 4,
    }
}

pub open spec fn is_letter(c: char) -> bool {
    'a' <= c <= 'z' || 'A' <= c <= 'Z'
}

pub open spec fn upper_letter(c: char) -> char {
    if 'a' <= c <= 'z' {
        ((c as u32 - 32) as u32) as char
    } else {
        c
    }
}

/// The drive that a path starts with.
pub open spec fn drive_letter(path: Seq<char>) -> Option<char> {
    if path.len() >= 2 && is_letter(path[0]) && path[1] == ':' {
        Some(upper_letter(path[0]))
    } else {
        None
    }
}

/// What a path says of where it lies, as Windows writes it.
#[derive(Debug, Clone, Copy, PartialEq, Eq, Structural)]
pub enum WindowsPlace {
    Share,
    /// A drive, whose type is to be asked for.
    Drive(char),
    Other,
}

/// What a path says of where it lies, as Windows writes it.
pub fn windows_place(path: &str) -> (r: WindowsPlace)
    ensures
        r == (if "\\\\"@.is_prefix_of(path@) {
            WindowsPlace::Share
        } else {
            match drive_letter(path@) {
                Some(letter) => WindowsPlace::Drive(letter),
                None => WindowsPlace::Other,
            }
        }),
{
    if starts_with(path, "\\\\") {
        return WindowsPlace::Share;
    }
    let chars: Vec<char> = chars_of(path);
    if chars.len() >= 2 && chars[1] == ':' {
        let c: char = chars[0];
        if 'a' <= c && c <= 'z' {
            return WindowsPlace::Drive((c as u8 - 32) as char);
        }
        if 'A' <= c && c <= 'Z' {
            return WindowsPlace::Drive(c);
        }
    }
    WindowsPlace::Other
}

/// Whether a path lies on the network, as Windows writes it, where the types of
/// drives can be asked for.
pub fn is_windows_path_on_network<D: Fn(char) -> u32>(path: &str, drive_type: &D) -> (r: bool)
    requires
        forall|c: char| drive_type.requires((c,)),
    ensures
        if "\\\\"@.is_prefix_of(path@) {
            r
        } else {
            match drive_letter(path@) {
                Some(letter) => exists|t: u32|
                    #[trigger] drive_type.ensures((letter,), t) && r == is_remote(
                        Mount::WindowsDrive(t),
                    ),
                None => !r,
            }
        },
{
    match windows_place(path) {
        WindowsPlace::Share => is_path_on_network(Mount::WindowsShare),
        WindowsPlace::Drive(letter) => {
            let t: u32 = drive_type(letter);
            is_path_on_network(Mount::WindowsDrive(t))
        },
        WindowsPlace::Other => false,
    }
}

/// Whether one of the paths lies on the network. The paths are asked about in
/// order, up to the first that does.
pub fn has_network_input<N: Fn(&str) -> bool>(paths: &Vec<String>, on_network: &N) -> (r: bool)
    requires
        forall|p: &str| on_network.requires((p,)),
    ensures
        if r {
            exists|i: int|
                0 <= i < paths@.len() && says(*on_network, (#[trigger] paths@[i])@, true)
        } else {
            forall|i: int|
                0 <= i < paths@.len() ==> says(*on_network, (#[trigger] paths@[i])@, false)
        },
{
    let mut i: usize = 0;
    while i < paths.len()
        invariant
            i <= paths@.len(),
            forall|p: &str| on_network.requires((p,)),
            forall|k: int| 0 <= k < i ==> says(*on_network, (#[trigger] paths@[k])@, false),
        decreases paths@.len() - i,
    {
        let path: &str = paths[i].as_str();
        let answer: bool = on_network(path);
        assert(says(*on_network, paths@[i as int]@, answer));
        if answer {
            return true;
        }
        i = i + 1;
    }
    false
}

// Limits, and what is expected -----------------------------------------------

/// There is room for a result beside what was promised: what is free, and what
/// results take already, is no less than what was promised and what is wanted.
pub open spec fn has_room(reserved: u64, bytes: u64, available: u64, taken: u64) -> bool {
    saturated(available + taken) >= saturated(reserved + bytes)
}

/// Room is promised exactly where what was promised and what is wanted do not
/// exceed what is free and what results take already, unless numbers that large
/// cannot be told apart.
pub proof fn no_more_is_promised_than_there_is(reserved: u64, bytes: u64, available: u64, taken: u64)
    requires
        available + taken < u64::MAX,
    ensures
        has_room(reserved, bytes, available, taken) <==> reserved + bytes <= available + taken,
{
}

/// A file may have ten times two to the thirty bytes; a copy of an input may have
/// a fortieth of that, and what is kept of copies goes down to half of that before
/// a large one is added; data is copied by two to the twenty bytes at a time.
pub proof fn limits_are_what_they_are_called()
    ensures
        MAX_FILE_SIZE == 10 * 1024 * 1024 * 1024,
        INPUT_SPOOL_TARGET_BYTES == 256 * 1024 * 1024,
        INPUT_SPOOL_LOW_WATER * 2 == INPUT_SPOOL_TARGET_BYTES,
        NETWORK_CHUNK_SIZE == 1024 * 1024,
{
}

/// The size that a file is said to have is rounded to the next tenth.
pub proof fn sizes_are_rounded(size: u64)
    ensures
        2 * (gib_tenths(size) * 1_073_741_824 - size * 10) <= 1_073_741_824,
        2 * (size * 10 - gib_tenths(size) * 1_073_741_824) <= 1_073_741_824,
        oversize_message(size) == "File size exceeds 10 GiB limit ("@ + decimal(
            (gib_tenths(size) / 10) as nat,
        ) + "."@ + decimal((gib_tenths(size) % 10) as nat) + " GiB)"@,
{
}

/// A copy is made as soon as it fits beside what is kept, and no sooner: with one
/// byte more it would not fit.
pub proof fn waiting_ends_when_a_copy_fits(input_size: usize, kept: usize)
    requires
        input_size <= INPUT_SPOOL_TARGET_BYTES,
    ensures
        kept <= resume_point(input_size as int) <==> fits(kept, input_size),
        fits(kept, input_size) <==> kept + input_size <= 256 * 1024 * 1024,
{
}

/// The rate that a result is expected to have is the one that the codec is asked
/// for, in bits: the number of the settings, or that of the preset, by a thousand.
pub proof fn the_expected_rate_is_the_one_asked_for(s: SettingsView, info: InfoView, n: nat)
    ensures
        s.mp3_preset == "custom"@ && s.mp3_mode != "vbr"@ ==> expected_rate("mp3"@, s, info)
            == 1000 * s.mp3_bitrate,
        s.mp3_preset == "custom"@ && s.mp3_mode == "vbr"@ ==> expected_rate("mp3"@, s, info)
            == 320_000,
        s.aac_preset == "custom"@ ==> expected_rate("aac"@, s, info) == 1000 * s.m4a_bitrate,
        s.opus_preset == "custom"@ ==> expected_rate("opus"@, s, info) == 1000 * s.opus_bitrate,
        n <= u64::MAX && s.mp3_preset == decimal(n) ==> expected_rate("mp3"@, s, info) == 1000 * n,
        n <= u64::MAX && s.aac_preset == decimal(n) ==> expected_rate("aac"@, s, info) == 1000 * n,
        n <= u64::MAX && s.opus_preset == decimal(n) ==> expected_rate("opus"@, s, info) == 1000
            * n,
        expected_rate("wav"@, s, info) == 48_000 * 2 * 32,
        expected_rate("aiff"@, s, info) == 48_000 * 2 * 32,
        expected_rate("flac"@, s, info) >= 2 * 1_536_000,
        info.bit_rate_bps >= 1_536_000 && info.bit_rate_bps * 2 <= u64::MAX ==> expected_rate(
            "flac"@,
            s,
            info,
        ) == 2 * info.bit_rate_bps,
        expected_rate("alac"@, s, info) == expected_rate("flac"@, s, info),
{
    crate::text::a_written_number_reads_back(n, u64::MAX as nat);
    crate::text::numbers_are_written_in_tens(n);
    reveal_strlit("custom");
    reveal_strlit("mp3");
    reveal_strlit("aac");
    reveal_strlit("opus");
    reveal_strlit("flac");
    reveal_strlit("alac");
    reveal_strlit("wav");
    reveal_strlit("aiff");
    assert(crate::text::is_digit(decimal(n)[0]));
    assert("custom"@[0] == 'c');
    assert("mp3"@[0] == 'm' && "aac"@[0] == 'a' && "wav"@[0] == 'w' && "mp3"@.len() == 3
        && "aac"@.len() == 3 && "wav"@.len() == 3);
    assert("opus"@[0] == 'o' && "flac"@[0] == 'f' && "alac"@[1] == 'l' && "aiff"@[1] == 'i'
        && "alac"@[0] == 'a' && "aiff"@[0] == 'a' && "opus"@.len() == 4 && "flac"@.len() == 4
        && "alac"@.len() == 4 && "aiff"@.len() == 4);
}

/// The room that a result is expected to take is a quarter more than its rate
/// gives for its length, and sixteen times two to the twenty bytes; what is shorter
/// than a second counts as a second.
pub proof fn a_quarter_more_is_expected(rate: int, duration_us: i64)
    requires
        0 <= rate,
        0 <= duration_us < INFINITE,
        duration_us * rate * 5 < 100_000_000_000_000_000_000,
        rate < 1_000_000_000_000,
    ensures
        ({
            let us = if duration_us < 1_000_000 {
                1_000_000
            } else {
                duration_us as int
            };
            let room = expected_bytes(rate, duration_us) - 16 * 1024 * 1024;
            room * 32_000_000 <= us * rate * 5 && us * rate * 5 < (room + 1) * 32_000_000
        }),
{
    let us = counted_us(duration_us);
    let whole = us * rate * 5;
    assert(0 <= whole < 100_000_000_000_000_000_000) by (nonlinear_arith)
        requires
            us == 1_000_000 || us == duration_us,
            us >= 0,
            0 <= rate < 1_000_000_000_000,
            duration_us * rate * 5 < 100_000_000_000_000_000_000,
            whole == us * rate * 5,
    ;
}

/// A share of a server, and a drive or a file system that is one, lies on the
/// network; what nothing is known of does not.
pub proof fn shares_lie_on_the_network(t: u64, d: u32)
    ensures
        is_remote(Mount::WindowsShare),
        !is_remote(Mount::Unknown),
        is_remote(Mount::MacLocal(false)) && !is_remote(Mount::MacLocal(true)),
        is_remote(Mount::WindowsDrive(d)) <==> d == 4,
        is_remote(Mount::LinuxType(t)) <==> t == 0x6969 || t == 0x517B || t == 0xFF534D42 || t
            == 0xFE534D42,
{
}

/// The drive of a path is the letter in front of its colon, as a capital; a path
/// without one is on no drive.
pub proof fn a_drive_is_a_letter_and_a_colon(letter: char, rest: Seq<char>, path: Seq<char>)
    ensures
        'A' <= letter <= 'Z' ==> drive_letter(seq![letter, ':'] + rest) == Some(letter),
        drive_letter(seq!['c', ':'] + rest) == Some('C'),
        drive_letter(seq!['z', ':'] + rest) == Some('Z'),
        path.len() < 2 || path[1] != ':' ==> drive_letter(path) is None,
{
}

} // verus!
