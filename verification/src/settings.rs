//! What the user can choose, and the limits that each choice is kept within.

use vstd::prelude::*;
use crate::text::decimal;
use crate::text::clone_opt_text;
use crate::text::clone_texts;
use crate::text::digits_value;
use crate::text::opt_text;
use crate::text::parse_u32;
use crate::text::text_eq;
use crate::text::texts;
use crate::text::unsigned_upto;

verus! {

/// Where results go.
#[derive(Debug, Clone, Copy, PartialEq, Eq, Structural)]
pub enum OutputDest {
    SourceFolder,
    Desktop,
    Downloads,
    Custom,
}

/// What becomes of a source once it is converted.
#[derive(Debug, Clone, Copy, PartialEq, Eq, Structural)]
pub enum SourceFileAction {
    Keep,
    Delete,
}

/// What happens where a result would take a name that is taken.
#[derive(Debug, Clone, Copy, PartialEq, Eq, Structural)]
pub enum NameConflict {
    ConfirmDialog,
    AutoRename,
    ForceOverwrite,
}

pub fn default_mp3_preset() -> (r: String)
    ensures
        r@ == "192"@,
{
    "192".to_owned()
}

pub fn default_mp3_mode() -> (r: String)
    ensures
        r@ == "cbr"@,
{
    "cbr".to_owned()
}

pub fn default_mp3_channel_mode() -> (r: String)
    ensures
        r@ == "joint_stereo"@,
{
    "joint_stereo".to_owned()
}

pub fn default_aac_preset() -> (r: String)
    ensures
        r@ == "128"@,
{
    "128".to_owned()
}

pub fn default_aac_mode() -> (r: String)
    ensures
        r@ == "cbr"@,
{
    "cbr".to_owned()
}

pub fn default_opus_preset() -> (r: String)
    ensures
        r@ == "128"@,
{
    "128".to_owned()
}

pub fn default_opus_mode() -> (r: String)
    ensures
        r@ == "vbr"@,
{
    "vbr".to_owned()
}

pub fn default_flac_preset() -> (r: String)
    ensures
        r@ == "5"@,
{
    "5".to_owned()
}

pub fn default_last_mode() -> (r: String)
    ensures
        r@ == "encode"@,
{
    "encode".to_owned()
}

pub fn default_last_format() -> (r: String)
    ensures
        r@ == "mp3"@,
{
    "mp3".to_owned()
}

pub fn default_last_decode_format() -> (r: String)
    ensures
        r@ == "wav"@,
{
    "wav".to_owned()
}

pub fn default_mp3_bitrate() -> (r: u32)
    ensures
        r == 192,
{
    192
}

pub fn default_mp3_vbr_quality() -> (r: u32)
    ensures
        r == 4,
{
    4
}

pub fn default_m4a_bitrate() -> (r: u32)
    ensures
        r == 128,
{
    128
}

pub fn default_aac_vbr_quality() -> (r: u32)
    ensures
        r == 4,
{
    4
}

pub fn default_opus_bitrate() -> (r: u32)
    ensures
        r == 128,
{
    128
}

pub fn default_opus_complexity() -> (r: u32)
    ensures
        r == 5,
{
    5
}

pub fn default_flac_compression() -> (r: u8)
    ensures
        r == 5,
{
    5
}

pub fn default_alac_bit_depth() -> (r: u32)
    ensures
        r == 16,
{
    16
}

pub fn default_silence_trim_db() -> (r: i64)
    ensures
        r == (-80_000_000),
{
    -80_000_000
}

pub fn default_silence_trim_duration_ms() -> (r: u32)
    ensures
        r == 50,
{
    50
}

pub fn default_clear_log_on_convert() -> (r: bool)
    ensures
        r == true,
{
    true
}

pub fn default_auto_open_activity() -> (r: bool)
    ensures
        r == false,
{
    false
}

pub fn default_enabled_formats() -> (r: Vec<String>)
    ensures
        texts(r@) == seq!["mp3"@, "aac"@, "flac"@],
{
    let mut r: Vec<String> = Vec::new();
    r.push("mp3".to_owned());
    r.push("aac".to_owned());
    r.push("flac".to_owned());
    assert(texts(r@) =~= seq!["mp3"@, "aac"@, "flac"@]);
    r
}

pub fn default_enabled_decode_formats() -> (r: Vec<String>)
    ensures
        texts(r@) == seq!["wav"@, "aiff"@],
{
    let mut r: Vec<String> = Vec::new();
    r.push("wav".to_owned());
    r.push("aiff".to_owned());
    assert(texts(r@) =~= seq!["wav"@, "aiff"@]);
    r
}

/// One less than the processors, four where their number is unknown; at least
/// one.
pub open spec fn parallel_count(processors: Option<usize>) -> usize {
    match processors {
        Some(n) => if n <= 2 {
            1
        } else {
            (n - 1) as usize
        },
        None => 3,
    }
}

/// How many files are converted at a time on a machine with that many
/// processors.
pub fn calc_parallel_count(processors: Option<usize>) -> (r: usize)
    ensures
        r == parallel_count(processors),
        r >= 1,
{
    let count: usize = match processors {
        Some(n) => n,
        None => 4,
    };
    if count <= 2 {
        1
    } else {
        count - 1
    }
}

/// The settings of the program.
#[derive(Debug)]
pub struct Settings {
    /// Where results go.
    pub output_dest: OutputDest,
    /// What becomes of a source once it is converted.
    pub source_file_action: SourceFileAction,
    /// What happens where a result would take a name that is taken.
    pub name_conflict: NameConflict,
    pub mp3_preset: String,
    pub mp3_mode: String,
    pub mp3_bitrate: u32,
    pub mp3_vbr_quality: u32,
    /// Zero stands for the rate of the input.
    pub mp3_sample_rate: u32,
    pub mp3_channel_mode: String,
    pub aac_preset: String,
    pub aac_mode: String,
    pub m4a_bitrate: u32,
    pub aac_vbr_quality: u32,
    /// Zero stands for the rate of the input.
    pub aac_sample_rate: u32,
    /// Zero stands for the channels of the input.
    pub aac_channels: u32,
    pub opus_preset: String,
    pub opus_mode: String,
    pub opus_bitrate: u32,
    pub opus_complexity: u32,
    pub flac_preset: String,
    pub flac_compression: u8,
    pub alac_preset: String,
    pub alac_bit_depth: u32,
    /// How many files are converted at a time; computed when the program starts and never saved.
    pub parallel_count: usize,
    /// Whether the results are shown in the file manager.
    pub open_in_finder: bool,
    pub last_mode: String,
    pub last_format: String,
    pub last_decode_format: String,
    /// The directory for `OutputDest::Custom`.
    pub custom_output_path: Option<String>,
    /// Whether the folders of the sources are kept below the output directory.
    pub preserve_folder_structure: bool,
    pub language: String,
    pub enabled_formats: Vec<String>,
    pub enabled_decode_formats: Vec<String>,
    pub silence_trim_enabled: bool,
    /// The level below which sound counts as silence, in millionths of a decibel.
    pub silence_trim_db: i64,
    /// How long silence has to last to count, in milliseconds.
    pub silence_trim_duration_ms: u32,
    pub clear_log_on_convert: bool,
    pub auto_open_activity: bool,
    /// Whether every audio track of an input becomes a file of its own.
    pub export_all_audio_tracks: bool,
}

/// What the settings hold.
#[verifier::ext_equal]
pub struct SettingsView {
    pub output_dest: OutputDest,
    pub source_file_action: SourceFileAction,
    pub name_conflict: NameConflict,
    pub mp3_preset: Seq<char>,
    pub mp3_mode: Seq<char>,
    pub mp3_bitrate: u32,
    pub mp3_vbr_quality: u32,
    pub mp3_sample_rate: u32,
    pub mp3_channel_mode: Seq<char>,
    pub aac_preset: Seq<char>,
    pub aac_mode: Seq<char>,
    pub m4a_bitrate: u32,
    pub aac_vbr_quality: u32,
    pub aac_sample_rate: u32,
    pub aac_channels: u32,
    pub opus_preset: Seq<char>,
    pub opus_mode: Seq<char>,
    pub opus_bitrate: u32,
    pub opus_complexity: u32,
    pub flac_preset: Seq<char>,
    pub flac_compression: u8,
    pub alac_preset: Seq<char>,
    pub alac_bit_depth: u32,
    pub parallel_count: usize,
    pub open_in_finder: bool,
    pub last_mode: Seq<char>,
    pub last_format: Seq<char>,
    pub last_decode_format: Seq<char>,
    pub custom_output_path: Option<Seq<char>>,
    pub preserve_folder_structure: bool,
    pub language: Seq<char>,
    pub enabled_formats: Seq<Seq<char>>,
    pub enabled_decode_formats: Seq<Seq<char>>,
    pub silence_trim_enabled: bool,
    pub silence_trim_db: i64,
    pub silence_trim_duration_ms: u32,
    pub clear_log_on_convert: bool,
    pub auto_open_activity: bool,
    pub export_all_audio_tracks: bool,
}

impl View for Settings {
    type V = SettingsView;

    open spec fn view(&self) -> SettingsView {
        SettingsView {
            output_dest: self.output_dest,
            source_file_action: self.source_file_action,
            name_conflict: self.name_conflict,
            mp3_preset: self.mp3_preset@,
            mp3_mode: self.mp3_mode@,
            mp3_bitrate: self.mp3_bitrate,
            mp3_vbr_quality: self.mp3_vbr_quality,
            mp3_sample_rate: self.mp3_sample_rate,
            mp3_channel_mode: self.mp3_channel_mode@,
            aac_preset: self.aac_preset@,
            aac_mode: self.aac_mode@,
            m4a_bitrate: self.m4a_bitrate,
            aac_vbr_quality: self.aac_vbr_quality,
            aac_sample_rate: self.aac_sample_rate,
            aac_channels: self.aac_channels,
            opus_preset: self.opus_preset@,
            opus_mode: self.opus_mode@,
            opus_bitrate: self.opus_bitrate,
            opus_complexity: self.opus_complexity,
            flac_preset: self.flac_preset@,
            flac_compression: self.flac_compression,
            alac_preset: self.alac_preset@,
            alac_bit_depth: self.alac_bit_depth,
            parallel_count: self.parallel_count,
            open_in_finder: self.open_in_finder,
            last_mode: self.last_mode@,
            last_format: self.last_format@,
            last_decode_format: self.last_decode_format@,
            custom_output_path: opt_text(self.custom_output_path),
            preserve_folder_structure: self.preserve_folder_structure,
            language: self.language@,
            enabled_formats: texts(self.enabled_formats@),
            enabled_decode_formats: texts(self.enabled_decode_formats@),
            silence_trim_enabled: self.silence_trim_enabled,
            silence_trim_db: self.silence_trim_db,
            silence_trim_duration_ms: self.silence_trim_duration_ms,
            clear_log_on_convert: self.clear_log_on_convert,
            auto_open_activity: self.auto_open_activity,
            export_all_audio_tracks: self.export_all_audio_tracks,
        }
    }
}

/// The settings of a fresh installation.
pub open spec fn default_settings(processors: Option<usize>) -> SettingsView {
    SettingsView {
        output_dest: OutputDest::SourceFolder,
        source_file_action: SourceFileAction::Keep,
        name_conflict: NameConflict::AutoRename,
        mp3_preset: "192"@,
        mp3_mode: "cbr"@,
        mp3_bitrate: 192,
        mp3_vbr_quality: 4,
        mp3_sample_rate: 0,
        mp3_channel_mode: "joint_stereo"@,
        aac_preset: "128"@,
        aac_mode: "cbr"@,
        m4a_bitrate: 128,
        aac_vbr_quality: 4,
        aac_sample_rate: 0,
        aac_channels: 0,
        opus_preset: "128"@,
        opus_mode: "vbr"@,
        opus_bitrate: 128,
        opus_complexity: 5,
        flac_preset: "5"@,
        flac_compression: 5,
        alac_preset: seq![],
        alac_bit_depth: 16,
        parallel_count: parallel_count(processors),
        open_in_finder: false,
        last_mode: "encode"@,
        last_format: "mp3"@,
        last_decode_format: "wav"@,
        custom_output_path: None,
        preserve_folder_structure: false,
        language: seq![],
        enabled_formats: seq!["mp3"@, "aac"@, "flac"@],
        enabled_decode_formats: seq!["wav"@, "aiff"@],
        silence_trim_enabled: false,
        silence_trim_db: (-80_000_000) as i64,
        silence_trim_duration_ms: 50,
        clear_log_on_convert: true,
        auto_open_activity: false,
        export_all_audio_tracks: false,
    }
}

impl Clone for Settings {
    fn clone(&self) -> (r: Self)
        ensures
            r@ == self@,
    {
        Settings {
            output_dest: self.output_dest,
            source_file_action: self.source_file_action,
            name_conflict: self.name_conflict,
            mp3_preset: self.mp3_preset.clone(),
            mp3_mode: self.mp3_mode.clone(),
            mp3_bitrate: self.mp3_bitrate,
            mp3_vbr_quality: self.mp3_vbr_quality,
            mp3_sample_rate: self.mp3_sample_rate,
            mp3_channel_mode: self.mp3_channel_mode.clone(),
            aac_preset: self.aac_preset.clone(),
            aac_mode: self.aac_mode.clone(),
            m4a_bitrate: self.m4a_bitrate,
            aac_vbr_quality: self.aac_vbr_quality,
            aac_sample_rate: self.aac_sample_rate,
            aac_channels: self.aac_channels,
            opus_preset: self.opus_preset.clone(),
            opus_mode: self.opus_mode.clone(),
            opus_bitrate: self.opus_bitrate,
            opus_complexity: self.opus_complexity,
            flac_preset: self.flac_preset.clone(),
            flac_compression: self.flac_compression,
            alac_preset: self.alac_preset.clone(),
            alac_bit_depth: self.alac_bit_depth,
            parallel_count: self.parallel_count,
            open_in_finder: self.open_in_finder,
            last_mode: self.last_mode.clone(),
            last_format: self.last_format.clone(),
            last_decode_format: self.last_decode_format.clone(),
            custom_output_path: clone_opt_text(&self.custom_output_path),
            preserve_folder_structure: self.preserve_folder_structure,
            language: self.language.clone(),
            enabled_formats: clone_texts(&self.enabled_formats),
            enabled_decode_formats: clone_texts(&self.enabled_decode_formats),
            silence_trim_enabled: self.silence_trim_enabled,
            silence_trim_db: self.silence_trim_db,
            silence_trim_duration_ms: self.silence_trim_duration_ms,
            clear_log_on_convert: self.clear_log_on_convert,
            auto_open_activity: self.auto_open_activity,
            export_all_audio_tracks: self.export_all_audio_tracks,
        }
    }
}

impl Default for Settings {
    fn default() -> (r: Self)
        ensures
            r@ == default_settings(None),
    {
        Settings::default_for(None)
    }
}

impl Settings {
    /// The settings of a fresh installation on a machine with that many
    /// processors.
    pub fn default_for(processors: Option<usize>) -> (r: Self)
        ensures
            r@ == default_settings(processors),
    {
        let r = Settings {
            output_dest: OutputDest::SourceFolder,
            source_file_action: SourceFileAction::Keep,
            name_conflict: NameConflict::AutoRename,
            mp3_preset: default_mp3_preset(),
            mp3_mode: default_mp3_mode(),
            mp3_bitrate: default_mp3_bitrate(),
            mp3_vbr_quality: default_mp3_vbr_quality(),
            mp3_sample_rate: 0,
            mp3_channel_mode: default_mp3_channel_mode(),
            aac_preset: default_aac_preset(),
            aac_mode: default_aac_mode(),
            m4a_bitrate: default_m4a_bitrate(),
            aac_vbr_quality: default_aac_vbr_quality(),
            aac_sample_rate: 0,
            aac_channels: 0,
            opus_preset: default_opus_preset(),
            opus_mode: default_opus_mode(),
            opus_bitrate: default_opus_bitrate(),
            opus_complexity: default_opus_complexity(),
            flac_preset: default_flac_preset(),
            flac_compression: default_flac_compression(),
            alac_preset: String::new(),
            alac_bit_depth: default_alac_bit_depth(),
            parallel_count: calc_parallel_count(processors),
            open_in_finder: false,
            last_mode: default_last_mode(),
            last_format: default_last_format(),
            last_decode_format: default_last_decode_format(),
            custom_output_path: None,
            preserve_folder_structure: false,
            language: String::new(),
            enabled_formats: default_enabled_formats(),
            enabled_decode_formats: default_enabled_decode_formats(),
            silence_trim_enabled: false,
            silence_trim_db: default_silence_trim_db(),
            silence_trim_duration_ms: default_silence_trim_duration_ms(),
            clear_log_on_convert: default_clear_log_on_convert(),
            auto_open_activity: default_auto_open_activity(),
            export_all_audio_tracks: false,
        };
        assert(r@ =~= default_settings(processors));
        r
    }
}

/// `x`, or the nearer bound where it lies outside `lo` to `hi`.
pub open spec fn clamped(x: int, lo: int, hi: int) -> int {
    if x < lo {
        lo
    } else if x > hi {
        hi
    } else {
        x
    }
}

/// `s` where it is one of the two words, else the first.
pub open spec fn first_unless_second(s: Seq<char>, first: Seq<char>, second: Seq<char>) -> Seq<
    char,
> {
    if s == second {
        second
    } else {
        first
    }
}

/// A preset is the word `custom`, zero, or a number from `lo` to `hi`; anything
/// else becomes `fallback`.
pub open spec fn preset_or(s: Seq<char>, lo: nat, hi: nat, fallback: Seq<char>) -> Seq<char> {
    match unsigned_upto(s, u32::MAX as nat) {
        Some(n) => if n == 0 || lo <= n <= hi {
            s
        } else {
            fallback
        },
        None => if s == "custom"@ {
            s
        } else {
            fallback
        },
    }
}

/// A channel mode, `joint_stereo` where it is none.
pub open spec fn channel_mode(s: Seq<char>) -> Seq<char> {
    if s == "auto"@ || s == "stereo"@ || s == "mono"@ {
        s
    } else {
        "joint_stereo"@
    }
}

/// The sample rates that can be chosen for MP3.
pub open spec fn is_mp3_rate(rate: u32) -> bool {
    rate == 0 || rate == 44100 || rate == 48000 || rate == 88200 || rate == 96000
}

/// The sample rates that can be chosen for AAC.
pub open spec fn is_aac_rate(rate: u32) -> bool {
    rate == 0 || rate == 44100 || rate == 48000
}

/// The settings with what concerns MP3 brought within its limits.
pub open spec fn validated_mp3(v: SettingsView) -> SettingsView {
    SettingsView {
        mp3_bitrate: clamped(v.mp3_bitrate as int, 32, 320) as u32,
        mp3_vbr_quality: clamped(v.mp3_vbr_quality as int, 0, 9) as u32,
        mp3_sample_rate: if is_mp3_rate(v.mp3_sample_rate) {
            v.mp3_sample_rate
        } else {
            0
        },
        mp3_mode: first_unless_second(v.mp3_mode, "cbr"@, "vbr"@),
        mp3_channel_mode: channel_mode(v.mp3_channel_mode),
        mp3_preset: preset_or(v.mp3_preset, 128, 320, "192"@),
        ..v
    }
}

/// The settings with what concerns AAC brought within its limits.
pub open spec fn validated_aac(v: SettingsView) -> SettingsView {
    SettingsView {
        m4a_bitrate: clamped(v.m4a_bitrate as int, 32, 320) as u32,
        aac_vbr_quality: clamped(v.aac_vbr_quality as int, 1, 5) as u32,
        aac_sample_rate: if is_aac_rate(v.aac_sample_rate) {
            v.aac_sample_rate
        } else {
            0
        },
        aac_channels: clamped(v.aac_channels as int, 0, 2) as u32,
        aac_mode: first_unless_second(v.aac_mode, "cbr"@, "vbr"@),
        aac_preset: preset_or(v.aac_preset, 64, 256, "128"@),
        ..v
    }
}

/// The settings with what concerns Opus, FLAC and ALAC brought within its
/// limits.
pub open spec fn validated_other_codecs(v: SettingsView) -> SettingsView {
    SettingsView {
        opus_bitrate: clamped(v.opus_bitrate as int, 16, 320) as u32,
        opus_complexity: clamped(v.opus_complexity as int, 0, 10) as u32,
        opus_mode: first_unless_second(v.opus_mode, "vbr"@, "cbr"@),
        opus_preset: preset_or(v.opus_preset, 16, 320, "128"@),
        flac_compression: clamped(v.flac_compression as int, 0, 8) as u8,
        flac_preset: preset_or(v.flac_preset, 0, 8, "5"@),
        alac_bit_depth: if v.alac_bit_depth == 24 {
            24
        } else {
            16
        },
        ..v
    }
}

/// The settings with what concerns no codec brought within its limits.
pub open spec fn validated_general(v: SettingsView) -> SettingsView {
    SettingsView {
        silence_trim_db: clamped(v.silence_trim_db as int, -100_000_000, 0) as i64,
        silence_trim_duration_ms: clamped(v.silence_trim_duration_ms as int, 1, 10000) as u32,
        enabled_formats: if v.enabled_formats.len() == 0 {
            seq!["mp3"@]
        } else {
            v.enabled_formats
        },
        enabled_decode_formats: if v.enabled_decode_formats.len() == 0 {
            seq!["wav"@]
        } else {
            v.enabled_decode_formats
        },
        last_mode: first_unless_second(v.last_mode, "encode"@, "decode"@),
        ..v
    }
}

/// The settings with every choice brought within its limits.
pub open spec fn validated(v: SettingsView) -> SettingsView {
    validated_general(validated_other_codecs(validated_aac(validated_mp3(v))))
}

/// A preset that FFmpeg can be asked for: the word `custom`, zero, or a number
/// from `lo` to `hi`.
pub open spec fn is_preset(s: Seq<char>, lo: nat, hi: nat) -> bool {
    match unsigned_upto(s, u32::MAX as nat) {
        Some(n) => n == 0 || lo <= n <= hi,
        None => s == "custom"@,
    }
}

/// Settings that can be handed to FFmpeg as they are.
pub open spec fn is_safe(v: SettingsView) -> bool {
    &&& 32 <= v.mp3_bitrate <= 320
    &&& v.mp3_vbr_quality <= 9
    &&& is_mp3_rate(v.mp3_sample_rate)
    &&& v.mp3_mode == "cbr"@ || v.mp3_mode == "vbr"@
    &&& v.mp3_channel_mode == "auto"@ || v.mp3_channel_mode == "joint_stereo"@
        || v.mp3_channel_mode == "stereo"@ || v.mp3_channel_mode == "mono"@
    &&& is_preset(v.mp3_preset, 128, 320)
    &&& 32 <= v.m4a_bitrate <= 320
    &&& 1 <= v.aac_vbr_quality <= 5
    &&& is_aac_rate(v.aac_sample_rate)
    &&& v.aac_channels <= 2
    &&& v.aac_mode == "cbr"@ || v.aac_mode == "vbr"@
    &&& is_preset(v.aac_preset, 64, 256)
    &&& 16 <= v.opus_bitrate <= 320
    &&& v.opus_complexity <= 10
    &&& v.opus_mode == "cbr"@ || v.opus_mode == "vbr"@
    &&& is_preset(v.opus_preset, 16, 320)
    &&& v.flac_compression <= 8
    &&& is_preset(v.flac_preset, 0, 8)
    &&& v.alac_bit_depth == 16 || v.alac_bit_depth == 24
    &&& -100_000_000 <= v.silence_trim_db <= 0
    &&& 1 <= v.silence_trim_duration_ms <= 10000
    &&& v.enabled_formats.len() > 0
    &&& v.enabled_decode_formats.len() > 0
    &&& v.last_mode == "encode"@ || v.last_mode == "decode"@
}

proof fn lemma_fallback_presets()
    ensures
        unsigned_upto("192"@, u32::MAX as nat) == Some(192nat),
        unsigned_upto("128"@, u32::MAX as nat) == Some(128nat),
        unsigned_upto("5"@, u32::MAX as nat) == Some(5nat),
{
    reveal_strlit("192");
    reveal_strlit("128");
    reveal_strlit("5");
    reveal_with_fuel(digits_value, 4);
    assert("192"@.drop_last() =~= seq!['1', '9']);
    assert("192"@.drop_last().drop_last() =~= seq!['1']);
    assert("192"@.drop_last().drop_last().drop_last() =~= seq![]);
    assert("128"@.drop_last() =~= seq!['1', '2']);
    assert("128"@.drop_last().drop_last() =~= seq!['1']);
    assert("128"@.drop_last().drop_last().drop_last() =~= seq![]);
    assert("5"@.drop_last() =~= seq![]);
}

/// Whatever the settings were, validated ones can be handed to FFmpeg.
pub proof fn validated_settings_are_safe(v: SettingsView)
    ensures
        is_safe(validated(v)),
{
    lemma_fallback_presets();
}

/// Settings that can be handed to FFmpeg are left as they are.
pub proof fn safe_settings_are_kept(v: SettingsView)
    requires
        is_safe(v),
    ensures
        validated(v) == v,
{
    assert(validated(v) =~= v);
}

/// Validating a second time changes nothing.
pub proof fn validation_is_idempotent(v: SettingsView)
    ensures
        validated(validated(v)) == validated(v),
{
    validated_settings_are_safe(v);
    safe_settings_are_kept(validated(v));
}

/// The settings of a fresh installation can be handed to FFmpeg as they are.
pub proof fn default_settings_are_safe(processors: Option<usize>)
    ensures
        is_safe(default_settings(processors)),
{
    lemma_fallback_presets();
}

fn clamp_u32(x: u32, lo: u32, hi: u32) -> (r: u32)
    requires
        lo <= hi,
    ensures
        r == clamped(x as int, lo as int, hi as int),
{
    if x < lo {
        lo
    } else if x > hi {
        hi
    } else {
        x
    }
}

fn checked_mode(s: &mut String, first: &str, second: &str)
    ensures
        final(s)@ == first_unless_second(old(s)@, first@, second@),
{
    if !text_eq(s.as_str(), second) {
        *s = first.to_owned();
    }
}

fn checked_preset(s: &mut String, lo: u32, hi: u32, fallback: &str)
    ensures
        final(s)@ == preset_or(old(s)@, lo as nat, hi as nat, fallback@),
{
    let keep: bool = match parse_u32(s.as_str()) {
        Some(n) => n == 0 || (lo <= n && n <= hi),
        None => text_eq(s.as_str(), "custom"),
    };
    if !keep {
        *s = fallback.to_owned();
    }
}

impl Settings {
    /// Computes anew what depends on the machine.
    pub fn refresh_runtime_values(&mut self, processors: Option<usize>)
        ensures
            final(self)@ == (SettingsView {
                parallel_count: parallel_count(processors),
                ..old(self)@
            }),
    {
        self.parallel_count = calc_parallel_count(processors);
        assert(self@ =~= SettingsView {
            parallel_count: parallel_count(processors),
            ..old(self)@
        });
    }

    fn validate_mp3(&mut self)
        ensures
            final(self)@ == validated_mp3(old(self)@),
    {
        self.mp3_bitrate = clamp_u32(self.mp3_bitrate, 32, 320);
        self.mp3_vbr_quality = clamp_u32(self.mp3_vbr_quality, 0, 9);
        let rate: u32 = self.mp3_sample_rate;
        if !(rate == 0 || rate == 44100 || rate == 48000 || rate == 88200 || rate == 96000) {
            self.mp3_sample_rate = 0;
        }
        checked_mode(&mut self.mp3_mode, "cbr", "vbr");
        let mode: &str = self.mp3_channel_mode.as_str();
        if !(text_eq(mode, "auto") || text_eq(mode, "stereo") || text_eq(mode, "mono")) {
            self.mp3_channel_mode = "joint_stereo".to_owned();
        }
        checked_preset(&mut self.mp3_preset, 128, 320, "192");
    }

    fn validate_aac(&mut self)
        ensures
            final(self)@ == validated_aac(old(self)@),
    {
        self.m4a_bitrate = clamp_u32(self.m4a_bitrate, 32, 320);
        self.aac_vbr_quality = clamp_u32(self.aac_vbr_quality, 1, 5);
        let rate: u32 = self.aac_sample_rate;
        if !(rate == 0 || rate == 44100 || rate == 48000) {
            self.aac_sample_rate = 0;
        }
        self.aac_channels = clamp_u32(self.aac_channels, 0, 2);
        checked_mode(&mut self.aac_mode, "cbr", "vbr");
        checked_preset(&mut self.aac_preset, 64, 256, "128");
    }

    fn validate_other_codecs(&mut self)
        ensures
            final(self)@ == validated_other_codecs(old(self)@),
    {
        self.opus_bitrate = clamp_u32(self.opus_bitrate, 16, 320);
        self.opus_complexity = clamp_u32(self.opus_complexity, 0, 10);
        checked_mode(&mut self.opus_mode, "vbr", "cbr");
        checked_preset(&mut self.opus_preset, 16, 320, "128");
        if self.flac_compression > 8 {
            self.flac_compression = 8;
        }
        checked_preset(&mut self.flac_preset, 0, 8, "5");
        if self.alac_bit_depth != 24 {
            self.alac_bit_depth = 16;
        }
    }

    fn validate_general(&mut self)
        ensures
            final(self)@ == validated_general(old(self)@),
    {
        if self.silence_trim_db < -100_000_000 {
            self.silence_trim_db = -100_000_000;
        } else if self.silence_trim_db > 0 {
            self.silence_trim_db = 0;
        }
        self.silence_trim_duration_ms = clamp_u32(self.silence_trim_duration_ms, 1, 10000);
        if self.enabled_formats.len() == 0 {
            let mut formats: Vec<String> = Vec::new();
            formats.push("mp3".to_owned());
            assert(texts(formats@) =~= seq!["mp3"@]);
            self.enabled_formats = formats;
        }
        if self.enabled_decode_formats.len() == 0 {
            let mut formats: Vec<String> = Vec::new();
            formats.push("wav".to_owned());
            assert(texts(formats@) =~= seq!["wav"@]);
            self.enabled_decode_formats = formats;
        }
        checked_mode(&mut self.last_mode, "encode", "decode");
    }

    /// Brings every choice within its limits, so that nothing malformed reaches
    /// FFmpeg.
    pub fn validate(&mut self)
        ensures
            final(self)@ == validated(old(self)@),
    {
        self.validate_mp3();
        self.validate_aac();
        self.validate_other_codecs();
        self.validate_general();
    }
}

/// What was found where the settings are saved.
pub enum Saved {
    /// There is no file.
    Missing,
    /// The file does not hold settings.
    Unreadable,
    /// The file holds settings.
    Found(Settings),
}

/// The settings that a program starts with.
pub open spec fn loaded(saved: Saved, processors: Option<usize>) -> SettingsView {
    match saved {
        Saved::Found(settings) => SettingsView {
            parallel_count: parallel_count(processors),
            ..validated(settings@)
        },
        _ => default_settings(processors),
    }
}

/// The settings to start with: what was saved, validated, and those of a fresh
/// installation where nothing can be read.
pub fn load_settings(saved: Saved, processors: Option<usize>) -> (r: Settings)
    ensures
        r@ == loaded(saved, processors),
        is_safe(r@),
{
    proof {
        default_settings_are_safe(processors);
        safe_settings_are_kept(default_settings(processors));
    }
    match saved {
        Saved::Found(settings) => {
            proof {
                validated_settings_are_safe(settings@);
            }
            let mut settings = settings;
            settings.validate();
            settings.refresh_runtime_values(processors);
            settings
        },
        _ => {
            let mut settings = Settings::default_for(processors);
            settings.validate();
            settings
        },
    }
}

/// The settings as they are saved: validated.
pub fn save_settings(settings: &Settings) -> (r: Settings)
    ensures
        r@ == validated(settings@),
{
    let mut copy = settings.clone();
    copy.validate();
    copy
}

// What validating does -------------------------------------------------------

/// A number is moved into its range as little as it has to be.
pub open spec fn is_nearest(now: int, was: int, lo: int, hi: int) -> bool {
    &&& lo <= now <= hi
    &&& lo <= was <= hi ==> now == was
    &&& was < lo ==> now == lo
    &&& was > hi ==> now == hi
}

/// Validating moves each number into its range, and no further than it has to:
/// one that is in its range stays, whatever the others are.
pub proof fn numbers_are_moved_into_their_range(v: SettingsView)
    ensures
        ({
            let now = validated(v);
            &&& is_nearest(now.mp3_bitrate as int, v.mp3_bitrate as int, 32, 320)
            &&& is_nearest(now.mp3_vbr_quality as int, v.mp3_vbr_quality as int, 0, 9)
            &&& is_nearest(now.m4a_bitrate as int, v.m4a_bitrate as int, 32, 320)
            &&& is_nearest(now.aac_vbr_quality as int, v.aac_vbr_quality as int, 1, 5)
            &&& is_nearest(now.aac_channels as int, v.aac_channels as int, 0, 2)
            &&& is_nearest(now.opus_bitrate as int, v.opus_bitrate as int, 16, 320)
            &&& is_nearest(now.opus_complexity as int, v.opus_complexity as int, 0, 10)
            &&& is_nearest(now.flac_compression as int, v.flac_compression as int, 0, 8)
            &&& is_nearest(now.silence_trim_db as int, v.silence_trim_db as int, -100_000_000, 0)
            &&& is_nearest(
                now.silence_trim_duration_ms as int,
                v.silence_trim_duration_ms as int,
                1,
                10_000,
            )
        }),
{
}

/// A choice that is one of those there are stays; any other becomes the usual one.
pub proof fn unknown_choices_become_the_usual_ones(v: SettingsView)
    ensures
        ({
            let now = validated(v);
            &&& now.mp3_mode == (if v.mp3_mode == "vbr"@ { "vbr"@ } else { "cbr"@ })
            &&& now.aac_mode == (if v.aac_mode == "vbr"@ { "vbr"@ } else { "cbr"@ })
            &&& now.opus_mode == (if v.opus_mode == "cbr"@ { "cbr"@ } else { "vbr"@ })
            &&& now.last_mode == (if v.last_mode == "decode"@ { "decode"@ } else { "encode"@ })
            &&& v.mp3_channel_mode == "mono"@ || v.mp3_channel_mode == "stereo"@
                || v.mp3_channel_mode == "auto"@ || v.mp3_channel_mode == "joint_stereo"@
                ==> now.mp3_channel_mode == v.mp3_channel_mode
            &&& v.mp3_channel_mode != "mono"@ && v.mp3_channel_mode != "stereo"@
                && v.mp3_channel_mode != "auto"@ ==> now.mp3_channel_mode == "joint_stereo"@
            &&& now.mp3_sample_rate == 0 || now.mp3_sample_rate == v.mp3_sample_rate
            &&& now.aac_sample_rate == 0 || now.aac_sample_rate == v.aac_sample_rate
            &&& v.mp3_sample_rate == 44100 || v.mp3_sample_rate == 48000 || v.mp3_sample_rate
                == 88200 || v.mp3_sample_rate == 96000 ==> now.mp3_sample_rate == v.mp3_sample_rate
            &&& v.aac_sample_rate == 44100 || v.aac_sample_rate == 48000 ==> now.aac_sample_rate
                == v.aac_sample_rate
            &&& v.alac_bit_depth == 24 ==> now.alac_bit_depth == 24
            &&& v.alac_bit_depth != 24 ==> now.alac_bit_depth == 16
            &&& v.enabled_formats.len() > 0 ==> now.enabled_formats == v.enabled_formats
            &&& v.enabled_formats.len() == 0 ==> now.enabled_formats == seq!["mp3"@]
            &&& v.enabled_decode_formats.len() > 0 ==> now.enabled_decode_formats
                == v.enabled_decode_formats
            &&& v.enabled_decode_formats.len() == 0 ==> now.enabled_decode_formats == seq!["wav"@]
        }),
{
}

/// A preset that is that of the user, or a number in the range of the format, or
/// zero, stays; any other number, and any other word, becomes the usual one.
pub proof fn presets_in_range_stay(v: SettingsView, n: nat)
    requires
        n <= u32::MAX,
    ensures
        ({
            let now = validated(v);
            &&& v.mp3_preset == "custom"@ ==> now.mp3_preset == "custom"@
            &&& v.aac_preset == "custom"@ ==> now.aac_preset == "custom"@
            &&& v.opus_preset == "custom"@ ==> now.opus_preset == "custom"@
            &&& v.flac_preset == "custom"@ ==> now.flac_preset == "custom"@
            &&& v.mp3_preset == decimal(n) ==> now.mp3_preset == (if n == 0 || 128 <= n <= 320 {
                decimal(n)
            } else {
                "192"@
            })
            &&& v.aac_preset == decimal(n) ==> now.aac_preset == (if n == 0 || 64 <= n <= 256 {
                decimal(n)
            } else {
                "128"@
            })
            &&& v.opus_preset == decimal(n) ==> now.opus_preset == (if n == 0 || 16 <= n <= 320 {
                decimal(n)
            } else {
                "128"@
            })
            &&& v.flac_preset == decimal(n) ==> now.flac_preset == (if n <= 8 {
                decimal(n)
            } else {
                "5"@
            })
        }),
{
    crate::text::a_written_number_reads_back(n, u32::MAX as nat);
    reveal_strlit("custom");
    assert("custom"@[0] == 'c' && "custom"@.len() == 6);
    assert(!crate::text::is_digit("custom"@[0]));
}

/// Validating leaves alone what has no range: where results go, what becomes of
/// sources, what happens where a name is taken, and every switch.
pub proof fn validating_keeps_the_rest(v: SettingsView)
    ensures
        ({
            let now = validated(v);
            &&& now.output_dest == v.output_dest
            &&& now.source_file_action == v.source_file_action
            &&& now.name_conflict == v.name_conflict
            &&& now.custom_output_path == v.custom_output_path
            &&& now.preserve_folder_structure == v.preserve_folder_structure
            &&& now.parallel_count == v.parallel_count
            &&& now.open_in_finder == v.open_in_finder
            &&& now.last_format == v.last_format && now.last_decode_format == v.last_decode_format
            &&& now.language == v.language
            &&& now.silence_trim_enabled == v.silence_trim_enabled
            &&& now.clear_log_on_convert == v.clear_log_on_convert
            &&& now.auto_open_activity == v.auto_open_activity
            &&& now.export_all_audio_tracks == v.export_all_audio_tracks
            &&& now.alac_preset == v.alac_preset
        }),
{
}

/// Without settings of the user nothing is lost: sources are kept, nothing is
/// overwritten, results lie beside their sources, and the sound is left whole.
pub proof fn defaults_lose_nothing(processors: Option<usize>)
    ensures
        ({
            let s = default_settings(processors);
            &&& s.source_file_action == SourceFileAction::Keep
            &&& s.name_conflict == NameConflict::AutoRename
            &&& s.output_dest == OutputDest::SourceFolder
            &&& !s.silence_trim_enabled && !s.export_all_audio_tracks && !s.open_in_finder
            &&& s.mp3_preset == decimal(s.mp3_bitrate as nat)
            &&& s.aac_preset == decimal(s.m4a_bitrate as nat)
            &&& s.opus_preset == decimal(s.opus_bitrate as nat)
            &&& s.flac_preset == decimal(s.flac_compression as nat)
            &&& s.mp3_vbr_quality == 4 && s.aac_vbr_quality == 4 && s.opus_complexity == 5
            &&& s.mp3_sample_rate == 0 && s.aac_sample_rate == 0 && s.aac_channels == 0
            &&& s.alac_bit_depth == 16 && s.alac_preset.len() == 0
            &&& s.mp3_mode == "cbr"@ && s.aac_mode == "cbr"@ && s.opus_mode == "vbr"@
            &&& s.mp3_channel_mode == "joint_stereo"@
            &&& s.mp3_bitrate == 192 && s.m4a_bitrate == 128 && s.opus_bitrate == 128
            &&& s.flac_compression == 5
            &&& s.silence_trim_db == -80 * 1_000_000 && s.silence_trim_duration_ms == 50
            &&& s.clear_log_on_convert && !s.auto_open_activity && !s.preserve_folder_structure
            &&& s.custom_output_path is None && s.language.len() == 0
            &&& s.last_mode == "encode"@ && s.last_format == "mp3"@ && s.last_decode_format
                == "wav"@
            &&& s.parallel_count == parallel_count(processors)
            &&& s.enabled_formats.contains(s.last_format)
            &&& s.enabled_decode_formats.contains(s.last_decode_format)
        }),
{
    reveal_strlit("192");
    reveal_strlit("128");
    reveal_strlit("5");
    reveal_with_fuel(decimal, 4);
    assert(decimal(192) =~= "192"@);
    assert(decimal(128) =~= "128"@);
    assert(decimal(5) =~= "5"@);
    let s = default_settings(processors);
    assert(s.enabled_formats[0] == "mp3"@);
    assert(s.enabled_decode_formats[0] == "wav"@);
}

/// As many files are converted at a time as there are processors but one, so that
/// one is left for the user; at least one file is.
pub proof fn one_processor_is_left_free(n: usize)
    ensures
        n >= 2 ==> parallel_count(Some(n)) == n - 1,
        parallel_count(Some(n)) >= 1,
        parallel_count(Some(0)) == 1 && parallel_count(Some(1)) == 1,
        parallel_count(None) >= 1,
{
}

/// Settings that were saved are those that are loaded, once validated, but for
/// what is computed anew; where none can be read, there are the usual ones.
pub proof fn saved_settings_are_loaded(settings: Settings, processors: Option<usize>)
    requires
        is_safe(settings@),
    ensures
        loaded(Saved::Found(settings), processors) == (SettingsView {
            parallel_count: parallel_count(processors),
            ..settings@
        }),
        loaded(Saved::Missing, processors) == default_settings(processors),
        loaded(Saved::Unreadable, processors) == default_settings(processors),
{
    safe_settings_are_kept(settings@);
}

} // verus!
