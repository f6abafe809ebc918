//! The arguments that tell FFmpeg which codec to use, and how.

use vstd::prelude::*;
use crate::settings::Settings;
use crate::settings::SettingsView;
use crate::text::decimal;
use crate::text::decimal_text;
use crate::text::parse_u32;
use crate::text::parse_upto;
use crate::text::text_eq;
use crate::text::texts;
use crate::text::unsigned_upto;
use crate::types::FileInfo;
use crate::types::InfoView;

verus! {

/// A bit rate as FFmpeg reads it: a number of thousands.
pub open spec fn kilobits(rate: nat) -> Seq<char> {
    decimal(rate).push('k')
}

/// The number that a preset writes, or `fallback`.
pub open spec fn preset_number(preset: Seq<char>, max: nat, fallback: nat) -> nat {
    match unsigned_upto(preset, max) {
        Some(n) => n,
        None => fallback,
    }
}

pub open spec fn mp3_args(s: SettingsView) -> Seq<Seq<char>> {
    seq!["-c:a"@, "libmp3lame"@] + if s.mp3_preset == "custom"@ {
        (if s.mp3_mode == "vbr"@ {
            seq!["-q:a"@, decimal(s.mp3_vbr_quality as nat)]
        } else {
            seq!["-b:a"@, kilobits(s.mp3_bitrate as nat)]
        }) + (if s.mp3_sample_rate > 0 {
            seq!["-ar"@, decimal(s.mp3_sample_rate as nat)]
        } else {
            seq![]
        }) + (if s.mp3_channel_mode == "mono"@ {
            seq!["-ac"@, "1"@]
        } else if s.mp3_channel_mode == "stereo"@ {
            seq!["-ac"@, "2"@]
        } else {
            seq![]
        })
    } else {
        seq!["-b:a"@, kilobits(preset_number(s.mp3_preset, u32::MAX as nat, 192))]
    }
}

/// A constant bit rate in any case: the encoder that FFmpeg brings has no
/// variable one.
pub open spec fn aac_args(s: SettingsView) -> Seq<Seq<char>> {
    seq!["-c:a"@, "aac"@] + if s.aac_preset == "custom"@ {
        seq!["-b:a"@, kilobits(s.m4a_bitrate as nat)] + (if s.aac_sample_rate > 0 {
            seq!["-ar"@, decimal(s.aac_sample_rate as nat)]
        } else {
            seq![]
        }) + (if s.aac_channels == 1 {
            seq!["-ac"@, "1"@]
        } else if s.aac_channels == 2 {
            seq!["-ac"@, "2"@]
        } else {
            seq![]
        })
    } else {
        seq!["-b:a"@, kilobits(preset_number(s.aac_preset, u32::MAX as nat, 128))]
    }
}

pub open spec fn opus_args(s: SettingsView) -> Seq<Seq<char>> {
    seq!["-c:a"@, "libopus"@] + if s.opus_preset == "custom"@ {
        (if s.opus_mode == "cbr"@ {
            seq!["-vbr"@, "off"@]
        } else {
            seq![]
        }) + seq![
            "-b:a"@,
            kilobits(s.opus_bitrate as nat),
            "-compression_level"@,
            decimal(s.opus_complexity as nat),
        ]
    } else {
        seq!["-b:a"@, kilobits(preset_number(s.opus_preset, u32::MAX as nat, 128))]
    }
}

pub open spec fn flac_args(s: SettingsView) -> Seq<Seq<char>> {
    let level = if s.flac_preset == "custom"@ {
        s.flac_compression as nat
    } else {
        preset_number(s.flac_preset, u8::MAX as nat, 5)
    };
    seq!["-c:a"@, "flac"@, "-compression_level"@, decimal(level)]
}

pub open spec fn alac_args(s: SettingsView) -> Seq<Seq<char>> {
    seq!["-c:a"@, "alac"@] + if s.alac_preset == "custom"@ && s.alac_bit_depth == 24 {
        seq!["-sample_fmt"@, "s32p"@]
    } else {
        seq![]
    }
}

pub open spec fn wav_args(info: InfoView) -> Seq<Seq<char>> {
    seq![
        "-c:a"@,
        if info.bits_per_sample == 24 {
            "pcm_s24le"@
        } else if info.bits_per_sample == 32 {
            "pcm_s32le"@
        } else {
            "pcm_s16le"@
        },
    ]
}

pub open spec fn aiff_args(info: InfoView) -> Seq<Seq<char>> {
    seq![
        "-c:a"@,
        if info.bits_per_sample == 24 {
            "pcm_s24be"@
        } else if info.bits_per_sample == 32 {
            "pcm_s32be"@
        } else {
            "pcm_s16be"@
        },
    ]
}

/// The arguments for the codec of a format; none for a format that is unknown.
pub open spec fn codec_args(format: Seq<char>, s: SettingsView, info: InfoView) -> Seq<Seq<char>> {
    if format == "mp3"@ {
        mp3_args(s)
    } else if format == "aac"@ {
        aac_args(s)
    } else if format == "opus"@ {
        opus_args(s)
    } else if format == "flac"@ {
        flac_args(s)
    } else if format == "alac"@ {
        alac_args(s)
    } else if format == "wav"@ {
        wav_args(info)
    } else if format == "aiff"@ {
        aiff_args(info)
    } else {
        seq![]
    }
}

// ---------------------------------------------------------------------------

/// Appends one argument.
pub fn push_one(args: &mut Vec<String>, value: &str)
    ensures
        texts(final(args)@) == texts(old(args)@) + seq![value@],
{
    args.push(value.to_owned());
    assert(texts(args@) =~= texts(old(args)@) + seq![value@]);
}

/// Appends an option and its value.
pub fn push_pair(args: &mut Vec<String>, name: &str, value: String)
    ensures
        texts(final(args)@) == texts(old(args)@) + seq![name@, value@],
{
    args.push(name.to_owned());
    args.push(value);
    assert(texts(args@) =~= texts(old(args)@) + seq![name@, value@]);
}

fn kilobits_text(rate: u32) -> (r: String)
    ensures
        r@ == kilobits(rate as nat),
{
    let mut r: String = decimal_text(rate as u64);
    r.push('k');
    r
}

fn preset_u32(preset: &str, fallback: u32) -> (r: u32)
    ensures
        r == preset_number(preset@, u32::MAX as nat, fallback as nat),
{
    match parse_u32(preset) {
        Some(n) => n,
        None => fallback,
    }
}

fn codec(name: &str) -> (r: Vec<String>)
    ensures
        texts(r@) == seq!["-c:a"@, name@],
{
    let mut r: Vec<String> = Vec::new();
    push_pair(&mut r, "-c:a", name.to_owned());
    assert(texts(r@) =~= seq!["-c:a"@, name@]);
    r
}

fn build_mp3_args(settings: &Settings) -> (r: Vec<String>)
    ensures
        texts(r@) == mp3_args(settings@),
{
    let mut args: Vec<String> = codec("libmp3lame");
    if text_eq(settings.mp3_preset.as_str(), "custom") {
        if text_eq(settings.mp3_mode.as_str(), "vbr") {
            push_pair(&mut args, "-q:a", decimal_text(settings.mp3_vbr_quality as u64));
        } else {
            push_pair(&mut args, "-b:a", kilobits_text(settings.mp3_bitrate));
        }
        if settings.mp3_sample_rate > 0 {
            push_pair(&mut args, "-ar", decimal_text(settings.mp3_sample_rate as u64));
        }
        if text_eq(settings.mp3_channel_mode.as_str(), "mono") {
            push_pair(&mut args, "-ac", "1".to_owned());
        } else if text_eq(settings.mp3_channel_mode.as_str(), "stereo") {
            push_pair(&mut args, "-ac", "2".to_owned());
        }
    } else {
        let rate: u32 = preset_u32(settings.mp3_preset.as_str(), 192);
        push_pair(&mut args, "-b:a", kilobits_text(rate));
    }
    assert(texts(args@) =~= mp3_args(settings@));
    args
}

fn build_aac_args(settings: &Settings) -> (r: Vec<String>)
    ensures
        texts(r@) == aac_args(settings@),
{
    let mut args: Vec<String> = codec("aac");
    if text_eq(settings.aac_preset.as_str(), "custom") {
        push_pair(&mut args, "-b:a", kilobits_text(settings.m4a_bitrate));
        if settings.aac_sample_rate > 0 {
            push_pair(&mut args, "-ar", decimal_text(settings.aac_sample_rate as u64));
        }
        if settings.aac_channels == 1 {
            push_pair(&mut args, "-ac", "1".to_owned());
        } else if settings.aac_channels == 2 {
            push_pair(&mut args, "-ac", "2".to_owned());
        }
    } else {
        let rate: u32 = preset_u32(settings.aac_preset.as_str(), 128);
        push_pair(&mut args, "-b:a", kilobits_text(rate));
    }
    assert(texts(args@) =~= aac_args(settings@));
    args
}

fn build_opus_args(settings: &Settings) -> (r: Vec<String>)
    ensures
        texts(r@) == opus_args(settings@),
{
    let mut args: Vec<String> = codec("libopus");
    if text_eq(settings.opus_preset.as_str(), "custom") {
        if text_eq(settings.opus_mode.as_str(), "cbr") {
            push_pair(&mut args, "-vbr", "off".to_owned());
        }
        push_pair(&mut args, "-b:a", kilobits_text(settings.opus_bitrate));
        push_pair(&mut args, "-compression_level", decimal_text(settings.opus_complexity as u64));
    } else {
        let rate: u32 = preset_u32(settings.opus_preset.as_str(), 128);
        push_pair(&mut args, "-b:a", kilobits_text(rate));
    }
    assert(texts(args@) =~= opus_args(settings@));
    args
}

fn build_flac_args(settings: &Settings) -> (r: Vec<String>)
    ensures
        texts(r@) == flac_args(settings@),
{
    let level: u64 = if text_eq(settings.flac_preset.as_str(), "custom") {
        settings.flac_compression as u64
    } else {
        match parse_upto(settings.flac_preset.as_str(), 255) {
            Some(n) => n,
            None => 5,
        }
    };
    let mut args: Vec<String> = codec("flac");
    push_pair(&mut args, "-compression_level", decimal_text(level));
    assert(texts(args@) =~= flac_args(settings@));
    args
}

fn build_alac_args(settings: &Settings) -> (r: Vec<String>)
    ensures
        texts(r@) == alac_args(settings@),
{
    let mut args: Vec<String> = codec("alac");
    if text_eq(settings.alac_preset.as_str(), "custom") && settings.alac_bit_depth == 24 {
        push_pair(&mut args, "-sample_fmt", "s32p".to_owned());
    }
    assert(texts(args@) =~= alac_args(settings@));
    args
}

fn build_wav_args(info: &FileInfo) -> (r: Vec<String>)
    ensures
        texts(r@) == wav_args(info@),
{
    if info.bits_per_sample == 24 {
        codec("pcm_s24le")
    } else if info.bits_per_sample == 32 {
        codec("pcm_s32le")
    } else {
        codec("pcm_s16le")
    }
}

fn build_aiff_args(info: &FileInfo) -> (r: Vec<String>)
    ensures
        texts(r@) == aiff_args(info@),
{
    if info.bits_per_sample == 24 {
        codec("pcm_s24be")
    } else if info.bits_per_sample == 32 {
        codec("pcm_s32be")
    } else {
        codec("pcm_s16be")
    }
}

/// The arguments for the codec of a format; none for a format that is unknown.
pub fn build_codec_args(format: &str, settings: &Settings, info: &FileInfo) -> (r: Vec<String>)
    ensures
        texts(r@) == codec_args(format@, settings@, info@),
{
    if text_eq(format, "mp3") {
        build_mp3_args(settings)
    } else if text_eq(format, "aac") {
        build_aac_args(settings)
    } else if text_eq(format, "opus") {
        build_opus_args(settings)
    } else if text_eq(format, "flac") {
        build_flac_args(settings)
    } else if text_eq(format, "alac") {
        build_alac_args(settings)
    } else if text_eq(format, "wav") {
        build_wav_args(info)
    } else if text_eq(format, "aiff") {
        build_aiff_args(info)
    } else {
        let r: Vec<String> = Vec::new();
        assert(texts(r@) =~= seq![]);
        r
    }
}

// What the arguments ask for -------------------------------------------------

/// An option stands among arguments, and has that value wherever it stands.
pub open spec fn option_is(args: Seq<Seq<char>>, name: Seq<char>, value: Seq<char>) -> bool {
    &&& exists|i: int| 0 <= i < args.len() - 1 && #[trigger] args[i] == name
    &&& forall|i: int|
        0 <= i < args.len() && #[trigger] args[i] == name ==> i + 1 < args.len() && args[i + 1]
            == value
}

/// An option does not stand among arguments.
pub open spec fn lacks_option(args: Seq<Seq<char>>, name: Seq<char>) -> bool {
    forall|i: int| 0 <= i < args.len() ==> #[trigger] args[i] != name
}

/// A number starts with a digit, with a letter behind it or without.
proof fn lemma_number_starts(n: nat)
    ensures
        decimal(n).len() > 0 && decimal(n)[0] != '-',
        kilobits(n).len() > 0 && kilobits(n)[0] != '-',
{
    crate::text::numbers_are_written_in_tens(n);
    assert(crate::text::is_digit(decimal(n)[0]));
    assert(kilobits(n)[0] == decimal(n)[0]);
}

proof fn lemma_names()
    ensures
        "-c:a"@.len() == 4 && "-c:a"@[0] == '-' && "-c:a"@[1] == 'c',
        "-b:a"@.len() == 4 && "-b:a"@[0] == '-' && "-b:a"@[1] == 'b',
        "-q:a"@.len() == 4 && "-q:a"@[0] == '-' && "-q:a"@[1] == 'q',
        "-ar"@.len() == 3 && "-ar"@[0] == '-' && "-ar"@[2] == 'r',
        "-ac"@.len() == 3 && "-ac"@[0] == '-' && "-ac"@[2] == 'c',
        "-vbr"@.len() == 4 && "-vbr"@[0] == '-' && "-vbr"@[1] == 'v',
        "-compression_level"@.len() == 18 && "-compression_level"@[0] == '-',
        "-sample_fmt"@.len() == 11 && "-sample_fmt"@[0] == '-',
        "1"@.len() == 1 && "1"@[0] == '1',
        "2"@.len() == 1 && "2"@[0] == '2',
        "off"@.len() == 3 && "off"@[0] == 'o',
        "s32p"@.len() == 4 && "s32p"@[0] == 's',
        "libmp3lame"@.len() == 10 && "libmp3lame"@[0] == 'l',
        "aac"@.len() == 3 && "aac"@[0] == 'a',
        "libopus"@.len() == 7 && "libopus"@[0] == 'l',
        "flac"@.len() == 4 && "flac"@[0] == 'f',
        "alac"@.len() == 4 && "alac"@[0] == 'a',
        "pcm_s16le"@.len() == 9 && "pcm_s16le"@[0] == 'p' && "pcm_s16le"@[5] == '1',
        "pcm_s24le"@.len() == 9 && "pcm_s24le"@[0] == 'p' && "pcm_s24le"@[5] == '2',
        "pcm_s32le"@.len() == 9 && "pcm_s32le"@[0] == 'p' && "pcm_s32le"@[5] == '3',
        "pcm_s16be"@.len() == 9 && "pcm_s16be"@[0] == 'p' && "pcm_s16be"@[7] == 'b',
        "pcm_s24be"@.len() == 9 && "pcm_s24be"@[0] == 'p' && "pcm_s24be"@[7] == 'b',
        "pcm_s32be"@.len() == 9 && "pcm_s32be"@[0] == 'p' && "pcm_s32be"@[7] == 'b',
        "mp3"@.len() == 3 && "mp3"@[0] == 'm',
        "opus"@.len() == 4 && "opus"@[0] == 'o',
        "wav"@.len() == 3 && "wav"@[0] == 'w',
        "aiff"@.len() == 4 && "aiff"@[0] == 'a' && "aiff"@[1] == 'i',
        "alac"@[1] == 'l',
        "aac"@[1] == 'a',
        "mono"@.len() == 4,
        "stereo"@.len() == 6,
        "custom"@.len() == 6 && "custom"@[0] == 'c',
        "vbr"@.len() == 3 && "vbr"@[0] == 'v',
        "cbr"@.len() == 3 && "cbr"@[0] == 'c',
{
    reveal_strlit("-c:a");
    reveal_strlit("-b:a");
    reveal_strlit("-q:a");
    reveal_strlit("-ar");
    reveal_strlit("-ac");
    reveal_strlit("-vbr");
    reveal_strlit("-compression_level");
    reveal_strlit("-sample_fmt");
    reveal_strlit("1");
    reveal_strlit("2");
    reveal_strlit("off");
    reveal_strlit("s32p");
    reveal_strlit("libmp3lame");
    reveal_strlit("aac");
    reveal_strlit("libopus");
    reveal_strlit("flac");
    reveal_strlit("alac");
    reveal_strlit("pcm_s16le");
    reveal_strlit("pcm_s24le");
    reveal_strlit("pcm_s32le");
    reveal_strlit("pcm_s16be");
    reveal_strlit("pcm_s24be");
    reveal_strlit("pcm_s32be");
    reveal_strlit("mp3");
    reveal_strlit("opus");
    reveal_strlit("wav");
    reveal_strlit("aiff");
    reveal_strlit("mono");
    reveal_strlit("stereo");
    reveal_strlit("custom");
    reveal_strlit("vbr");
    reveal_strlit("cbr");
}

/// The codec of each format is the one that writes it, whatever the settings
/// are; no two formats that are encoded share one.
pub proof fn each_format_has_its_codec(s: SettingsView, info: InfoView)
    ensures
        option_is(codec_args("mp3"@, s, info), "-c:a"@, "libmp3lame"@),
        option_is(codec_args("aac"@, s, info), "-c:a"@, "aac"@),
        option_is(codec_args("opus"@, s, info), "-c:a"@, "libopus"@),
        option_is(codec_args("flac"@, s, info), "-c:a"@, "flac"@),
        option_is(codec_args("alac"@, s, info), "-c:a"@, "alac"@),
{
    lemma_names();
    lemma_mp3_shape(s, info);
    lemma_aac_shape(s, info);
    lemma_opus_shape(s, info);
    lemma_flac_shape(s, info);
    let mp3 = codec_args("mp3"@, s, info);
    let aac = codec_args("aac"@, s, info);
    let opus = codec_args("opus"@, s, info);
    let flac = codec_args("flac"@, s, info);
    let alac = codec_args("alac"@, s, info);
    assert(mp3[0] == "-c:a"@);
    assert(aac[0] == "-c:a"@);
    assert(opus[0] == "-c:a"@);
    assert(flac[0] == "-c:a"@);
    assert(alac[0] == "-c:a"@);
}

/// Arguments are pairs of a name and a value; none of the values is a name.
spec fn are_pairs(args: Seq<Seq<char>>) -> bool {
    &&& args.len() % 2 == 0
    &&& forall|i: int|
        0 <= i < args.len() ==> (#[trigger] args[i]).len() > 0 && ((args[i][0] == '-') <==> i % 2
            == 0)
}

proof fn lemma_pairs_behind_pairs(a: Seq<Seq<char>>, b: Seq<Seq<char>>)
    requires
        are_pairs(a),
        are_pairs(b),
    ensures
        are_pairs(a + b),
{
    let all = a + b;
    assert forall|i: int| 0 <= i < all.len() implies (#[trigger] all[i]).len() > 0 && ((all[i][0]
        == '-') <==> i % 2 == 0) by {
        if i < a.len() {
            assert(all[i] == a[i]);
        } else {
            assert(all[i] == b[i - a.len()]);
        }
    }
}

proof fn lemma_mp3_shape(s: SettingsView, info: InfoView)
    ensures
        are_pairs(codec_args("mp3"@, s, info)),
{
    lemma_names();
    lemma_number_starts(s.mp3_vbr_quality as nat);
    lemma_number_starts(s.mp3_bitrate as nat);
    lemma_number_starts(s.mp3_sample_rate as nat);
    lemma_number_starts(preset_number(s.mp3_preset, u32::MAX as nat, 192));
    if s.mp3_preset == "custom"@ {
        let rate = if s.mp3_mode == "vbr"@ {
            seq!["-q:a"@, decimal(s.mp3_vbr_quality as nat)]
        } else {
            seq!["-b:a"@, kilobits(s.mp3_bitrate as nat)]
        };
        let sampled = if s.mp3_sample_rate > 0 {
            seq!["-ar"@, decimal(s.mp3_sample_rate as nat)]
        } else {
            seq![]
        };
        let args = codec_args("mp3"@, s, info);
        let first = seq!["-c:a"@, "libmp3lame"@] + rate;
        let channels = args.skip((first + sampled).len() as int);
        lemma_pairs_behind_pairs(seq!["-c:a"@, "libmp3lame"@], rate);
        lemma_pairs_behind_pairs(first, sampled);
        lemma_pairs_behind_pairs(first + sampled, channels);
        assert(args =~= first + sampled + channels);
    }
}

proof fn lemma_aac_shape(s: SettingsView, info: InfoView)
    ensures
        are_pairs(codec_args("aac"@, s, info)),
{
    lemma_names();
    lemma_number_starts(s.m4a_bitrate as nat);
    lemma_number_starts(s.aac_sample_rate as nat);
    lemma_number_starts(preset_number(s.aac_preset, u32::MAX as nat, 128));
}

proof fn lemma_opus_shape(s: SettingsView, info: InfoView)
    ensures
        are_pairs(codec_args("opus"@, s, info)),
{
    lemma_names();
    lemma_number_starts(s.opus_bitrate as nat);
    lemma_number_starts(s.opus_complexity as nat);
    lemma_number_starts(preset_number(s.opus_preset, u32::MAX as nat, 128));
    if s.opus_preset == "custom"@ {
        let args = codec_args("opus"@, s, info);
        let mode = if s.opus_mode == "cbr"@ {
            seq!["-vbr"@, "off"@]
        } else {
            seq![]
        };
        let rate = args.skip((2 + mode.len()) as int);
        lemma_pairs_behind_pairs(seq!["-c:a"@, "libopus"@], mode);
        lemma_pairs_behind_pairs(seq!["-c:a"@, "libopus"@] + mode, rate);
        assert(args =~= seq!["-c:a"@, "libopus"@] + mode + rate);
    }
}

proof fn lemma_flac_shape(s: SettingsView, info: InfoView)
    ensures
        are_pairs(codec_args("flac"@, s, info)),
{
    lemma_names();
    lemma_number_starts(s.flac_compression as nat);
    lemma_number_starts(preset_number(s.flac_preset, u8::MAX as nat, 5));
}

/// With the preset of the user, the number of channels of an mp3 is the one that
/// the mode names: one for mono, two for stereo, and none for any other mode.
pub proof fn mp3_channels_are_those_of_the_mode(s: SettingsView, info: InfoView)
    requires
        s.mp3_preset == "custom"@,
    ensures
        s.mp3_channel_mode == "mono"@ ==> option_is(codec_args("mp3"@, s, info), "-ac"@, "1"@),
        s.mp3_channel_mode == "stereo"@ ==> option_is(codec_args("mp3"@, s, info), "-ac"@, "2"@),
        s.mp3_channel_mode != "mono"@ && s.mp3_channel_mode != "stereo"@ ==> lacks_option(
            codec_args("mp3"@, s, info),
            "-ac"@,
        ),
{
    lemma_names();
    lemma_mp3_shape(s, info);
    let args = codec_args("mp3"@, s, info);
    if s.mp3_channel_mode == "mono"@ || s.mp3_channel_mode == "stereo"@ {
        assert(args[args.len() - 2] == "-ac"@);
    }
}

/// With the preset of the user, an mp3 is asked for at the quality or at the rate
/// of the settings, as the mode says, and at their sample rate where they have
/// one.
pub proof fn mp3_quality_is_that_of_the_settings(s: SettingsView, info: InfoView)
    requires
        s.mp3_preset == "custom"@,
    ensures
        ({
            let args = codec_args("mp3"@, s, info);
            let quality = decimal(s.mp3_vbr_quality as nat);
            let rate = decimal(s.mp3_bitrate as nat) + seq!['k'];
            &&& s.mp3_mode == "vbr"@ ==> option_is(args, "-q:a"@, quality) && lacks_option(
                args,
                "-b:a"@,
            )
            &&& s.mp3_mode != "vbr"@ ==> option_is(args, "-b:a"@, rate) && lacks_option(
                args,
                "-q:a"@,
            )
            &&& s.mp3_sample_rate > 0 ==> option_is(
                args,
                "-ar"@,
                decimal(s.mp3_sample_rate as nat),
            )
            &&& s.mp3_sample_rate == 0 ==> lacks_option(args, "-ar"@)
        }),
{
    lemma_names();
    lemma_mp3_shape(s, info);
    let args = codec_args("mp3"@, s, info);
    assert(kilobits(s.mp3_bitrate as nat) =~= decimal(s.mp3_bitrate as nat) + seq!['k']);
    if s.mp3_mode == "vbr"@ {
        assert(args[2] == "-q:a"@);
    } else {
        assert(args[2] == "-b:a"@);
    }
    if s.mp3_sample_rate > 0 {
        assert(args[4] == "-ar"@);
    }
}

/// With the preset of the user, an aac is asked for at the rate, the sample rate
/// and the channels of the settings, where they have them.
pub proof fn aac_quality_is_that_of_the_settings(s: SettingsView, info: InfoView)
    requires
        s.aac_preset == "custom"@,
    ensures
        ({
            let args = codec_args("aac"@, s, info);
            &&& option_is(args, "-b:a"@, decimal(s.m4a_bitrate as nat) + seq!['k'])
            &&& s.aac_sample_rate > 0 ==> option_is(
                args,
                "-ar"@,
                decimal(s.aac_sample_rate as nat),
            )
            &&& s.aac_sample_rate == 0 ==> lacks_option(args, "-ar"@)
            &&& 1 <= s.aac_channels <= 2 ==> option_is(
                args,
                "-ac"@,
                decimal(s.aac_channels as nat),
            )
            &&& !(1 <= s.aac_channels <= 2) ==> lacks_option(args, "-ac"@)
        }),
{
    lemma_names();
    lemma_aac_shape(s, info);
    let args = codec_args("aac"@, s, info);
    assert(kilobits(s.m4a_bitrate as nat) =~= decimal(s.m4a_bitrate as nat) + seq!['k']);
    assert(args[2] == "-b:a"@);
    if s.aac_sample_rate > 0 {
        assert(args[4] == "-ar"@);
    }
    assert(decimal(1) =~= "1"@);
    assert(decimal(2) =~= "2"@);
    if 1 <= s.aac_channels <= 2 {
        assert(args[args.len() - 2] == "-ac"@);
    }
}

/// With the preset of the user, an opus is asked for at the rate and with the
/// effort of the settings; at a rate that does not vary where the mode says so,
/// and only there.
pub proof fn opus_quality_is_that_of_the_settings(s: SettingsView, info: InfoView)
    requires
        s.opus_preset == "custom"@,
    ensures
        ({
            let args = codec_args("opus"@, s, info);
            &&& option_is(args, "-b:a"@, decimal(s.opus_bitrate as nat) + seq!['k'])
            &&& option_is(args, "-compression_level"@, decimal(s.opus_complexity as nat))
            &&& s.opus_mode == "cbr"@ ==> option_is(args, "-vbr"@, "off"@)
            &&& s.opus_mode != "cbr"@ ==> lacks_option(args, "-vbr"@)
        }),
{
    lemma_names();
    lemma_opus_shape(s, info);
    let args = codec_args("opus"@, s, info);
    assert(kilobits(s.opus_bitrate as nat) =~= decimal(s.opus_bitrate as nat) + seq!['k']);
    assert(args[args.len() - 4] == "-b:a"@);
    assert(args[args.len() - 2] == "-compression_level"@);
    if s.opus_mode == "cbr"@ {
        assert(args[2] == "-vbr"@);
    }
}

/// A preset that writes a number asks for that number: of thousands of bits for
/// the formats that lose something, and as the effort for flac. Nothing else of
/// the settings counts then.
pub proof fn a_preset_asks_for_its_number(s: SettingsView, info: InfoView, n: nat)
    ensures
        ({
            let rate = decimal(n) + seq!['k'];
            &&& s.mp3_preset == decimal(n) && n <= u32::MAX ==> codec_args("mp3"@, s, info) == seq![
                "-c:a"@,
                "libmp3lame"@,
                "-b:a"@,
                rate,
            ]
            &&& s.aac_preset == decimal(n) && n <= u32::MAX ==> codec_args("aac"@, s, info) == seq![
                "-c:a"@,
                "aac"@,
                "-b:a"@,
                rate,
            ]
            &&& s.opus_preset == decimal(n) && n <= u32::MAX ==> codec_args("opus"@, s, info)
                == seq!["-c:a"@, "libopus"@, "-b:a"@, rate]
            &&& s.flac_preset == decimal(n) && n <= u8::MAX ==> option_is(
                codec_args("flac"@, s, info),
                "-compression_level"@,
                decimal(n),
            )
        }),
{
    lemma_names();
    lemma_flac_shape(s, info);
    crate::text::a_written_number_reads_back(n, u32::MAX as nat);
    crate::text::a_written_number_reads_back(n, u8::MAX as nat);
    crate::text::numbers_are_written_in_tens(n);
    assert(crate::text::is_digit(decimal(n)[0]));
    assert(decimal(n) != "custom"@);
    assert(kilobits(n) =~= decimal(n) + seq!['k']);
    assert(codec_args("flac"@, s, info)[2] == "-compression_level"@);
    if s.mp3_preset == decimal(n) && n <= u32::MAX {
        assert(codec_args("mp3"@, s, info) =~= seq![
            "-c:a"@,
            "libmp3lame"@,
            "-b:a"@,
            decimal(n) + seq!['k'],
        ]);
    }
    if s.aac_preset == decimal(n) && n <= u32::MAX {
        assert(codec_args("aac"@, s, info) =~= seq![
            "-c:a"@,
            "aac"@,
            "-b:a"@,
            decimal(n) + seq!['k'],
        ]);
    }
    if s.opus_preset == decimal(n) && n <= u32::MAX {
        assert(codec_args("opus"@, s, info) =~= seq![
            "-c:a"@,
            "libopus"@,
            "-b:a"@,
            decimal(n) + seq!['k'],
        ]);
    }
}

/// A preset that is no number and not that of the user asks for an ordinary
/// quality: 192 thousand bits for mp3, 128 for aac and opus, and the fifth level
/// for flac.
pub proof fn an_unknown_preset_asks_for_the_ordinary(s: SettingsView, info: InfoView)
    ensures
        s.mp3_preset != "custom"@ && unsigned_upto(s.mp3_preset, u32::MAX as nat) is None
            ==> option_is(codec_args("mp3"@, s, info), "-b:a"@, decimal(192) + seq!['k']),
        s.aac_preset != "custom"@ && unsigned_upto(s.aac_preset, u32::MAX as nat) is None
            ==> option_is(codec_args("aac"@, s, info), "-b:a"@, decimal(128) + seq!['k']),
        s.opus_preset != "custom"@ && unsigned_upto(s.opus_preset, u32::MAX as nat) is None
            ==> option_is(codec_args("opus"@, s, info), "-b:a"@, decimal(128) + seq!['k']),
        s.flac_preset != "custom"@ && unsigned_upto(s.flac_preset, u8::MAX as nat) is None
            ==> option_is(codec_args("flac"@, s, info), "-compression_level"@, decimal(5)),
{
    lemma_names();
    lemma_mp3_shape(s, info);
    lemma_aac_shape(s, info);
    lemma_opus_shape(s, info);
    lemma_flac_shape(s, info);
    assert(kilobits(192) =~= decimal(192) + seq!['k']);
    assert(kilobits(128) =~= decimal(128) + seq!['k']);
    if s.mp3_preset != "custom"@ {
        assert(codec_args("mp3"@, s, info)[2] == "-b:a"@);
    }
    if s.aac_preset != "custom"@ {
        assert(codec_args("aac"@, s, info)[2] == "-b:a"@);
    }
    if s.opus_preset != "custom"@ {
        assert(codec_args("opus"@, s, info)[2] == "-b:a"@);
    }
    assert(codec_args("flac"@, s, info)[2] == "-compression_level"@);
}

/// A flac is written with the effort of the settings where the preset is that of
/// the user; an alac with samples of 24 bits where the user asks for them, and
/// with those of the input in any other case.
pub proof fn lossless_formats_follow_the_settings(s: SettingsView, info: InfoView)
    ensures
        s.flac_preset == "custom"@ ==> option_is(
            codec_args("flac"@, s, info),
            "-compression_level"@,
            decimal(s.flac_compression as nat),
        ),
        s.alac_preset == "custom"@ && s.alac_bit_depth == 24 ==> option_is(
            codec_args("alac"@, s, info),
            "-sample_fmt"@,
            "s32p"@,
        ),
        s.alac_preset != "custom"@ || s.alac_bit_depth != 24 ==> lacks_option(
            codec_args("alac"@, s, info),
            "-sample_fmt"@,
        ),
{
    lemma_names();
    lemma_flac_shape(s, info);
    assert(codec_args("flac"@, s, info)[2] == "-compression_level"@);
    let alac = codec_args("alac"@, s, info);
    if s.alac_preset == "custom"@ && s.alac_bit_depth == 24 {
        assert(alac[2] == "-sample_fmt"@);
    }
}

/// What is decoded keeps the sample size of the input where it has 24 or 32 bits,
/// and has 16 else: the least significant byte first in a wav, and last in an
/// aiff. The settings do not count.
pub proof fn decoding_keeps_the_sample_size(s: SettingsView, info: InfoView)
    ensures
        ({
            let bits = info.bits_per_sample;
            let kept = decimal(
                if bits == 24 || bits == 32 {
                    bits as nat
                } else {
                    16
                },
            );
            &&& codec_args("wav"@, s, info) == seq!["-c:a"@, "pcm_s"@ + kept + "le"@]
            &&& codec_args("aiff"@, s, info) == seq!["-c:a"@, "pcm_s"@ + kept + "be"@]
        }),
{
    lemma_names();
    reveal_strlit("pcm_s");
    reveal_strlit("le");
    reveal_strlit("be");
    reveal_strlit("pcm_s16le");
    reveal_strlit("pcm_s24le");
    reveal_strlit("pcm_s32le");
    reveal_strlit("pcm_s16be");
    reveal_strlit("pcm_s24be");
    reveal_strlit("pcm_s32be");
    reveal_with_fuel(decimal, 3);
    assert(decimal(16) =~= seq!['1', '6']);
    assert(decimal(24) =~= seq!['2', '4']);
    assert(decimal(32) =~= seq!['3', '2']);
    assert("pcm_s"@ + decimal(16) + "le"@ =~= "pcm_s16le"@);
    assert("pcm_s"@ + decimal(24) + "le"@ =~= "pcm_s24le"@);
    assert("pcm_s"@ + decimal(32) + "le"@ =~= "pcm_s32le"@);
    assert("pcm_s"@ + decimal(16) + "be"@ =~= "pcm_s16be"@);
    assert("pcm_s"@ + decimal(24) + "be"@ =~= "pcm_s24be"@);
    assert("pcm_s"@ + decimal(32) + "be"@ =~= "pcm_s32be"@);
}

/// The settings of one format do not change what is asked for another.
pub proof fn formats_do_not_share_settings(
    s: SettingsView,
    other: SettingsView,
    info: InfoView,
    other_info: InfoView,
)
    ensures
        other.mp3_preset == s.mp3_preset && other.mp3_mode == s.mp3_mode && other.mp3_bitrate
            == s.mp3_bitrate && other.mp3_vbr_quality == s.mp3_vbr_quality && other.mp3_sample_rate
            == s.mp3_sample_rate && other.mp3_channel_mode == s.mp3_channel_mode ==> codec_args(
            "mp3"@,
            other,
            other_info,
        ) == codec_args("mp3"@, s, info),
        other.aac_preset == s.aac_preset && other.m4a_bitrate == s.m4a_bitrate
            && other.aac_sample_rate == s.aac_sample_rate && other.aac_channels == s.aac_channels
            ==> codec_args("aac"@, other, other_info) == codec_args("aac"@, s, info),
        other.opus_preset == s.opus_preset && other.opus_mode == s.opus_mode && other.opus_bitrate
            == s.opus_bitrate && other.opus_complexity == s.opus_complexity ==> codec_args(
            "opus"@,
            other,
            other_info,
        ) == codec_args("opus"@, s, info),
        other.flac_preset == s.flac_preset && other.flac_compression == s.flac_compression
            ==> codec_args("flac"@, other, other_info) == codec_args("flac"@, s, info),
        other.alac_preset == s.alac_preset && other.alac_bit_depth == s.alac_bit_depth
            ==> codec_args("alac"@, other, other_info) == codec_args("alac"@, s, info),
{
    lemma_names();
}

/// What is asked of the codec says nothing of streams, tags, filters, files or
/// how far the conversion has come: it consists of names of a codec's options,
/// each with a value.
pub proof fn codec_args_are_about_the_codec(format: Seq<char>, s: SettingsView, info: InfoView)
    ensures
        ({
            let args = codec_args(format, s, info);
            &&& args.len() % 2 == 0
            &&& forall|i: int|
                0 <= i < args.len() ==> {
                    let arg = #[trigger] args[i];
                    if i % 2 == 0 {
                        arg == "-c:a"@ || arg == "-b:a"@ || arg == "-q:a"@ || arg == "-ar"@ || arg
                            == "-ac"@ || arg == "-vbr"@ || arg == "-compression_level"@ || arg
                            == "-sample_fmt"@
                    } else {
                        arg.len() > 0 && arg[0] != '-'
                    }
                }
        }),
{
    lemma_names();
    lemma_mp3_shape(s, info);
    lemma_aac_shape(s, info);
    lemma_opus_shape(s, info);
    lemma_flac_shape(s, info);
}

} // verus!
