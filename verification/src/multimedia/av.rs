//! Sound and video content.

use crate::byteseq::{bytes_equal_at, occurs_at};
use crate::security::quirks::{lowercase, to_lowercase};
use crate::text::{ends_with_text, text_ends_with};
use vstd::prelude::*;

verus! {

/// What is known of an embedded sound.
#[derive(Debug, Clone)]
pub struct AudioInfo {
    pub format: Option<String>,
    pub byte_len: usize,
    pub channels: Option<i64>,
    pub sample_rate: Option<i64>,
    pub bits_per_sample: Option<i64>,
}

/// The text of an optional string.
pub open spec fn opt_text(o: Option<String>) -> Option<Seq<char>> {
    match o {
        Some(s) => Some(s@),
        None => None,
    }
}

/// The marker `RIFF`.
pub open spec fn riff_magic() -> Seq<u8> {
    seq![0x52u8, 0x49, 0x46, 0x46]
}

/// The marker `WAVE`.
pub open spec fn wave_magic() -> Seq<u8> {
    seq![0x57u8, 0x41, 0x56, 0x45]
}

/// The marker `ID3`.
pub open spec fn id3_magic() -> Seq<u8> {
    seq![0x49u8, 0x44, 0x33]
}

/// The marker `OggS`.
pub open spec fn ogg_magic() -> Seq<u8> {
    seq![0x4fu8, 0x67, 0x67, 0x53]
}

/// The marker `fLaC`.
pub open spec fn flac_magic() -> Seq<u8> {
    seq![0x66u8, 0x4c, 0x61, 0x43]
}

/// The format of a sound: the stream's subtype when it names one, else what its raw bytes
/// open with (`RIFF` with `WAVE` at byte 8, `ID3`, `OggS` or `fLaC`).
pub open spec fn audio_format(subtype: Option<Seq<char>>, data: Option<Seq<u8>>) -> Option<Seq<char>> {
    match subtype {
        Some(s) => Some(s),
        None => match data {
            None => None,
            Some(d) => if occurs_at(d, riff_magic(), 0) && occurs_at(d, wave_magic(), 8) {
                Some("WAV"@)
            } else if occurs_at(d, id3_magic(), 0) {
                Some("MP3"@)
            } else if occurs_at(d, ogg_magic(), 0) {
                Some("OGG"@)
            } else if occurs_at(d, flac_magic(), 0) {
                Some("FLAC"@)
            } else {
                None
            },
        },
    }
}

/// The format of a sound stream, from the name of its `Subtype` (without the slash) and its
/// raw bytes.
pub fn detect_audio_format(subtype: Option<&str>, data: Option<&[u8]>) -> (r: Option<String>)
    ensures
        opt_text(r) == audio_format(
            match subtype {
                Some(s) => Some(s@),
                None => None,
            },
            match data {
                Some(d) => Some(d@),
                None => None,
            },
        ),
{
    if let Some(s) = subtype {
        return Some(s.to_string());
    }
    let d = match data {
        Some(d) => d,
        None => {
            return None;
        },
    };
    let riff = vec![0x52u8, 0x49, 0x46, 0x46];
    let wave = vec![0x57u8, 0x41, 0x56, 0x45];
    let id3 = vec![0x49u8, 0x44, 0x33];
    let ogg = vec![0x4fu8, 0x67, 0x67, 0x53];
    let flac = vec![0x66u8, 0x4c, 0x61, 0x43];
    assert(riff@ =~= riff_magic() && wave@ =~= wave_magic() && id3@ =~= id3_magic());
    assert(ogg@ =~= ogg_magic() && flac@ =~= flac_magic());
    if bytes_equal_at(d, 0, riff.as_slice()) && bytes_equal_at(d, 8, wave.as_slice()) {
        Some("WAV".to_string())
    } else if bytes_equal_at(d, 0, id3.as_slice()) {
        Some("MP3".to_string())
    } else if bytes_equal_at(d, 0, ogg.as_slice()) {
        Some("OGG".to_string())
    } else if bytes_equal_at(d, 0, flac.as_slice()) {
        Some("FLAC".to_string())
    } else {
        None
    }
}

/// The format that a file name's extension gives, letter case aside: MP4, MOV, MKV, AVI,
/// MP3, WAV or OGG.
pub open spec fn format_from_name(name: Seq<char>) -> Option<Seq<char>> {
    let lower = lowercase(name);
    if text_ends_with(lower, ".mp4"@) {
        Some("MP4"@)
    } else if text_ends_with(lower, ".mov"@) {
        Some("MOV"@)
    } else if text_ends_with(lower, ".mkv"@) {
        Some("MKV"@)
    } else if text_ends_with(lower, ".avi"@) {
        Some("AVI"@)
    } else if text_ends_with(lower, ".mp3"@) {
        Some("MP3"@)
    } else if text_ends_with(lower, ".wav"@) {
        Some("WAV"@)
    } else if text_ends_with(lower, ".ogg"@) {
        Some("OGG"@)
    } else {
        None
    }
}

/// The format that a file name's extension gives.
pub fn guess_format_from_name(name: &str) -> (r: Option<String>)
    ensures
        opt_text(r) == format_from_name(name@),
{
    let lower = to_lowercase(name);
    let l = lower.as_str();
    if ends_with_text(l, ".mp4") {
        Some("MP4".to_string())
    } else if ends_with_text(l, ".mov") {
        Some("MOV".to_string())
    } else if ends_with_text(l, ".mkv") {
        Some("MKV".to_string())
    } else if ends_with_text(l, ".avi") {
        Some("AVI".to_string())
    } else if ends_with_text(l, ".mp3") {
        Some("MP3".to_string())
    } else if ends_with_text(l, ".wav") {
        Some("WAV".to_string())
    } else if ends_with_text(l, ".ogg") {
        Some("OGG".to_string())
    } else {
        None
    }
}

/// The integer entries `C`, `R` and `B` of a sound dictionary.
#[derive(Debug, Clone, Copy)]
pub struct SoundParams {
    pub channels: Option<i64>,
    pub sample_rate: Option<i64>,
    pub bits_per_sample: Option<i64>,
}

/// What the info reads of a sound stream: its length, the name of its `Subtype` (without
/// the slash), its raw bytes and the parameters of its dictionary.
pub struct SoundStream {
    pub byte_len: usize,
    pub subtype: Option<String>,
    pub raw: Option<Vec<u8>>,
    pub params: SoundParams,
}

/// What the info reads of an annotation's `Sound` entry: a stream, a dictionary (with its
/// `Stream` entry and its parameters), or another value.
pub enum SoundEntry {
    Stream(SoundStream),
    Dictionary(Option<SoundStream>, SoundParams),
    Other,
}

/// The format of a sound stream, as [`audio_format`] says.
pub open spec fn stream_format(s: SoundStream) -> Option<Seq<char>> {
    audio_format(
        match s.subtype {
            Some(t) => Some(t@),
            None => None,
        },
        match s.raw {
            Some(d) => Some(d@),
            None => None,
        },
    )
}

/// The info holds the given length, format and parameters.
pub open spec fn audio_info_is(
    r: AudioInfo,
    byte_len: usize,
    format: Option<Seq<char>>,
    params: SoundParams,
) -> bool {
    &&& r.byte_len == byte_len
    &&& opt_text(r.format) == format
    &&& r.channels == params.channels
    &&& r.sample_rate == params.sample_rate
    &&& r.bits_per_sample == params.bits_per_sample
}

fn stream_format_of(s: &SoundStream) -> (r: Option<String>)
    ensures
        opt_text(r) == stream_format(*s),
{
    let subtype = match &s.subtype {
        Some(t) => Some(t.as_str()),
        None => None,
    };
    let raw = match &s.raw {
        Some(d) => Some(d.as_slice()),
        None => None,
    };
    detect_audio_format(subtype, raw)
}

/// What is known of a sound annotation from its `Sound` entry: nothing without one, or when
/// it is neither a stream nor a dictionary.
pub fn extract_audio_info(sound: Option<&SoundEntry>) -> (r: Option<AudioInfo>)
    ensures
        match sound {
            Some(SoundEntry::Stream(s)) => r matches Some(i) && audio_info_is(
                i,
                s.byte_len,
                stream_format(*s),
                s.params,
            ),
            Some(SoundEntry::Dictionary(Some(s), p)) => r matches Some(i) && audio_info_is(
                i,
                s.byte_len,
                stream_format(*s),
                *p,
            ),
            Some(SoundEntry::Dictionary(None, p)) => r matches Some(i) && audio_info_is(
                i,
                0,
                None,
                *p,
            ),
            _ => r is None,
        },
{
    let entry = match sound {
        Some(e) => e,
        None => {
            return None;
        },
    };
    match entry {
        SoundEntry::Stream(s) => Some(
            AudioInfo {
                format: stream_format_of(s),
                byte_len: s.byte_len,
                channels: s.params.channels,
                sample_rate: s.params.sample_rate,
                bits_per_sample: s.params.bits_per_sample,
            },
        ),
        SoundEntry::Dictionary(stream, params) => {
            let (format, byte_len) = match stream {
                Some(s) => (stream_format_of(s), s.byte_len),
                None => (None, 0),
            };
            Some(
                AudioInfo {
                    format,
                    byte_len,
                    channels: params.channels,
                    sample_rate: params.sample_rate,
                    bits_per_sample: params.bits_per_sample,
                },
            )
        },
        SoundEntry::Other => None,
    }
}

} // verus!
