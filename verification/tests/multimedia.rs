use pdf_ast::multimedia::av::{
    detect_audio_format, extract_audio_info, guess_format_from_name, SoundEntry, SoundParams, SoundStream,
};
use pdf_ast::multimedia::richmedia::{
    extract_richmedia_info, unique_strings, AssetEntry, RichMediaContent, RichMediaSettings,
};
use pdf_ast::types::ValueShape;
use pdf_ast::multimedia::threed::{detect_3d_format, extract_threed_info, ThreeDStream};

#[test]
fn detect_audio_formats() {
    let data = b"RIFFxxxxWAVE".to_vec();
    assert_eq!(detect_audio_format(None, Some(&data)), Some("WAV".to_string()));
}

#[test]
fn audio_format_prefers_the_subtype_and_knows_other_markers() {
    assert_eq!(detect_audio_format(Some("AIFF"), Some(b"ID3")), Some("AIFF".to_string()));
    assert_eq!(detect_audio_format(None, Some(b"ID3\x04")), Some("MP3".to_string()));
    assert_eq!(detect_audio_format(None, Some(b"OggS...")), Some("OGG".to_string()));
    assert_eq!(detect_audio_format(None, Some(b"fLaC")), Some("FLAC".to_string()));
    assert_eq!(detect_audio_format(None, Some(b"RIFFxxxxAVI ")), None);
    assert_eq!(detect_audio_format(None, None), None);
}

#[test]
fn detect_u3d_subtype() {
    let data = vec![0u8; 4];
    assert_eq!(detect_3d_format(Some("U3D"), Some(&data)), Some("U3D".to_string()));
}

#[test]
fn detect_prc_header() {
    let data = b"PRC\0xxxx".to_vec();
    assert_eq!(detect_3d_format(None, Some(&data)), Some("PRC".to_string()));
}

#[test]
fn threed_subtype_ignores_ascii_case_and_falls_back_to_bytes() {
    assert_eq!(detect_3d_format(Some("prc"), None), Some("PRC".to_string()));
    assert_eq!(detect_3d_format(Some("Other"), Some(b"U3D\0")), Some("U3D".to_string()));
    assert_eq!(detect_3d_format(Some("Other"), Some(b"xxxx")), None);
}

#[test]
fn formats_follow_file_extensions() {
    assert_eq!(guess_format_from_name("clip.mp4"), Some("MP4".to_string()));
    assert_eq!(guess_format_from_name("CLIP.MOV"), Some("MOV".to_string()));
    assert_eq!(guess_format_from_name("a.mkv"), Some("MKV".to_string()));
    assert_eq!(guess_format_from_name("a.avi"), Some("AVI".to_string()));
    assert_eq!(guess_format_from_name("song.Mp3"), Some("MP3".to_string()));
    assert_eq!(guess_format_from_name("x.wav"), Some("WAV".to_string()));
    assert_eq!(guess_format_from_name("x.ogg"), Some("OGG".to_string()));
    assert_eq!(guess_format_from_name("x.txt"), None);
    assert_eq!(guess_format_from_name("mp4"), None);
}

#[test]
fn unique_strings_keep_first_occurrences() {
    let list = vec!["Video".to_string(), "Audio".to_string(), "Video".to_string(), "Text".to_string()];
    assert_eq!(unique_strings(list), vec!["Video", "Audio", "Text"]);
    assert!(unique_strings(vec![]).is_empty());
}

#[test]
fn parse_assets_and_configs() {
    // Names: [/Video <<>> (Audio) <<>>], Configurations: [].
    let content = RichMediaContent {
        asset_names: Some(vec![
            AssetEntry::Name("Video".to_string()),
            AssetEntry::Other,
            AssetEntry::Text("Audio".to_string()),
            AssetEntry::Other,
        ]),
        configurations: Some(ValueShape::Array(0)),
    };
    let info = extract_richmedia_info(None, Some(&content), None);
    assert_eq!(info.assets_count, 2);
    assert_eq!(info.asset_names.len(), 2);
    assert_eq!(info.configuration_count, 0);
}

#[test]
fn parse_scripts() {
    // Scripts: [<<>> <<>>].
    let settings = RichMediaSettings { scripts: Some(ValueShape::Array(2)), script: None };
    let info = extract_richmedia_info(None, None, Some(&settings));
    assert_eq!(info.script_count, 2);
}

#[test]
fn richmedia_counts_fall_back_and_deduplicate() {
    let content = RichMediaContent {
        asset_names: Some(vec![
            AssetEntry::Name("A".to_string()),
            AssetEntry::Other,
            AssetEntry::Name("A".to_string()),
            AssetEntry::Other,
            AssetEntry::Other,
        ]),
        configurations: Some(ValueShape::Dictionary(3)),
    };
    let own = RichMediaSettings { scripts: Some(ValueShape::Other), script: Some(ValueShape::Dictionary(1)) };
    let info = extract_richmedia_info(Some(&own), Some(&content), None);
    assert_eq!(info.assets_count, 3);
    assert_eq!(info.asset_names, vec!["A", "asset"]);
    assert_eq!(info.configuration_count, 1);
    assert_eq!(info.script_count, 1);
    let empty = RichMediaSettings { scripts: None, script: Some(ValueShape::Dictionary(0)) };
    assert_eq!(extract_richmedia_info(Some(&empty), None, None).script_count, 0);
}

#[test]
fn threed_info_flags() {
    // The annotation has 3DV and 3DA entries and no stream.
    let info = extract_threed_info(true, true, None);
    assert!(info.has_view);
    assert!(info.has_activation);
}

#[test]
fn threed_info_reads_the_stream() {
    let stream = ThreeDStream { byte_len: 8, subtype: None, raw: Some(b"PRC\0xxxx".to_vec()) };
    let info = extract_threed_info(false, true, Some(&stream));
    assert_eq!(info.byte_len, 8);
    assert_eq!(info.format, Some("PRC".to_string()));
    assert!(!info.has_view);
}

#[test]
fn audio_info_reads_streams_and_dictionaries() {
    let params = SoundParams { channels: Some(2), sample_rate: Some(44100), bits_per_sample: Some(16) };
    let stream = SoundStream { byte_len: 12, subtype: None, raw: Some(b"RIFFxxxxWAVE".to_vec()), params };
    let info = extract_audio_info(Some(&SoundEntry::Stream(stream))).unwrap();
    assert_eq!(info.format, Some("WAV".to_string()));
    assert_eq!(info.byte_len, 12);
    assert_eq!(info.channels, Some(2));
    assert_eq!(info.sample_rate, Some(44100));
    assert_eq!(info.bits_per_sample, Some(16));

    let none = SoundParams { channels: None, sample_rate: None, bits_per_sample: None };
    let inner = SoundStream { byte_len: 4, subtype: Some("AIFF".to_string()), raw: None, params: none };
    let dict_params = SoundParams { channels: Some(1), sample_rate: None, bits_per_sample: None };
    let info = extract_audio_info(Some(&SoundEntry::Dictionary(Some(inner), dict_params))).unwrap();
    assert_eq!(info.format, Some("AIFF".to_string()));
    assert_eq!(info.channels, Some(1));
    let info = extract_audio_info(Some(&SoundEntry::Dictionary(None, none))).unwrap();
    assert_eq!(info.byte_len, 0);
    assert!(info.format.is_none());
    assert!(extract_audio_info(Some(&SoundEntry::Other)).is_none());
    assert!(extract_audio_info(None).is_none());
}
