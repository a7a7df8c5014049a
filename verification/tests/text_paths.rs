use dj_tool::backend::audio::{output_format, output_format_for_extension, OutputFormat};
use dj_tool::text::{chars_equal, is_whitespace_char, path_extension, split_last, to_lowercase, trim_whitespace};

#[test]
fn trims_line_breaks_and_spaces() {
    assert_eq!(trim_whitespace("  music\n"), "music");
    assert_eq!(trim_whitespace("\t my tracks \r\n"), "my tracks");
    assert_eq!(trim_whitespace("   "), "");
    assert_eq!(trim_whitespace(""), "");
}

#[test]
fn trims_unicode_whitespace() {
    assert_eq!(trim_whitespace("\u{3000}x y\u{a0}\u{2029}"), "x y");
    assert_eq!(trim_whitespace("\u{85}a\u{200b}"), "a\u{200b}");
}

#[test]
fn trim_is_idempotent() {
    for s in ["  a b  ", "\n\nx", "y\t", "", " ", "\u{2000}z\u{205f}"] {
        let once = trim_whitespace(s);
        assert_eq!(trim_whitespace(&once), once);
        assert_eq!(once, s.trim());
    }
}

#[test]
fn whitespace_matches_std() {
    for c in ['\t', '\n', '\u{b}', '\u{c}', '\r', ' ', '\u{85}', '\u{a0}', '\u{1680}', '\u{2000}',
        '\u{200a}', '\u{2028}', '\u{2029}', '\u{202f}', '\u{205f}', '\u{3000}', 'a', '\u{200b}',
        '\u{180e}', '\u{feff}', '_']
    {
        assert_eq!(is_whitespace_char(c), c.is_whitespace());
    }
}

#[test]
fn splits_at_last_separator() {
    assert_eq!(split_last("a/b.c/song.flac", '.'), "flac");
    assert_eq!(split_last("noext", '.'), "noext");
    assert_eq!(split_last("trailing.", '.'), "");
    assert_eq!(split_last("", '.'), "");
    assert_eq!(split_last("x.tar.gz", '.'), "gz");
}

#[test]
fn path_extensions_follow_std() {
    let cases = [
        "a.tar.gz", "a.", "..a", ".hidden", "noext", "dir.d/", "dir.mp3/.", "a.mp3/..", "", ".",
        "..", "/", "x/.y.z", "a//b.c//", "./song.MP3", "a/./b.wav",
    ];
    for p in cases {
        let expected = std::path::Path::new(p)
            .extension()
            .map(|e| e.to_str().unwrap().to_string());
        assert_eq!(path_extension(p), expected, "path {:?}", p);
    }
}

#[test]
fn lowercases_and_compares() {
    assert_eq!(to_lowercase("MP3"), "mp3");
    assert_eq!(to_lowercase("AiF"), "aif");
    assert!(chars_equal("aiff", "aiff"));
    assert!(!chars_equal("aiff", "aif"));
    assert!(!chars_equal("mp3", "mp4"));
}

#[test]
fn chooses_mp3() {
    assert_eq!(output_format("out/song.mp3", None, None).ok(), Some(OutputFormat::Mp3 { bitrate_kbps: 320 }));
    assert_eq!(output_format("song.MP3", Some(128), Some(24)).ok(), Some(OutputFormat::Mp3 { bitrate_kbps: 128 }));
    assert_eq!(output_format("dir.mp3/.", None, None).ok(), Some(OutputFormat::Mp3 { bitrate_kbps: 320 }));
}

#[test]
fn chooses_aiff() {
    assert_eq!(output_format("a/b.Aif", None, None).ok(), Some(OutputFormat::Aiff { bits_per_sample: 16 }));
    assert_eq!(output_format("x.AIFF", Some(99), Some(24)).ok(), Some(OutputFormat::Aiff { bits_per_sample: 24 }));
}

#[test]
fn refuses_other_formats() {
    match output_format("x.WAV", None, None) {
        Err(e) => assert_eq!(e.extension, "wav"),
        Ok(_) => panic!("wav is not supported"),
    }
    match output_format("noext", None, None) {
        Err(e) => assert_eq!(e.extension, ""),
        Ok(_) => panic!("no extension"),
    }
    match output_format(".mp3", None, None) {
        Err(e) => assert_eq!(e.extension, ""),
        Ok(_) => panic!("a hidden file has no extension"),
    }
    match output_format_for_extension("flac", None, None) {
        Err(e) => assert_eq!(e.extension, "flac"),
        Ok(_) => panic!("flac is not supported"),
    }
}
