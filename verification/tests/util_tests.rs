use harmonia_core::error::CoreError;
use harmonia_core::util::{
    escape_like, folder_of, format_duration, gain_number_text, is_audio_file, now_secs, sniff_image_ext,
    title_from_filename,
};

#[test]
fn duration_formatting() {
    assert_eq!(format_duration(0), "0:00");
    assert_eq!(format_duration(65_000), "1:05");
    assert_eq!(format_duration(3_661_000), "1:01:01");
}

#[test]
fn like_escaping() {
    assert_eq!(escape_like("50%_off"), r"50\%\_off");
}

#[test]
fn image_sniffing() {
    assert_eq!(sniff_image_ext(&[0xFF, 0xD8, 0xFF, 0xE0]), "jpg");
    assert_eq!(
        sniff_image_ext(&[0x89, b'P', b'N', b'G', 0x0D, 0x0A, 0x1A, 0x0A]),
        "png"
    );
    assert_eq!(sniff_image_ext(&[1, 2, 3]), "jpg");
}

#[test]
fn audio_detection() {
    assert!(is_audio_file("/m/song.MP3"));
    assert!(is_audio_file("/m/song.flac"));
    assert!(!is_audio_file("/m/cover.jpg"));
    assert!(!is_audio_file("/m/notes.txt"));
}

#[test]
fn duration_formatting_drops_partial_seconds_and_negatives() {
    assert_eq!(format_duration(59_999), "0:59");
    assert_eq!(format_duration(-5_000), "0:00");
    assert_eq!(format_duration(3_600_000), "1:00:00");
    assert_eq!(format_duration(36_000_000 + 61_000), "10:01:01");
}

#[test]
fn like_escaping_handles_backslashes_and_plain_text() {
    assert_eq!(escape_like(r"a\b"), r"a\\b");
    assert_eq!(escape_like("plain"), "plain");
    assert_eq!(escape_like(""), "");
}

#[test]
fn image_sniffing_recognises_gif_and_webp() {
    assert_eq!(sniff_image_ext(b"GIF89a"), "gif");
    assert_eq!(sniff_image_ext(b"RIFF\0\0\0\0WEBPVP8 "), "webp");
    assert_eq!(sniff_image_ext(&[]), "jpg");
}

#[test]
fn audio_detection_edge_cases() {
    assert!(is_audio_file("song.Opus"));
    assert!(is_audio_file("/m/dir.mp3/track.m4a"));
    assert!(!is_audio_file("/m/.mp3"));
    assert!(!is_audio_file("/m/noext"));
    assert!(is_audio_file("/m/song.mp3/"));
    assert!(is_audio_file("/m/song.mp3/."));
    assert!(!is_audio_file("/"));
    assert!(!is_audio_file(""));
}

#[test]
fn titles_fall_back_to_file_stem() {
    assert_eq!(title_from_filename("/music/tone.wav"), "tone");
    assert_eq!(title_from_filename("/music/a.b.mp3"), "a.b");
    assert_eq!(title_from_filename("/music/.hidden"), ".hidden");
    assert_eq!(title_from_filename("/"), "Unknown");
    assert_eq!(title_from_filename("/music/.."), "Unknown");
}

#[test]
fn gain_text_keeps_the_number_only() {
    assert_eq!(gain_number_text("+1.23 dB").as_deref(), Some("+1.23"));
    assert_eq!(gain_number_text("-4.5 dB").as_deref(), Some("-4.5"));
    assert_eq!(gain_number_text("0.00").as_deref(), Some("0.00"));
    assert_eq!(gain_number_text("-2,75 dB").as_deref(), Some("-2.75"));
    assert_eq!(gain_number_text("nope"), None);
}

#[test]
fn clock_is_after_2020() {
    assert!(now_secs() > 1_577_836_800);
}

#[test]
fn error_messages_name_their_category() {
    assert_eq!(CoreError::Invalid("x".into()).message(), "invalid input: x");
    assert_eq!(CoreError::Metadata("y".into()).message(), "metadata error: y");
    assert_eq!(CoreError::Playlist("z".into()).message(), "playlist error: z");
}

#[test]
fn timestamps_from_elapsed_time() {
    assert_eq!(harmonia_core::util::timestamp_from(Some(1_700_000_000)), 1_700_000_000);
    assert_eq!(harmonia_core::util::timestamp_from(None), 0);
}

#[test]
fn folder_of_is_the_parent_directory() {
    assert_eq!(folder_of("/music/a/b.mp3"), "/music/a");
    assert_eq!(folder_of("/b.mp3"), "/");
    assert_eq!(folder_of("b.mp3"), "");
    assert_eq!(folder_of("/"), "");
    assert_eq!(folder_of(""), "");
    assert_eq!(folder_of("/a//b.mp3"), "/a");
    assert_eq!(folder_of("/a/./b/"), "/a");
    assert_eq!(folder_of("./a"), ".");
    assert_eq!(folder_of("//a"), "/");
    assert_eq!(folder_of("a/."), "");
    assert_eq!(folder_of("/a/../b"), "/a/..");
    for p in ["/music/a/b.mp3", "/b.mp3", "b.mp3", "/", "/a//b.mp3", "/a/./b/", "./a", "//a", "a/.", "/a/../b", "x/y/"] {
        let expected = std::path::Path::new(p)
            .parent()
            .map(|d| d.to_string_lossy().into_owned())
            .unwrap_or_default();
        assert_eq!(folder_of(p), expected, "path {p}");
    }
}
