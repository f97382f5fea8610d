use harmonia_core::meta::{
    artwork_key, artwork_key_for_digest, hex, pick_artwork, plan_cache_eviction, replay_gain_text, resolve_tags,
    track_format, year_of, RawTags,
};

fn empty_tags() -> RawTags {
    RawTags {
        title: None,
        artist: None,
        album: None,
        genre: None,
        album_artist: None,
        composer: None,
        year: None,
        recording_date: None,
        track: None,
        disk: None,
        unsynced_lyrics: None,
        synced_lyrics: None,
    }
}

#[test]
fn artwork_cache_is_content_addressed() {
    let png = [0x89, b'P', b'N', b'G', 0x0D, 0x0A, 0x1A, 0x0A, 1, 2, 3];
    let k = artwork_key(&png).unwrap();
    let h = k.hash.clone();
    assert_eq!(h.len(), 64);
    assert_eq!(k.file_name, format!("{h}.png"));
    let k2 = artwork_key(&png).unwrap();
    assert_eq!(h, k2.hash);
}

#[test]
fn artwork_key_is_the_sha256_of_the_bytes() {
    let k = artwork_key(b"abc").unwrap();
    assert_eq!(
        k.hash,
        "ba7816bf8f01cfea414140de5dae2223b00361a396177a9cb410ff61f20015ad"
    );
    assert_eq!(k.file_name, format!("{}.jpg", k.hash));
    assert!(artwork_key(&[]).is_none());
    let d = artwork_key_for_digest(&[0x00, 0xAB, 0x7F], b"GIF8");
    assert_eq!(d.hash, "00ab7f");
    assert_eq!(d.file_name, "00ab7f.gif");
    assert_eq!(hex(&[0x0f, 0xf0]), "0ff0");
}

#[test]
fn missing_tags_fall_back() {
    let t = resolve_tags(&empty_tags(), "/music/tone.wav");
    assert_eq!(t.title, "tone");
    assert_eq!(t.artist, "");
    assert_eq!(t.album_artist, "");
    assert_eq!(t.year, None);
    assert_eq!(t.track_no, None);
}

#[test]
fn tag_values_win_and_album_artist_falls_back_to_artist() {
    let mut raw = empty_tags();
    raw.title = Some("Song".into());
    raw.artist = Some("Band".into());
    raw.album_artist = Some(String::new());
    raw.year = Some("1999-05-01".into());
    raw.recording_date = Some("2001".into());
    raw.track = Some(3);
    raw.disk = Some(1);
    raw.unsynced_lyrics = Some("la".into());
    let t = resolve_tags(&raw, "/m/x.mp3");
    assert_eq!(t.title, "Song");
    assert_eq!(t.album_artist, "Band");
    assert_eq!(t.year, Some(1999));
    assert_eq!(t.track_no, Some(3));
    assert_eq!(t.disc_no, Some(1));
    assert_eq!(t.lyrics.as_deref(), Some("la"));
    assert_eq!(t.lyrics_synced, None);
    raw.album_artist = Some("Various".into());
    raw.year = None;
    let t = resolve_tags(&raw, "/m/x.mp3");
    assert_eq!(t.album_artist, "Various");
    assert_eq!(t.year, Some(2001));
    // An unreadable year item does not fall back to the recording date.
    raw.year = Some("MCMXC".into());
    assert_eq!(resolve_tags(&raw, "/m/x.mp3").year, None);
}

#[test]
fn years_read_the_first_four_characters() {
    assert_eq!(year_of("2020-01-02"), Some(2020));
    assert_eq!(year_of("87"), Some(87));
    assert_eq!(year_of("-123"), Some(-123));
    assert_eq!(year_of("20x0"), None);
    assert_eq!(year_of(""), None);
}

#[test]
fn artwork_prefers_the_front_cover() {
    assert_eq!(pick_artwork(&vec![false, true, true]), Some(1));
    assert_eq!(pick_artwork(&vec![false, false]), Some(0));
    assert_eq!(pick_artwork(&vec![]), None);
}

#[test]
fn formats_are_lowercase_extensions() {
    assert_eq!(track_format("/m/Song.FLAC"), "flac");
    assert_eq!(track_format("/m/noext"), "");
    assert_eq!(track_format("/m/.hidden"), "");
    assert_eq!(track_format("/m/a.b.Mp3"), "mp3");
}

#[test]
fn replay_gain_prefers_the_track_gain_and_falls_back_to_the_album_gain() {
    assert_eq!(replay_gain_text(Some("-6,5 dB"), Some("-3 dB")), Some("-6.5".to_string()));
    assert_eq!(replay_gain_text(None, Some("+1.25 dB")), Some("+1.25".to_string()));
    // A track gain without a number does not fall back to the album gain.
    assert_eq!(replay_gain_text(Some("n/a"), Some("-3 dB")), None);
    assert_eq!(replay_gain_text(None, None), None);
}

#[test]
fn cache_eviction_removes_the_oldest_files_until_the_rest_fits() {
    let files = vec![(10u64, 5i64), (20, 1), (30, 3), (5, 1)];
    assert_eq!(plan_cache_eviction(&files, 40), vec![1, 3]);
    assert_eq!(plan_cache_eviction(&files, 100), Vec::<usize>::new());
    assert_eq!(plan_cache_eviction(&files, 65), Vec::<usize>::new());
    assert_eq!(plan_cache_eviction(&files, 0), vec![1, 3, 2, 0]);
    assert_eq!(plan_cache_eviction(&vec![(0, 1), (50, 2)], 10), vec![0, 1]);
    assert_eq!(plan_cache_eviction(&vec![], 0), Vec::<usize>::new());
}
