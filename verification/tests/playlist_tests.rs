use harmonia_core::error::CoreError;
use harmonia_core::playlist::{
    file_uri, parse_m3u, parse_pls, parse_xspf, render_m3u, render_playlist, render_pls, render_xspf, split_newlines,
    xml_escape, PlaylistEntry,
};

fn track(path: &str, artist: &str, title: &str, ms: i64) -> PlaylistEntry {
    PlaylistEntry {
        path: path.into(),
        title: title.into(),
        artist: artist.into(),
        album: "Al".into(),
        duration_ms: ms,
    }
}

#[test]
fn m3u_roundtrip() {
    let tracks = vec![track("/music/a.mp3", "A", "One", 65_000)];
    let content = render_playlist("m3u", "Mix", &tracks).unwrap();
    assert!(content.starts_with("#EXTM3U"));
    assert!(content.contains("#EXTINF:65,"));
    assert!(content.contains("/music/a.mp3"));
    let imported = parse_m3u(&content, "/tmp/lists");
    assert_eq!(imported, vec!["/music/a.mp3".to_string()]);
}

#[test]
fn m3u8_is_an_alias_for_m3u() {
    let tracks = vec![track("/music/a.mp3", "A", "One", 65_000)];
    let m3u_content = render_playlist("m3u", "Mix", &tracks).unwrap();
    let m3u8_content = render_playlist("m3u8", "Mix", &tracks).unwrap();
    assert_eq!(
        m3u_content, m3u8_content,
        "m3u8 must be byte-identical to m3u"
    );
    assert!(m3u8_content.contains("#EXTINF:65,\"A\" - One"));
}

#[test]
fn m3u_export_multiple_tracks_in_order() {
    let tracks = vec![
        track("/music/a.mp3", "A", "One", 65_000),
        track("/music/b.flac", "B", "Two", 130_000),
    ];
    let content = render_playlist("m3u", "Mix", &tracks).unwrap();
    let a = content.find("/music/a.mp3").unwrap();
    let b = content.find("/music/b.flac").unwrap();
    assert!(a < b, "tracks must be exported in order");
    assert!(content.contains("#EXTINF:130,\"B\" - Two"));
}

#[test]
fn m3u_import_skips_comments_and_blank_lines() {
    let imported = parse_m3u(
        "#EXTM3U\n#EXTINF:65,A - One\n/music/a.mp3\n\n# just a comment\n/music/b.mp3\n",
        "/tmp/lists",
    );
    assert_eq!(
        imported,
        vec!["/music/a.mp3".to_string(), "/music/b.mp3".to_string()]
    );
}

#[test]
fn m3u_import_absolute_paths_passthrough() {
    let imported = parse_m3u("/music/song.mp3\n", "/tmp/lists");
    assert_eq!(imported, vec!["/music/song.mp3".to_string()]);
}

#[test]
fn relative_and_uri_paths_resolve() {
    let imported = parse_m3u("song.mp3\n", "/tmp/lists");
    assert_eq!(imported, vec!["/tmp/lists/song.mp3".to_string()]);
}

#[test]
fn m3u_import_resolves_nested_relative_paths() {
    let imported = parse_m3u("sub/dir/song.mp3\n", "/tmp/lists");
    assert_eq!(imported, vec!["/tmp/lists/sub/dir/song.mp3".to_string()]);
}

#[test]
fn m3u_import_decodes_percent_encoded_file_uris() {
    let imported = parse_m3u("file:///music/My%20Song%20%231.mp3\n", "/tmp/lists");
    assert_eq!(imported, vec!["/music/My Song #1.mp3".to_string()]);
}

#[test]
fn m3u_import_handles_malformed_utf8_gracefully() {
    let imported = parse_m3u("file:///music/%FF%FE.mp3\n", "/tmp/lists");
    assert_eq!(imported, vec!["/music/%FF%FE.mp3".to_string()]);
}

#[test]
fn m3u_import_file_uri_with_host_prefix_is_kept_raw() {
    let imported = parse_m3u("file://localhost/music/a.mp3\n", "/tmp/lists");
    assert_eq!(imported, vec!["localhost/music/a.mp3".to_string()]);
}

#[test]
fn pls_export_writes_valid_structure() {
    let tracks = vec![track("/music/a.mp3", "A", "One", 65_000)];
    let content = render_playlist("pls", "Mix", &tracks).unwrap();
    assert!(content.starts_with("[playlist]\n"));
    assert!(content.contains("File1=/music/a.mp3\n"));
    assert!(content.contains("Title1=A - One\n"));
    assert!(content.contains("Length1=65\n"));
    assert!(content.ends_with("NumberOfEntries=1\nVersion=2\n"));
}

#[test]
fn pls_export_counts_multiple_entries() {
    let tracks = vec![
        track("/music/a.mp3", "A", "One", 65_000),
        track("/music/b.flac", "B", "Two", 130_000),
    ];
    let content = render_playlist("pls", "Two", &tracks).unwrap();
    assert!(content.contains("File1=/music/a.mp3\n"));
    assert!(content.contains("File2=/music/b.flac\n"));
    assert!(content.contains("Title2=B - Two\n"));
    assert!(content.contains("Length2=130\n"));
    assert!(content.contains("NumberOfEntries=2\n"));
}

#[test]
fn pls_export_empty_playlist() {
    let content = render_playlist("pls", "Empty", &vec![]).unwrap();
    assert!(content.ends_with("NumberOfEntries=0\nVersion=2\n"));
}

#[test]
fn xspf_export_uses_millisecond_durations() {
    let tracks = vec![track("/music/a.mp3", "A", "One", 65_000)];
    let content = render_playlist("xspf", "Mix", &tracks).unwrap();
    assert!(content.contains("<duration>65000</duration>"));
    assert!(!content.contains("<duration>65</duration>"));
}

#[test]
fn xspf_escapes_xml() {
    let mut t = track("/music/a.mp3", "A&B", "One <Two>", 65_000);
    t.title = "One <Two> & More".into();
    let content = render_playlist("xspf", "Mix & Match", &vec![t]).unwrap();
    assert!(content.contains("&amp;"));
    assert!(content.contains("&lt;"));
    assert!(content.contains("<location>file:///music/a.mp3</location>"));
    assert!(content.contains("<title>One &lt;Two&gt; &amp; More</title>"));
    assert!(content.contains("<creator>A&amp;B</creator>"));
    assert!(content.contains("<title>Mix &amp; Match</title>"));
}

#[test]
fn xspf_escapes_all_five_xml_characters() {
    let mut t = track("/music/a.mp3", "A", "Say \"hi\"", 1000);
    t.album = "It's <&> \"quoted\"".into();
    let content = render_playlist("xspf", "Name 'with' \"quotes\"", &vec![t]).unwrap();
    assert!(content.contains("Say &quot;hi&quot;"));
    assert!(content.contains("It&apos;s &lt;&amp;&gt; &quot;quoted&quot;"));
    assert!(content.contains("Name &apos;with&apos; &quot;quotes&quot;"));
}

#[test]
fn file_uri_encodes_special_characters() {
    assert_eq!(file_uri("/music/a b.mp3"), "file:///music/a%20b.mp3");
    assert_eq!(file_uri("/music/#1.mp3"), "file:///music/%231.mp3");
    assert_eq!(file_uri("/music/q?x=1.mp3"), "file:///music/q%3Fx=1.mp3");
    assert_eq!(file_uri("/music/50%.mp3"), "file:///music/50%25.mp3");
    assert_eq!(file_uri("/music/a\\b.mp3"), "file:///music/a%5Cb.mp3");
    assert_eq!(
        file_uri("/music/{x}|y^z.mp3"),
        "file:///music/%7Bx%7D%7Cy%5Ez.mp3"
    );
    assert_eq!(file_uri("/music/a.b/c.mp3"), "file:///music/a.b/c.mp3");
}

#[test]
fn xspf_export_uri_escapes_spaces_and_specials() {
    let t = track("/music/My Song #1.mp3", "A", "One", 65_000);
    let content = render_playlist("xspf", "Mix", &vec![t]).unwrap();
    assert!(content.contains("<location>file:///music/My%20Song%20%231.mp3</location>"));
}

#[test]
fn export_rejects_unknown_formats() {
    let err = render_playlist("wpl", "Mix", &vec![]).unwrap_err();
    assert!(matches!(err, CoreError::Invalid(_)));
}

#[test]
fn export_format_is_case_insensitive_and_errors_name_it() {
    let tracks = vec![track("/music/a.mp3", "A", "One", 65_000)];
    assert_eq!(
        render_playlist("M3U8", "Mix", &tracks).unwrap(),
        render_m3u(&tracks)
    );
    assert_eq!(render_playlist("Pls", "Mix", &tracks).unwrap(), render_pls(&tracks));
    assert_eq!(
        render_playlist("XSPF", "Mix", &tracks).unwrap(),
        render_xspf("Mix", &tracks)
    );
    match render_playlist("WPL", "Mix", &tracks) {
        Err(CoreError::Invalid(m)) => assert_eq!(m, "unsupported playlist format: wpl"),
        other => panic!("unexpected {other:?}"),
    }
}

#[test]
fn exact_m3u_and_pls_documents() {
    let tracks = vec![
        track("/music/a.mp3", "A", "One", 65_999),
        track("/music/b.mp3", "B", "Two", -1_500),
    ];
    assert_eq!(
        render_m3u(&tracks),
        "#EXTM3U\n#EXTINF:65,\"A\" - One\n/music/a.mp3\n#EXTINF:-1,\"B\" - Two\n/music/b.mp3\n"
    );
    assert_eq!(
        render_pls(&tracks),
        "[playlist]\nFile1=/music/a.mp3\nTitle1=A - One\nLength1=65\nFile2=/music/b.mp3\nTitle2=B - Two\nLength2=-1\nNumberOfEntries=2\nVersion=2\n"
    );
}

#[test]
fn exact_xspf_document() {
    let tracks = vec![track("/m/é x.mp3", "A", "T", 1000)];
    assert_eq!(
        render_xspf("N", &tracks),
        "<?xml version=\"1.0\" encoding=\"UTF-8\"?>\n\
<playlist version=\"1\" xmlns=\"http://xspf.org/ns/0/\">\n  <title>N</title>\n  <trackList>\n    <track>\n      <location>file:///m/%C3%A9%20x.mp3</location>\n      <title>T</title>\n      <creator>A</creator>\n      <album>Al</album>\n      <duration>1000</duration>\n    </track>\n  </trackList>\n</playlist>\n"
    );
}

#[test]
fn xml_escape_maps_each_special_character() {
    assert_eq!(xml_escape("<a href='x'>&\"</a>"), "&lt;a href=&apos;x&apos;&gt;&amp;&quot;&lt;/a&gt;");
    assert_eq!(xml_escape("plain"), "plain");
}

#[test]
fn file_uri_encodes_controls_and_non_ascii() {
    assert_eq!(file_uri("/m/\u{7f}\t"), "file:///m/%7F%09");
    assert_eq!(file_uri("/m/ü"), "file:///m/%C3%BC");
    assert_eq!(file_uri("/m/a:b=c&d"), "file:///m/a:b=c&d");
}

#[test]
fn m3u_lines_are_trimmed_and_crlf_tolerated() {
    let imported = parse_m3u("#EXTM3U\r\n  /music/a.mp3  \r\nrel.mp3\r\n\r\n", "/base/");
    assert_eq!(imported, vec!["/music/a.mp3".to_string(), "/base/rel.mp3".to_string()]);
    assert_eq!(parse_m3u("x.mp3", ""), vec!["x.mp3".to_string()]);
    assert_eq!(parse_m3u("", "/b"), Vec::<String>::new());
}

#[test]
fn m3u_uri_decoding_keeps_stray_percent_signs() {
    assert_eq!(
        parse_m3u("file:///m/100%/a%2x%41.mp3", "/b"),
        vec!["/m/100%/a%2xA.mp3".to_string()]
    );
    assert_eq!(
        parse_m3u("file:///m/%c3%a9.mp3", "/b"),
        vec!["/m/é.mp3".to_string()]
    );
}

#[test]
fn newline_splitting_keeps_the_tail() {
    assert_eq!(split_newlines("a\nb\n"), vec!["a", "b", ""]);
    assert_eq!(split_newlines(""), vec![""]);
}

#[test]
fn exported_m3u_imports_back_every_path() {
    let tracks = vec![
        track("/music/a b.mp3", "A \"x\"", "One, Two", 1),
        track("/music/#hash.flac", "", "", 0),
        track("/m/é.ogg", "B", "T", 5_000),
    ];
    let doc = render_m3u(&tracks);
    let paths: Vec<String> = tracks.iter().map(|t| t.path.clone()).collect();
    assert_eq!(parse_m3u(&doc, "/elsewhere"), paths);
}

#[test]
fn file_uris_import_back_as_their_paths() {
    for p in ["/music/My Song #1.mp3", "/m/50%_ü?.flac", "/a\\b{c}|d^e`f\"g<h>i", ""] {
        assert_eq!(parse_m3u(&file_uri(p), "/base"), vec![p.to_string()]);
    }
}

#[test]
fn exported_pls_imports_back_every_path() {
    let tracks = vec![
        track("/music/a b.mp3", "A", "One", 65_000),
        track("/music/x=y.flac", "B", "Two", 1_000),
        track("/music/c.ogg", "C", "Three", 0),
    ];
    let doc = render_pls(&tracks);
    assert_eq!(
        parse_pls(&doc, "/lists"),
        vec!["/music/a b.mp3", "/music/x=y.flac", "/music/c.ogg"]
    );
}

#[test]
fn pls_import_reads_file_lines_in_order() {
    let doc = "[playlist]\r\nFile2 = rel/b.mp3\nTitle2=x\n  File1=/abs/a.mp3  \nFile3=\nFile4=file:///m/%C3%A9.mp3\nNumberOfEntries=4\nFileX\n";
    assert_eq!(
        parse_pls(doc, "/lists"),
        vec!["/lists/rel/b.mp3", "/abs/a.mp3", "/m/\u{e9}.mp3"]
    );
    assert!(parse_pls("", "/l").is_empty());
}

#[test]
fn exported_xspf_imports_back_every_path() {
    let tracks = vec![
        track("/music/a b & c.mp3", "A <1>", "One", 65_000),
        track("/music/\u{e9}t\u{e9}\n.flac", "B", "Two", 1_000),
    ];
    let doc = render_xspf("Mix", &tracks);
    assert_eq!(
        parse_xspf(&doc, "/lists"),
        vec!["/music/a b & c.mp3", "/music/\u{e9}t\u{e9}\n.flac"]
    );
}

#[test]
fn xspf_import_reads_location_lines() {
    let doc = "<trackList>\n  <location>file:///m/a%20b.mp3</location>\n<title>t</title>\n<location>rel.mp3</location>\n<location></location>\n";
    assert_eq!(parse_xspf(doc, "/lists"), vec!["/m/a b.mp3", "/lists/rel.mp3"]);
}
