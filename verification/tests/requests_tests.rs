use harmonia_core::requests::{
    artwork_candidates, artwork_data_url, data_url, export_extension, import_result,
    playlist_name, playlist_rules, resume_info_from, wants_smart, AppPaths, ResumeInfo,
};

#[test]
fn resume_points_come_from_stored_settings() {
    assert_eq!(
        resume_info_from(Some("42"), Some("1500")),
        Some(ResumeInfo { track_id: 42, position_ms: 1500 })
    );
    assert_eq!(
        resume_info_from(Some("42"), Some("-5")),
        Some(ResumeInfo { track_id: 42, position_ms: 0 })
    );
    assert_eq!(
        resume_info_from(Some("42"), None),
        Some(ResumeInfo { track_id: 42, position_ms: 0 })
    );
    assert_eq!(resume_info_from(Some("x"), Some("10")), None);
    assert_eq!(resume_info_from(None, Some("10")), None);
}

#[test]
fn playlist_names_are_trimmed_and_required() {
    assert_eq!(playlist_name("  Roadtrip \n"), Ok("Roadtrip".to_string()));
    assert_eq!(
        playlist_name(" \t "),
        Err("playlist name cannot be empty".to_string())
    );
    assert!(wants_smart(Some("smart")));
    assert!(!wants_smart(Some("static")));
    assert!(!wants_smart(None));
}

#[test]
fn export_extensions() {
    assert_eq!(export_extension("m3u8"), Ok("m3u"));
    assert_eq!(export_extension("m3u"), Ok("m3u"));
    assert_eq!(export_extension("pls"), Ok("pls"));
    assert_eq!(export_extension("xspf"), Ok("xspf"));
    assert_eq!(export_extension("M3U"), Err("unsupported format: M3U".to_string()));
}

#[test]
fn artwork_is_served_as_data_urls() {
    let c = artwork_candidates("ab12");
    let names: Vec<&str> = c.iter().map(|(n, _)| n.as_str()).collect();
    assert_eq!(names, vec!["ab12.jpg", "ab12.png", "ab12.gif", "ab12.webp"]);
    assert_eq!(c[3].1, "webp");
    assert!(artwork_candidates("").is_empty());
    assert_eq!(
        artwork_data_url("png", b"hello").as_deref(),
        Some("data:image/png;base64,aGVsbG8=")
    );
    assert_eq!(artwork_data_url("jpg", &[]).as_deref(), Some("data:image/jpg;base64,"));
    assert!(artwork_data_url("jpg", &vec![0u8; 512_001]).is_none());
    assert!(artwork_data_url("jpg", &vec![0u8; 512_000]).is_some());
    assert_eq!(data_url("gif", "QQ=="), "data:image/gif;base64,QQ==");
}

#[test]
fn app_paths_and_import_counts() {
    let p = AppPaths::from_dirs("/data/app", "/cache/app/");
    assert_eq!(p.db_path, "/data/app/harmonia.db");
    assert_eq!(p.art_dir, "/cache/app/art");
    let r = import_result(3);
    assert_eq!((r.added, r.failed), (3, 0));
}

#[test]
fn playlists_resolve_by_kind() {
    assert_eq!(playlist_rules("smart", Some("{}".into())), Ok(Some("{}".to_string())));
    assert_eq!(
        playlist_rules("smart", None),
        Err("smart playlist has no rules".to_string())
    );
    assert_eq!(playlist_rules("static", Some("{}".into())), Ok(None));
}
