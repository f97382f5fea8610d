use harmonia_core::settings::{
    accent_ok, fit_len, folder_changes, language_ok, missing_from, normalize_accent,
    normalize_language, DEFAULT_ACCENT, EQ_BAND_COUNT,
};

#[test]
fn accent_and_language_checks() {
    assert!(accent_ok("#7c5cff"));
    assert!(!accent_ok("7c5cff0"));
    assert!(!accent_ok("#7c5cf"));
    assert!(accent_ok("#7c5cé"));
    assert!(!accent_ok("#7c5cfé"));
    assert!(language_ok("en") && language_ok("es"));
    assert!(!language_ok("fr"));
    assert_eq!(normalize_accent("red".into()), DEFAULT_ACCENT);
    assert_eq!(normalize_accent("#000000".into()), "#000000");
    assert_eq!(normalize_language("de".into()), "en");
    assert_eq!(normalize_language("es".into()), "es");
}

#[test]
fn eq_gains_are_fitted_to_the_bands() {
    assert_eq!(fit_len(vec![1, 2, 3], EQ_BAND_COUNT, 0), vec![1, 2, 3, 0, 0, 0, 0, 0, 0, 0]);
    assert_eq!(fit_len((0..12).collect(), EQ_BAND_COUNT, 0), (0..10).collect::<Vec<_>>());
    assert_eq!(fit_len(vec![1.5f32; 4], 2, 0.0), vec![1.5, 1.5]);
}

#[test]
fn folder_updates_list_removed_and_added_roots() {
    let old = vec!["/a".to_string(), "/b".to_string()];
    let new = vec!["/b".to_string(), "/c".to_string()];
    let c = folder_changes(&old, &new);
    assert!(c.changed);
    assert_eq!(c.removed, vec!["/a"]);
    assert_eq!(c.added, vec!["/c"]);
    let same = folder_changes(&old, &old);
    assert!(!same.changed && same.removed.is_empty() && same.added.is_empty());
    let reordered = folder_changes(&old, &vec!["/b".to_string(), "/a".to_string()]);
    assert!(reordered.changed && reordered.removed.is_empty() && reordered.added.is_empty());
    assert_eq!(missing_from(&old, &vec![]), old);
}
