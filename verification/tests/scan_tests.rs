use harmonia_core::scan::{
    batch_full, classify_change, needs_initial_scan, parse_positions, parse_progress_due, plan_job, touched_by,
    Debouncer, PathChange, ScanStats,
};

#[test]
fn incremental_scans_skip_unchanged_files() {
    let unchanged = plan_job("/m/a.mp3".into(), 10, 100, Some((10, 100)), false);
    assert!(unchanged.exists_in_db && !unchanged.needs_parse);
    let forced = plan_job("/m/a.mp3".into(), 10, 100, Some((10, 100)), true);
    assert!(forced.needs_parse);
    let touched = plan_job("/m/a.mp3".into(), 11, 100, Some((10, 100)), false);
    assert!(touched.needs_parse && touched.exists_in_db);
    let resized = plan_job("/m/a.mp3".into(), 10, 101, Some((10, 100)), false);
    assert!(resized.needs_parse);
    let new = plan_job("/m/b.mp3".into(), 1, 1, None, false);
    assert!(new.needs_parse && !new.exists_in_db);
    assert_eq!(parse_positions(&vec![unchanged, new, forced]), vec![1, 2]);
}

#[test]
fn scan_tallies_each_parse_once() {
    let mut s = ScanStats::new();
    let mut reports = 0;
    for _ in 0..1000 {
        if s.record_found() {
            reports += 1;
        }
    }
    assert_eq!(reports, 2);
    s.record_parsed(true, true);
    s.record_parsed(false, true);
    s.record_parsed(false, true);
    s.record_parsed(true, false);
    assert_eq!((s.found, s.added, s.updated, s.failed, s.removed), (1000, 2, 1, 1, 0));
}

#[test]
fn progress_and_batch_cadence() {
    assert!(parse_progress_due(0));
    assert!(!parse_progress_due(249));
    assert!(parse_progress_due(500));
    assert!(!batch_full(499));
    assert!(batch_full(500));
}

#[test]
fn changed_paths_are_classified() {
    assert_eq!(classify_change(true, true, true), PathChange::Rescan);
    assert_eq!(classify_change(false, true, true), PathChange::Store);
    assert_eq!(classify_change(false, true, false), PathChange::Remove);
    assert_eq!(classify_change(false, false, true), PathChange::Ignore);
    assert_eq!(touched_by(PathChange::Rescan, 7), 7);
    assert_eq!(touched_by(PathChange::Remove, 7), 1);
    assert_eq!(touched_by(PathChange::Ignore, 7), 0);
}

#[test]
fn debouncer_batches_events_in_order() {
    let mut d: Debouncer<&str> = Debouncer::new();
    assert!(d.on_quiet().is_none());
    d.on_event(vec!["a", "b"]);
    d.on_event(vec![]);
    d.on_event(vec!["c"]);
    assert_eq!(d.pending_len(), 3);
    assert_eq!(d.on_quiet(), Some(vec!["a", "b", "c"]));
    assert_eq!(d.pending_len(), 0);
    assert!(d.on_quiet().is_none());
}

#[test]
fn debounced_batches_concatenate_to_the_arrived_paths() {
    let mut d: Debouncer<u32> = Debouncer::new();
    let mut batches: Vec<Vec<u32>> = Vec::new();
    let inputs: Vec<Option<Vec<u32>>> = vec![
        Some(vec![1, 2]),
        None,
        None,
        Some(vec![3]),
        Some(vec![]),
        Some(vec![4, 5]),
        None,
        Some(vec![6]),
    ];
    for input in inputs {
        match input {
            Some(paths) => d.on_event(paths),
            None => {
                if let Some(b) = d.on_quiet() {
                    batches.push(b);
                }
            }
        }
    }
    assert_eq!(batches, vec![vec![1, 2], vec![3, 4, 5]]);
    assert!(batches.iter().all(|b| !b.is_empty()));
    assert_eq!(d.pending_len(), 1);
}

#[test]
fn first_run_scans_only_an_empty_library_with_folders() {
    assert!(needs_initial_scan(Some(0), 1));
    assert!(needs_initial_scan(None, 2));
    assert!(!needs_initial_scan(Some(0), 0));
    assert!(!needs_initial_scan(Some(3), 1));
}
