use harmonia_core::models::RepeatMode;
use harmonia_core::queue::{shuffled_order, PlayQueue, QueueEntry, RemoveOutcome};

fn entry(id: i64, album: &str) -> QueueEntry<&'static str> {
    QueueEntry { id, album: album.to_string(), duration_ms: 1000, track: "t" }
}

fn ids(q: &PlayQueue<&'static str>) -> Vec<i64> {
    (0..q.order_len()).map(|p| q.entry_at(p).unwrap().id).collect()
}

fn queue_of(n: i64, shuffle: bool, repeat: RepeatMode) -> PlayQueue<&'static str> {
    let mut q = PlayQueue::new(shuffle, repeat);
    let tracks = (1..=n).map(|i| entry(i, "A")).collect();
    assert!(q.play_context(tracks, 0));
    q
}

#[test]
fn play_context_starts_at_the_requested_track() {
    let mut q = PlayQueue::new(false, RepeatMode::Off);
    assert!(q.play_context(vec![entry(10, "A"), entry(20, "A"), entry(30, "B")], 1));
    assert_eq!(q.cursor(), 1);
    assert_eq!(q.entry_at_cursor().unwrap().id, 20);
    assert_eq!(ids(&q), vec![10, 20, 30]);
    // Out-of-range starts clamp to the last track.
    assert!(q.play_context(vec![entry(1, "A"), entry(2, "A")], 9));
    assert_eq!(q.entry_at_cursor().unwrap().id, 2);
    // An empty context changes nothing.
    assert!(!q.play_context(vec![], 0));
    assert_eq!(q.entry_at_cursor().unwrap().id, 2);
}

#[test]
fn shuffled_context_is_a_permutation_starting_on_the_chosen_track() {
    let mut q = PlayQueue::new(true, RepeatMode::Off);
    let tracks = (0..50).map(|i| entry(i, "A")).collect();
    assert!(q.play_context(tracks, 17));
    assert_eq!(q.entry_at_cursor().unwrap().id, 17);
    let mut seen = ids(&q);
    seen.sort();
    assert_eq!(seen, (0..50).collect::<Vec<_>>());
}

#[test]
fn next_and_advance_follow_repeat_mode() {
    let mut q = queue_of(3, false, RepeatMode::Off);
    q.advance_cursor();
    q.advance_cursor();
    assert_eq!(q.entry_at_cursor().unwrap().id, 3);
    assert!(q.next_entry().is_none());
    q.advance_cursor();
    assert_eq!(q.cursor(), 2);
    q.set_repeat(RepeatMode::All);
    assert_eq!(q.next_entry().unwrap().id, 1);
    q.advance_cursor();
    assert_eq!(q.cursor(), 0);
}

#[test]
fn previous_restarts_after_three_seconds() {
    let mut q = queue_of(3, false, RepeatMode::Off);
    q.advance_cursor();
    assert!(!q.previous(3_001));
    assert_eq!(q.cursor(), 1);
    assert!(q.previous(3_000));
    assert_eq!(q.cursor(), 0);
    assert!(q.previous(0));
    assert_eq!(q.cursor(), 0);
    q.set_repeat(RepeatMode::All);
    assert!(q.previous(0));
    assert_eq!(q.cursor(), 2);
}

#[test]
fn select_track_moves_to_a_queued_track_or_empties_the_queue() {
    let mut q = queue_of(3, false, RepeatMode::Off);
    assert!(q.select_track(3));
    assert_eq!(q.entry_at_cursor().unwrap().id, 3);
    assert!(!q.select_track(99));
    assert_eq!(q.len(), 0);
    assert_eq!(q.cursor(), 0);
    q.load_single(entry(99, "Z"));
    assert_eq!(ids(&q), vec![99]);
    assert_eq!(q.entry_at_cursor().unwrap().id, 99);
}

#[test]
fn toggling_shuffle_keeps_the_current_track() {
    let mut q = queue_of(20, false, RepeatMode::Off);
    assert!(q.select_track(7));
    assert!(q.set_shuffle(true, Some(7)));
    assert_eq!(q.entry_at_cursor().unwrap().id, 7);
    assert!(!q.set_shuffle(true, Some(7)));
    assert!(q.set_shuffle(false, Some(7)));
    assert_eq!(q.entry_at_cursor().unwrap().id, 7);
    assert_eq!(ids(&q), (1..=20).collect::<Vec<_>>());
}

#[test]
fn append_extends_order_and_starts_when_idle() {
    let mut q: PlayQueue<&'static str> = PlayQueue::new(false, RepeatMode::Off);
    assert!(q.append(vec![entry(1, "A"), entry(2, "A")], true));
    assert_eq!(q.cursor(), 0);
    assert!(!q.append(vec![entry(3, "A")], false));
    assert_eq!(ids(&q), vec![1, 2, 3]);
    let mut empty: PlayQueue<&'static str> = PlayQueue::new(false, RepeatMode::Off);
    assert!(!empty.append(vec![], true));
}

#[test]
fn removing_entries_adjusts_the_cursor() {
    let mut q = queue_of(4, false, RepeatMode::Off);
    q.advance_cursor();
    q.advance_cursor();
    q.advance_cursor();
    assert_eq!(q.remove_at(9), RemoveOutcome::Ignored);
    assert_eq!(q.remove_at(3), RemoveOutcome::RemovedCurrent);
    assert_eq!(q.cursor(), 2);
    assert_eq!(q.remove_at(0), RemoveOutcome::Removed);
    assert_eq!(ids(&q), vec![2, 3]);
    assert_eq!(q.cursor(), 1);
    q.clear();
    assert_eq!(q.cursor(), -1);
    assert_eq!(q.len(), 0);
    assert!(q.entry_at_cursor().is_none());
}

#[test]
fn moving_entries_keeps_the_cursor_on_its_track() {
    let mut q = queue_of(5, false, RepeatMode::Off);
    q.advance_cursor();
    q.advance_cursor();
    assert_eq!(q.entry_at_cursor().unwrap().id, 3);
    assert!(q.move_item(0, 4));
    assert_eq!(ids(&q), vec![2, 3, 4, 5, 1]);
    assert_eq!(q.entry_at_cursor().unwrap().id, 3);
    assert!(q.move_item(1, 0));
    assert_eq!(ids(&q), vec![3, 2, 4, 5, 1]);
    assert_eq!(q.entry_at_cursor().unwrap().id, 3);
    assert!(!q.move_item(2, 2));
    assert!(!q.move_item(0, 5));
}

#[test]
fn visible_window_centres_long_queues_on_the_cursor() {
    let q = queue_of(10, false, RepeatMode::Off);
    assert_eq!(q.visible_window(), (0, 10));
    assert_eq!(q.visible_entries().len(), 10);
    let mut big = queue_of(5000, false, RepeatMode::Off);
    assert_eq!(big.visible_window(), (0, 2000));
    for _ in 0..3000 {
        big.advance_cursor();
    }
    assert_eq!(big.visible_window(), (2000, 4000));
    assert_eq!(big.visible_entries()[0].id, 2001);
}

#[test]
fn lookups_find_first_matches() {
    let q = queue_of(3, false, RepeatMode::Off);
    assert_eq!(q.find_by_id(2), Some(1));
    assert_eq!(q.find_by_id(9), None);
    assert_eq!(q.position_of_queue_index(2), Some(2));
    assert_eq!(q.entry(0).unwrap().id, 1);
    assert!(q.entry(3).is_none());
}

#[test]
fn shuffle_preference_applies_to_the_next_context() {
    let mut q = queue_of(30, false, RepeatMode::Off);
    q.set_shuffle_flag(true);
    assert!(q.shuffle());
    assert_eq!(ids(&q), (1..=30).collect::<Vec<_>>());
    assert!(!q.set_shuffle(true, None));
    q.set_shuffle_flag(false);
    assert!(q.play_context((1..=5).map(|i| entry(i, "A")).collect(), 2));
    assert_eq!(ids(&q), vec![1, 2, 3, 4, 5]);
    assert_eq!(q.entry_at_cursor().unwrap().id, 3);
}

#[test]
fn selecting_a_track_uses_its_first_queued_copy() {
    let mut q: PlayQueue<&'static str> = PlayQueue::new(false, RepeatMode::Off);
    assert!(q.play_context(vec![entry(1, "A"), entry(2, "A"), entry(2, "B")], 0));
    assert!(q.select_track(2));
    assert_eq!(q.cursor(), 1);
    assert_eq!(q.entry_at_cursor().unwrap().album, "A");
}

#[test]
fn next_then_previous_returns_to_the_same_track() {
    let mut q = queue_of(3, false, RepeatMode::All);
    for _ in 0..3 {
        let before = q.entry_at_cursor().unwrap().id;
        q.advance_cursor();
        assert!(q.previous(0));
        assert_eq!(q.entry_at_cursor().unwrap().id, before);
        q.advance_cursor();
    }
}

#[test]
fn shuffled_order_applies_each_draw_as_a_swap() {
    // Step k swaps position n-1-k with the k-th draw.
    assert_eq!(shuffled_order(4, &vec![0, 0, 0]), vec![1, 2, 3, 0]);
    assert_eq!(shuffled_order(3, &vec![0, 0]), vec![1, 2, 0]);
    assert_eq!(shuffled_order(3, &vec![2, 1]), vec![0, 1, 2]);
    assert_eq!(shuffled_order(4, &vec![1, 2, 0]), vec![3, 0, 2, 1]);
    assert_eq!(shuffled_order(1, &vec![]), vec![0]);
    assert_eq!(shuffled_order(0, &vec![]), Vec::<usize>::new());
}

#[test]
fn moving_keeps_the_cursor_on_the_same_copy_of_a_repeated_track() {
    let mut q = PlayQueue::new(false, RepeatMode::Off);
    assert!(q.play_context(vec![entry(7, "A"), entry(8, "A"), entry(7, "A")], 2));
    assert_eq!(q.cursor(), 2);
    assert!(q.move_item(1, 0));
    assert_eq!(ids(&q), vec![8, 7, 7]);
    assert_eq!(q.cursor(), 2);
    assert!(q.move_item(2, 0));
    assert_eq!(ids(&q), vec![7, 8, 7]);
    assert_eq!(q.cursor(), 0);
}

#[test]
fn shuffle_toggle_puts_the_cursor_on_the_first_copy_of_the_track() {
    let mut q = PlayQueue::new(false, RepeatMode::Off);
    assert!(q.play_context(vec![entry(5, "A"), entry(6, "A"), entry(5, "A")], 2));
    assert!(q.set_shuffle(true, Some(5)));
    assert!(q.set_shuffle(false, Some(5)));
    assert_eq!(ids(&q), vec![5, 6, 5]);
    assert_eq!(q.cursor(), 0);
}
