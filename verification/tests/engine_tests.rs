use harmonia_core::engine::{
    normalize_sleep_timer, parse_sleep_timer, seek_target, sleep_timer_kind, sleep_timer_ui,
    track_end_action, SleepTimer, TrackEndAction, Transport, TransportAction,
};
use harmonia_core::models::RepeatMode;

#[test]
fn sleep_timer_requests_parse_by_kind() {
    assert_eq!(parse_sleep_timer("off", None), Ok(SleepTimer::Off));
    assert_eq!(parse_sleep_timer("minutes", None), Ok(SleepTimer::Minutes(30)));
    assert_eq!(parse_sleep_timer("minutes", Some(5)), Ok(SleepTimer::Minutes(5)));
    assert_eq!(parse_sleep_timer("endOfTrack", Some(5)), Ok(SleepTimer::EndOfTrack));
    assert_eq!(parse_sleep_timer("endOfAlbum", None), Ok(SleepTimer::EndOfAlbum));
    assert_eq!(
        parse_sleep_timer("later", None),
        Err("unknown sleep timer kind: later".to_string())
    );
}

#[test]
fn sleep_timer_names_and_zero_minutes() {
    assert_eq!(sleep_timer_kind(&SleepTimer::Minutes(3)), "minutes");
    assert_eq!(sleep_timer_kind(&SleepTimer::EndOfAlbum), "endOfAlbum");
    let ui = sleep_timer_ui(&SleepTimer::Off, None);
    assert_eq!(ui.kind, "off");
    assert_eq!(ui.remaining_secs, None);
    assert_eq!(normalize_sleep_timer(SleepTimer::Minutes(0)), SleepTimer::Off);
    assert_eq!(normalize_sleep_timer(SleepTimer::Minutes(1)), SleepTimer::Minutes(1));
}

#[test]
fn track_end_decisions() {
    assert_eq!(
        track_end_action(RepeatMode::One, SleepTimer::Off, Some("A"), None, true),
        TrackEndAction::RepeatCurrent
    );
    assert_eq!(
        track_end_action(RepeatMode::One, SleepTimer::EndOfTrack, Some("A"), None, true),
        TrackEndAction::StopEndOfTrack
    );
    assert_eq!(
        track_end_action(RepeatMode::One, SleepTimer::EndOfAlbum, Some("A"), Some("B"), false),
        TrackEndAction::StopEndOfAlbum
    );
    assert_eq!(
        track_end_action(RepeatMode::One, SleepTimer::EndOfAlbum, Some("A"), Some("A"), false),
        TrackEndAction::RepeatCurrent
    );
    assert_eq!(
        track_end_action(RepeatMode::Off, SleepTimer::EndOfTrack, Some("A"), Some("A"), false),
        TrackEndAction::StopEndOfTrack
    );
    assert_eq!(
        track_end_action(RepeatMode::Off, SleepTimer::EndOfAlbum, Some("A"), Some("B"), false),
        TrackEndAction::StopEndOfAlbum
    );
    assert_eq!(
        track_end_action(RepeatMode::All, SleepTimer::EndOfAlbum, Some("A"), Some("A"), false),
        TrackEndAction::Advance
    );
    assert_eq!(
        track_end_action(RepeatMode::Off, SleepTimer::Off, Some("A"), Some("B"), true),
        TrackEndAction::Crossfade
    );
    assert_eq!(
        track_end_action(RepeatMode::Off, SleepTimer::EndOfAlbum, Some("A"), None, false),
        TrackEndAction::StopEndOfQueue
    );
}

#[test]
fn seeks_clamp_to_the_track() {
    assert_eq!(seek_target(5_000, 60_000), 5_000);
    assert_eq!(seek_target(90_000, 60_000), 60_000);
    assert_eq!(seek_target(10, -1), 0);
}

#[test]
fn transport_requests() {
    let mut t = Transport::new();
    assert_eq!(t.toggle(), TransportAction::Nothing);
    assert!(!t.playing);
    t.started();
    assert!(t.playing && t.has_current && t.position_ms == 0);
    assert_eq!(t.toggle(), TransportAction::PauseAndSave);
    assert_eq!(t.pause(), TransportAction::Nothing);
    assert_eq!(t.toggle(), TransportAction::Play);
    assert_eq!(t.resume(), TransportAction::Nothing);
    assert_eq!(t.pause(), TransportAction::PauseAndSave);
    assert_eq!(t.resume(), TransportAction::Play);
    assert_eq!(t.stop(), TransportAction::Stop);
    assert!(!t.playing && !t.has_current);
    assert_eq!(t.resume(), TransportAction::Nothing);
}

#[test]
fn sleep_timers_arm_and_fire() {
    let mut t = Transport::new();
    t.started();
    assert_eq!(t.arm_sleep(SleepTimer::Minutes(2), Some("X".into())), Some(120));
    assert_eq!(t.sleep, SleepTimer::Minutes(2));
    assert!(t.sleep_album.is_none());
    assert_eq!(t.arm_sleep(SleepTimer::EndOfAlbum, Some("X".into())), None);
    assert_eq!(t.sleep_album.as_deref(), Some("X"));
    assert_eq!(t.arm_sleep(SleepTimer::Minutes(0), Some("X".into())), None);
    assert_eq!(t.sleep, SleepTimer::Off);
    t.arm_sleep(SleepTimer::EndOfTrack, None);
    assert_eq!(t.sleep_fired(), TransportAction::PauseAndSave);
    assert!(!t.playing && t.has_current);
    assert_eq!(t.sleep, SleepTimer::Off);
}

#[test]
fn toggling_twice_restores_the_playing_state() {
    let mut t = Transport::new();
    t.started();
    t.toggle();
    t.toggle();
    assert!(t.playing);
    t.pause();
    t.toggle();
    t.toggle();
    assert!(!t.playing);
}
