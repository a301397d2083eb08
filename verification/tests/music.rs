use galncelet::music::{
    effective_session_id, find_session_index, media_command, media_sessions_from_ids, needs_playback_status,
    needs_repeat_mode, next_repeat_mode, position_to_ticks, repeat_mode_name, thumbnail_from_bytes, thumbnail_size_ok,
    ticks_to_ms, MediaAction, MediaCommand, MediaReading, MusicPlayerState, RepeatMode,
};

fn reading(title: &str, pos_ticks: Option<i64>, playing: bool) -> MediaReading {
    MediaReading {
        title: title.to_string(),
        artist: "Artist".to_string(),
        album: "Album".to_string(),
        end_ticks: Some(2_000_000_000),
        position_ticks: pos_ticks,
        is_playing: playing,
        shuffle: false,
        repeat: RepeatMode::List,
    }
}

#[test]
fn repeat_modes_cycle_and_name() {
    assert_eq!(next_repeat_mode(Some(RepeatMode::Off)), RepeatMode::List);
    assert_eq!(next_repeat_mode(Some(RepeatMode::List)), RepeatMode::Track);
    assert_eq!(next_repeat_mode(Some(RepeatMode::Track)), RepeatMode::Off);
    assert_eq!(next_repeat_mode(None), RepeatMode::Off);
    assert_eq!(repeat_mode_name(RepeatMode::Off), "none");
    assert_eq!(repeat_mode_name(RepeatMode::Track), "one");
    assert_eq!(repeat_mode_name(RepeatMode::List), "all");
}

#[test]
fn timeline_conversions() {
    assert_eq!(ticks_to_ms(12_345_678), 1234);
    assert_eq!(ticks_to_ms(-5), 0);
    assert_eq!(position_to_ticks(1500), 15_000_000);
    assert!(thumbnail_size_ok(1));
    assert!(!thumbnail_size_ok(0));
    assert!(!thumbnail_size_ok(10 * 1024 * 1024 + 1));
}

#[test]
fn cover_is_standard_base64() {
    assert_eq!(thumbnail_from_bytes(b"Man").as_deref(), Some("TWFu"));
    assert_eq!(thumbnail_from_bytes(b"Ma").as_deref(), Some("TWE="));
    assert_eq!(thumbnail_from_bytes(b"M").as_deref(), Some("TQ=="));
    assert_eq!(thumbnail_from_bytes(&[0xfb, 0xff]).as_deref(), Some("+/8="));
    assert_eq!(thumbnail_from_bytes(b""), None);
}

#[test]
fn session_choice() {
    let ids = vec![Some("spotify".to_string())];
    assert_eq!(effective_session_id(&None, &ids).as_deref(), Some("spotify"));
    assert_eq!(effective_session_id(&Some("vlc".to_string()), &ids).as_deref(), Some("vlc"));
    assert_eq!(effective_session_id(&None, &vec![Some(String::new())]), None);
    assert_eq!(effective_session_id(&None, &vec![Some("a".into()), Some("b".into())]), None);
    assert_eq!(effective_session_id(&None, &vec![None]), None);
    let all = vec![None, Some("b".to_string()), Some("c".to_string()), Some("b".to_string())];
    assert_eq!(find_session_index(&all, "b"), Some(1));
    assert_eq!(find_session_index(&all, "z"), None);
}

#[test]
fn listed_sessions_skip_empty_ids() {
    let l = media_sessions_from_ids(&vec!["a".to_string(), String::new(), "b".to_string()]);
    assert_eq!(l.len(), 2);
    assert_eq!(l[0].id, "a");
    assert_eq!(l[0].app_name, "a");
    assert_eq!(l[1].id, "b");
}

#[test]
fn media_commands() {
    assert!(needs_playback_status(MediaAction::Toggle));
    assert!(!needs_playback_status(MediaAction::Play));
    assert!(needs_repeat_mode(MediaAction::CycleRepeat));
    assert_eq!(media_command(MediaAction::Toggle, true, None), MediaCommand::Pause);
    assert_eq!(media_command(MediaAction::Toggle, false, None), MediaCommand::Play);
    assert_eq!(media_command(MediaAction::SetPosition(2), false, None), MediaCommand::ChangePosition(20_000));
    assert_eq!(media_command(MediaAction::SetShuffle(true), false, None), MediaCommand::ChangeShuffle(true));
    assert_eq!(
        media_command(MediaAction::CycleRepeat, false, Some(RepeatMode::Off)),
        MediaCommand::ChangeRepeat(RepeatMode::List)
    );
    assert_eq!(media_command(MediaAction::Next, false, None), MediaCommand::SkipNext);
    assert_eq!(media_command(MediaAction::Previous, false, None), MediaCommand::SkipPrevious);
}

#[test]
fn track_change_and_position_estimate() {
    let mut s = MusicPlayerState::new();
    assert!(!s.observe_track("", "x"));
    let changed = s.observe_track("Song", "Artist");
    assert!(changed);
    let info = s.complete_poll(reading("Song", Some(0), true), changed, Some("cover".into()), 1000);
    assert_eq!(info.position_ms, 0);
    assert_eq!(info.duration_ms, 200_000);
    assert_eq!(info.thumbnail.as_deref(), Some("cover"));
    assert_eq!(info.repeat_mode, "all");
    assert_eq!(info.title, "Song");

    let changed = s.observe_track("Song", "Artist");
    assert!(!changed);
    let info = s.complete_poll(reading("Song", None, true), changed, Some("ignored".into()), 2500);
    assert_eq!(info.position_ms, 1500);
    assert_eq!(info.thumbnail.as_deref(), Some("cover"));

    // a reported position within two seconds does not move the estimate
    let info = s.complete_poll(reading("Song", Some(20_000_000), false), false, None, 3000);
    assert_eq!(info.position_ms, 1500);
    // one further off replaces it
    let info = s.complete_poll(reading("Song", Some(100_000_000), false), false, None, 3500);
    assert_eq!(info.position_ms, 10_000);
}

#[test]
fn lyrics_length_fills_unknown_duration() {
    let mut s = MusicPlayerState::new();
    let l = galncelet::lyrics::lyrics_from_netease("[00:01]x", Some(180_000));
    s.supplement_duration(&l);
    let info = s.complete_poll(
        MediaReading {
            title: "T".into(),
            artist: "A".into(),
            album: String::new(),
            end_ticks: None,
            position_ticks: None,
            is_playing: false,
            shuffle: true,
            repeat: RepeatMode::Off,
        },
        false,
        None,
        0,
    );
    assert_eq!(info.duration_ms, 180_000);
    assert!(info.shuffle);
    let l2 = galncelet::lyrics::lyrics_from_netease("[00:01]x", Some(5));
    s.supplement_duration(&l2);
    assert_eq!(s.estimate_position(false, false, 0, 0, 1).0, 180_000);
}

#[test]
fn selected_session_is_remembered() {
    let mut s = MusicPlayerState::new();
    assert_eq!(s.selected_session(), None);
    s.select_session(Some("vlc".to_string()));
    assert_eq!(s.selected_session().as_deref(), Some("vlc"));
}
