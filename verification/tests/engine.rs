use buzzer_music::{ChannelState, ConfigError, NoteAndDuration, Player, Song, TickOutcome};

fn note(frequency: u16, duration: u16) -> NoteAndDuration {
    NoteAndDuration { frequency, duration }
}

fn two_beat_song() -> Song {
    Song {
        notes: vec![Some(vec![note(440, 1)]), Some(vec![note(880, 1)])],
        end: 2,
    }
}

#[test]
fn fresh_player_is_silent_and_running() {
    let song = two_beat_song();
    let p = Player::new(&song, false, 3, 100, 1, 8);
    assert!(!p.is_paused());
    assert_eq!(p.timer_ticks(), 0);
    assert_eq!(p.current_beat(), -1);
    assert_eq!(p.sounding_count(), 0);
    assert_eq!(p.channel(0), Some(ChannelState::Muted));
    assert_eq!(p.channel(1), None);
}

#[test]
fn paused_tick_changes_nothing() {
    let song = two_beat_song();
    let mut p = Player::new(&song, true, 3, 100, 1, 8);
    assert_eq!(p.tick(), Ok(TickOutcome::Advanced));
    let timer = p.timer_ticks();
    let beat = p.current_beat();
    let sounding = p.sounding_count();
    p.pause();
    assert!(p.is_paused());
    for _ in 0..10 {
        assert_eq!(p.tick(), Ok(TickOutcome::Paused));
        assert_eq!(p.timer_ticks(), timer);
        assert_eq!(p.current_beat(), beat);
        assert_eq!(p.sounding_count(), sounding);
        assert!(p.is_paused());
    }
}

#[test]
fn pause_mutes_and_is_idempotent() {
    let song = two_beat_song();
    let mut p = Player::new(&song, false, 3, 100, 1, 8);
    for _ in 0..3 {
        p.tick().unwrap();
    }
    assert_eq!(p.channel(0), Some(ChannelState::Tone { frequency: 440 }));
    p.pause();
    assert_eq!(p.channel(0), Some(ChannelState::Muted));
    assert!(p.is_paused());
    p.pause();
    assert!(p.is_paused());
    assert_eq!(p.channel(0), Some(ChannelState::Muted));
}

#[test]
fn resume_continues_from_same_counters() {
    let song = two_beat_song();
    let mut p = Player::new(&song, false, 3, 100, 1, 8);
    p.tick().unwrap();
    p.tick().unwrap();
    p.pause();
    let timer = p.timer_ticks();
    p.resume();
    assert!(!p.is_paused());
    assert_eq!(p.timer_ticks(), timer);
    p.resume();
    assert!(!p.is_paused());
    assert_eq!(p.timer_ticks(), timer);
}

#[test]
fn restart_recovers_the_fresh_state() {
    let song = two_beat_song();
    let mut p = Player::new(&song, false, 3, 100, 1, 8);
    for _ in 0..4 {
        p.tick().unwrap();
    }
    assert_ne!(p.timer_ticks(), 0);
    assert_ne!(p.sounding_count(), 0);
    p.restart();
    assert!(!p.is_paused());
    assert_eq!(p.timer_ticks(), 0);
    assert_eq!(p.current_beat(), -1);
    assert_eq!(p.sounding_count(), 0);
    assert_eq!(p.channel(0), Some(ChannelState::Muted));
}

#[test]
fn restart_while_paused_recovers_the_fresh_state() {
    let song = two_beat_song();
    let mut p = Player::new(&song, false, 3, 100, 1, 8);
    for _ in 0..3 {
        p.tick().unwrap();
    }
    p.pause();
    p.restart();
    assert!(!p.is_paused());
    assert_eq!(p.timer_ticks(), 0);
    assert_eq!(p.current_beat(), -1);
    assert_eq!(p.sounding_count(), 0);
    assert_eq!(p.channel(0), Some(ChannelState::Muted));
}

#[test]
fn single_pass_stops_exactly_at_the_boundary() {
    let song = two_beat_song();
    // ticks_per_beat = 2, loop length = 2 beats: one pass is 4 ticks.
    let mut p = Player::new(&song, false, 2, 100, 1, 8);
    for k in 1..4u16 {
        assert_eq!(p.tick(), Ok(TickOutcome::Advanced));
        assert_eq!(p.timer_ticks(), k);
        assert!(!p.is_paused());
    }
    assert_eq!(p.tick(), Ok(TickOutcome::Stopped));
    assert!(p.is_paused());
    assert_eq!(p.channel(0), Some(ChannelState::Muted));
    assert_eq!(p.tick(), Ok(TickOutcome::Paused));
    assert_eq!(p.timer_ticks(), 0);
}

#[test]
fn looping_resets_timer_and_beat_at_the_boundary() {
    let song = Song {
        notes: vec![Some(vec![note(55, 1)]), Some(vec![note(66, 1)])],
        end: 2,
    };
    let mut p = Player::new(&song, true, 2, 100, 1, 8);
    for k in 1..4u16 {
        assert_eq!(p.tick(), Ok(TickOutcome::Advanced));
        assert_eq!(p.timer_ticks(), k);
    }
    // The fourth tick reaches the loop boundary: the timer resets and the
    // same tick plays beat 0 of the next pass.
    assert_eq!(p.tick(), Ok(TickOutcome::Advanced));
    assert_eq!(p.timer_ticks(), 0);
    assert_eq!(p.current_beat(), 0);
    assert!(!p.is_paused());
    assert_eq!(p.channel(0), Some(ChannelState::Tone { frequency: 55 }));
}

#[test]
fn note_sounds_for_its_duration_and_then_retires() {
    // Every tick is a beat; a two-beat note admitted at beat 0 must sound
    // through beats 0 and 1 and be gone from beat 2 onward.
    let song = Song {
        notes: vec![Some(vec![note(100, 2)]), Some(vec![note(200, 1)]), None, None],
        end: 4,
    };
    let mut p = Player::new(&song, false, 1, 100, 1, 8);
    p.tick().unwrap();
    assert_eq!(p.current_beat(), 0);
    assert_eq!(p.sounding_count(), 1);
    assert_eq!(p.sounding_note(0), Some((100, 2)));
    p.tick().unwrap();
    assert_eq!(p.current_beat(), 1);
    assert_eq!(p.sounding_count(), 2);
    assert_eq!(p.sounding_note(0), Some((100, 1)));
    assert_eq!(p.sounding_note(1), Some((200, 1)));
    p.tick().unwrap();
    assert_eq!(p.current_beat(), 2);
    assert_eq!(p.sounding_count(), 0);
    assert_eq!(p.sounding_note(0), None);
    assert_eq!(p.channel(0), Some(ChannelState::Muted));
}

#[test]
fn retirement_is_order_preserving() {
    let song = Song {
        notes: vec![
            Some(vec![note(100, 1), note(200, 3), note(300, 1), note(400, 2)]),
            None,
            None,
        ],
        end: 3,
    };
    let mut p = Player::new(&song, false, 1, 100, 1, 8);
    p.tick().unwrap();
    assert_eq!(p.sounding_count(), 4);
    p.tick().unwrap();
    // The one-beat notes are gone; the survivors keep their order.
    assert_eq!(p.sounding_count(), 2);
    assert_eq!(p.sounding_note(0), Some((200, 2)));
    assert_eq!(p.sounding_note(1), Some((400, 1)));
}

#[test]
fn multiplexing_cycles_every_overflow_note_once() {
    // One channel, three simultaneous notes: each further tick must hand the
    // channel to the next overflow note, wrapping after all three.
    let song = Song {
        notes: vec![Some(vec![note(100, 9), note(200, 9), note(300, 9)]), None],
        end: 2,
    };
    let mut p = Player::new(&song, true, 5, 100, 1, 8);
    for _ in 0..4 {
        p.tick().unwrap();
        assert_eq!(p.channel(0), Some(ChannelState::Muted));
    }
    // Tick 5 plays beat 0; the same tick multiplexes the first note in.
    p.tick().unwrap();
    assert_eq!(p.sounding_count(), 3);
    assert_eq!(p.channel(0), Some(ChannelState::Tone { frequency: 100 }));
    p.tick().unwrap();
    assert_eq!(p.channel(0), Some(ChannelState::Tone { frequency: 200 }));
    p.tick().unwrap();
    assert_eq!(p.channel(0), Some(ChannelState::Tone { frequency: 300 }));
    // The cycle starts over.
    p.tick().unwrap();
    assert_eq!(p.channel(0), Some(ChannelState::Tone { frequency: 100 }));
}

#[test]
fn primary_channels_hold_while_the_last_multiplexes() {
    // Two channels, three notes: channel 0 keeps the first note; channel 1
    // cycles through the overflow notes (positions 1 and 2).
    let song = Song {
        notes: vec![Some(vec![note(100, 9), note(200, 9), note(300, 9)]), None],
        end: 2,
    };
    let mut p = Player::new(&song, true, 4, 100, 2, 8);
    for _ in 0..3 {
        p.tick().unwrap();
    }
    p.tick().unwrap();
    assert_eq!(p.channel(0), Some(ChannelState::Tone { frequency: 100 }));
    assert_eq!(p.channel(1), Some(ChannelState::Tone { frequency: 200 }));
    p.tick().unwrap();
    assert_eq!(p.channel(0), Some(ChannelState::Tone { frequency: 100 }));
    assert_eq!(p.channel(1), Some(ChannelState::Tone { frequency: 300 }));
    p.tick().unwrap();
    assert_eq!(p.channel(0), Some(ChannelState::Tone { frequency: 100 }));
    assert_eq!(p.channel(1), Some(ChannelState::Tone { frequency: 200 }));
}

#[test]
fn capacity_overflow_is_reported_not_dropped() {
    let song = Song {
        notes: vec![Some(vec![note(100, 1), note(200, 1)])],
        end: 1,
    };
    let mut p = Player::new(&song, true, 2, 100, 1, 1);
    assert_eq!(p.tick(), Ok(TickOutcome::Advanced));
    assert_eq!(p.tick(), Err(ConfigError::CapacityExceeded));
    assert!(p.is_paused());
    assert_eq!(p.channel(0), Some(ChannelState::Muted));
}

#[test]
fn empty_slots_play_silence() {
    let song = Song {
        notes: vec![None, None],
        end: 2,
    };
    let mut p = Player::new(&song, true, 1, 100, 2, 4);
    for _ in 0..6 {
        assert_eq!(p.tick(), Ok(TickOutcome::Advanced));
        assert_eq!(p.sounding_count(), 0);
        assert_eq!(p.channel(0), Some(ChannelState::Muted));
        assert_eq!(p.channel(1), Some(ChannelState::Muted));
    }
}

#[test]
fn two_beat_scenario_with_one_channel() {
    // ticks_per_beat = 3, loop length = 2, one channel, 440 Hz at beat 0 and
    // 880 Hz at beat 1, no looping. Ticks 1 and 2 change no beat; tick 3
    // plays beat 0 at 440 Hz; tick 6 reaches the loop boundary, so playback
    // stops there with the channel muted.
    let song = two_beat_song();
    let mut p = Player::new(&song, false, 3, 100, 1, 8);
    assert_eq!(p.tick(), Ok(TickOutcome::Advanced));
    assert_eq!(p.current_beat(), -1);
    assert_eq!(p.channel(0), Some(ChannelState::Muted));
    assert_eq!(p.tick(), Ok(TickOutcome::Advanced));
    assert_eq!(p.current_beat(), -1);
    assert_eq!(p.channel(0), Some(ChannelState::Muted));
    assert_eq!(p.tick(), Ok(TickOutcome::Advanced));
    assert_eq!(p.current_beat(), 0);
    assert_eq!(p.channel(0), Some(ChannelState::Tone { frequency: 440 }));
    assert_eq!(p.tick(), Ok(TickOutcome::Advanced));
    assert_eq!(p.tick(), Ok(TickOutcome::Advanced));
    assert_eq!(p.channel(0), Some(ChannelState::Tone { frequency: 440 }));
    assert_eq!(p.tick(), Ok(TickOutcome::Stopped));
    assert!(p.is_paused());
    assert_eq!(p.channel(0), Some(ChannelState::Muted));
}

#[test]
fn a_song_shared_by_two_players() {
    let song = two_beat_song();
    let mut a = Player::new(&song, false, 3, 100, 1, 8);
    let mut b = Player::new(&song, true, 1, 50, 2, 4);
    a.tick().unwrap();
    b.tick().unwrap();
    assert_eq!(a.timer_ticks(), 1);
    assert_eq!(b.current_beat(), 0);
    assert_eq!(b.channel(0), Some(ChannelState::Tone { frequency: 440 }));
}

#[test]
fn resume_after_stop_replays_from_the_start() {
    let song = two_beat_song();
    let mut p = Player::new(&song, false, 3, 100, 1, 8);
    for _ in 0..5 {
        p.tick().unwrap();
    }
    assert_eq!(p.tick(), Ok(TickOutcome::Stopped));
    assert_eq!(p.timer_ticks(), 0);
    p.resume();
    for _ in 0..3 {
        p.tick().unwrap();
    }
    assert_eq!(p.current_beat(), 0);
    assert_eq!(p.channel(0), Some(ChannelState::Tone { frequency: 440 }));
}
