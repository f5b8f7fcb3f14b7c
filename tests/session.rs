use rhythm_core::cursor::Cursor;
use rhythm_core::map::{NoteData, NoteMap, V1NoteDataLoader};
use rhythm_core::note::HitResult;
use rhythm_core::play_state::{MapLoadPlayResource, PlayStateData, PlayStatePlugin};
use rhythm_core::sound::{resync_audio, AudioCommand, PlaybackState};
use rhythm_core::state::{GameEvent, GameState, StatePlugin};

fn map_of(text: &[u8]) -> NoteMap {
    NoteMap {
        title: "t".to_string(),
        artist: "a".to_string(),
        mapper: "m".to_string(),
        notes: V1NoteDataLoader.load(text).unwrap(),
        audio: "song.mp3".to_string(),
    }
}

const PLAYING_ON_TIME: PlaybackState = PlaybackState::Playing { position_ms: 0 };

fn tick(s: &mut PlayStateData, t: u64, c: &Cursor) -> bool {
    let c = Some(*c);
    let audio = PlaybackState::Playing { position_ms: t };
    let out = s.on_update(t, c, audio);
    assert_eq!(out.audio, AudioCommand::Nothing);
    out.finished
}

#[test]
fn one_note_map_end_to_end() {
    let mut s = PlayStateData::new(map_of(b"x,1|1|1000"), 1000, 0);
    let c = Cursor::new();
    assert!(!tick(&mut s, 500, &c));
    assert!(s.active().is_empty());
    assert!(!tick(&mut s, 501, &c));
    assert_eq!(s.active().len(), 1);
    assert!(!s.has_more_notes());
    assert!(!tick(&mut s, 1000, &c));
    assert_eq!(s.active()[0].hit_result, None);
    assert!(!tick(&mut s, 1001, &c));
    assert_eq!(s.active()[0].hit_result, Some(HitResult::Hit));
    assert_eq!(s.current_combo(), 1);
    assert_eq!(s.max_combo(), 1);
    assert_eq!(s.objects_hit(), 1);
    assert!(!tick(&mut s, 1201, &c));
    assert!(s.active().is_empty());
    assert_eq!(s.misses(), 0);
    assert!(!tick(&mut s, 1500, &c));
    assert!(tick(&mut s, 1501, &c));
    assert_eq!(s.get_accuracy(), 10_000);
    assert_eq!(s.score(), Some(5));
}

#[test]
fn missed_note_counts_against_accuracy() {
    let mut s = PlayStateData::new(map_of(b"x,1|1|100,2|2|200"), 1000, 0);
    let away = Cursor { x: 0, y: 0 };
    tick(&mut s, 150, &away);
    assert_eq!(s.objects_hit(), 1);
    let far = Cursor { x: -1_500_000, y: -1_500_000 };
    tick(&mut s, 401, &far);
    assert_eq!(s.misses(), 1);
    assert_eq!(s.current_combo(), 0);
    assert_eq!(s.get_accuracy(), 5_000);
    assert!(!s.has_more_notes());
}

#[test]
fn empty_map_ends_after_the_wait() {
    let mut s = PlayStateData::new(map_of(b"only metadata"), 1000, 10_000);
    assert!(!s.on_update(10_500, Some(Cursor::new()), PLAYING_ON_TIME).finished);
    assert!(s.on_update(10_501, Some(Cursor::new()), PLAYING_ON_TIME).finished);
}

#[test]
fn load_request_starts_at_normal_speed() {
    let s = MapLoadPlayResource::create_loaded(map_of(b"x,1|1|1000")).start(42);
    assert_eq!(s.play_speed(), 1000);
    assert_eq!(s.start_time_ms(), 42);
    assert_eq!(s.note_count(), 1);
    assert_eq!(s.played_map().title, "t");
}

#[test]
fn drift_of_a_hundred_ms_is_corrected() {
    assert_eq!(
        resync_audio(PlaybackState::Playing { position_ms: 1200 }, 1100, 1000),
        AudioCommand::SeekAndResume { position_ms: 1100 }
    );
}

#[test]
fn drift_below_threshold_is_left() {
    assert_eq!(resync_audio(PlaybackState::Playing { position_ms: 1130 }, 1100, 1000), AudioCommand::Nothing);
    assert_eq!(resync_audio(PlaybackState::Playing { position_ms: 1070 }, 1100, 1000), AudioCommand::Nothing);
    assert_eq!(
        resync_audio(PlaybackState::Playing { position_ms: 1050 }, 1100, 1000),
        AudioCommand::SeekAndResume { position_ms: 1100 }
    );
}

#[test]
fn stopped_audio_is_resumed() {
    assert_eq!(resync_audio(PlaybackState::Stopped, 1100, 1000), AudioCommand::Resume);
    assert_eq!(resync_audio(PlaybackState::Paused, 0, 1000), AudioCommand::Resume);
}

#[test]
fn drift_is_measured_at_play_speed() {
    assert_eq!(resync_audio(PlaybackState::Playing { position_ms: 2000 }, 1000, 2000), AudioCommand::Nothing);
    assert_eq!(
        resync_audio(PlaybackState::Playing { position_ms: 2400 }, 1000, 2000),
        AudioCommand::SeekAndResume { position_ms: 500 }
    );
}

#[test]
fn game_state_transitions() {
    let mut p = StatePlugin::new();
    assert_eq!(p.state(), GameState::Startup);
    assert_eq!(p.handle(GameEvent::PlayFinished), GameState::Startup);
    assert_eq!(p.handle(GameEvent::StartupDone), GameState::Menu);
    assert_eq!(p.handle(GameEvent::PlayRequested), GameState::Play);
    assert_eq!(p.handle(GameEvent::StartupDone), GameState::Play);
    assert_eq!(p.handle(GameEvent::PlayFinished), GameState::Menu);
}

#[test]
fn signed_duration_addition() {
    assert_eq!(PlayStatePlugin::duration_add_signed(1000, -250), 750);
    assert_eq!(PlayStatePlugin::duration_add_signed(1000, 250), 1250);
}

#[test]
fn note_data_copies() {
    let d = NoteData(vec![]);
    assert!(d.clone_data().0.is_empty());
}
