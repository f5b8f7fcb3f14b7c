use rhythm_core::map::{Note, NoteData};
use rhythm_core::note::{
    approach_ratio_permille, fade_in_alpha_permille, did_cursor_hit, judge_note, judge_notes, Counters, HitResult, MapNoteTracker,
    NotePaletteCycler, PlayNote,
};
use rhythm_core::cursor::Cursor;

fn note(hit_ms: i128) -> Note {
    Note { hit_ms, x: 0, y: 0 }
}

fn play_note(id: u64, hit_ms: i128) -> PlayNote {
    PlayNote { id, x: 0, y: 0, hit_ms, hit_result: None }
}

#[test]
fn notes_become_active_after_the_approach_window_opens() {
    let mut t = MapNoteTracker::new(NoteData(vec![note(1000), note(2000)]), 1000);
    assert!(t.has_more_notes());
    assert_eq!(t.update_get_next(500, 500), Some(vec![]));
    assert_eq!(t.update_get_next(501, 500), Some(vec![note(1000)]));
    assert_eq!(t.update_get_next(900, 500), Some(vec![]));
    assert_eq!(t.update_get_next(5000, 500), Some(vec![note(2000)]));
    assert!(!t.has_more_notes());
    assert_eq!(t.update_get_next(9000, 500), None);
}

#[test]
fn simultaneous_admissions_keep_map_order() {
    let mut t = MapNoteTracker::new(NoteData(vec![note(300), note(100), note(900), note(200)]), 1000);
    assert_eq!(t.update_get_next(0, 500), Some(vec![note(300), note(100), note(200)]));
    assert_eq!(t.pending_len(), 1);
}

#[test]
fn play_speed_scales_hit_times() {
    let mut t = MapNoteTracker::new(NoteData(vec![note(1000)]), 2000);
    assert_eq!(t.update_get_next(0, 500), Some(vec![]));
    assert_eq!(t.update_get_next(1, 500), Some(vec![note(500)]));
}

#[test]
fn hit_box_is_widened_by_the_cursor() {
    let n = play_note(0, 0);
    assert!(did_cursor_hit(&n, &Cursor { x: 631_249, y: 0 }));
    assert!(!did_cursor_hit(&n, &Cursor { x: 631_250, y: 0 }));
    assert!(did_cursor_hit(&n, &Cursor { x: -631_249, y: 631_249 }));
    assert!(!did_cursor_hit(&n, &Cursor { x: 0, y: -631_250 }));
}

#[test]
fn no_hit_before_the_hit_time() {
    let mut n = play_note(0, 1000);
    let mut k = Counters::new();
    judge_note(&mut n, 1000, Some(Cursor::new()), &mut k);
    assert_eq!(n.hit_result, None);
    judge_note(&mut n, 1001, Some(Cursor::new()), &mut k);
    assert_eq!(n.hit_result, Some(HitResult::Hit));
    assert_eq!(k, Counters { current_combo: 1, max_combo: 1, hits: 1, misses: 0 });
}

#[test]
fn late_note_is_a_miss_and_resets_the_combo() {
    let mut n = play_note(0, 1000);
    let mut k = Counters { current_combo: 4, max_combo: 6, hits: 6, misses: 0 };
    judge_note(&mut n, 1200, Some(Cursor { x: 2_000_000, y: 0 }), &mut k);
    assert_eq!(n.hit_result, None);
    judge_note(&mut n, 1201, Some(Cursor { x: 2_000_000, y: 0 }), &mut k);
    assert_eq!(n.hit_result, Some(HitResult::Miss));
    assert_eq!(k, Counters { current_combo: 0, max_combo: 6, hits: 6, misses: 1 });
}

#[test]
fn judgment_is_written_once() {
    let mut n = play_note(0, 1000);
    let mut k = Counters::new();
    judge_note(&mut n, 1100, Some(Cursor::new()), &mut k);
    assert_eq!(n.hit_result, Some(HitResult::Hit));
    judge_note(&mut n, 5000, Some(Cursor { x: 2_000_000, y: 0 }), &mut k);
    assert_eq!(n.hit_result, Some(HitResult::Hit));
    assert_eq!(k.misses, 0);
    assert_eq!(k.hits, 1);
}

#[test]
fn frame_judgment_retires_late_notes() {
    let mut notes = vec![play_note(0, 100), play_note(1, 1000), play_note(2, 1300)];
    notes[0].hit_result = Some(HitResult::Hit);
    let mut k = Counters { current_combo: 1, max_combo: 1, hits: 1, misses: 0 };
    judge_notes(&mut notes, 1250, Some(Cursor { x: 2_000_000, y: 0 }), &mut k);
    assert_eq!(notes, vec![play_note(2, 1300)]);
    assert_eq!(k, Counters { current_combo: 0, max_combo: 1, hits: 1, misses: 1 });
}

#[test]
fn combo_peaks_are_kept() {
    let mut notes = vec![play_note(0, 10), play_note(1, 10), play_note(2, 10)];
    let mut k = Counters::new();
    judge_notes(&mut notes, 20, Some(Cursor::new()), &mut k);
    assert_eq!(k, Counters { current_combo: 3, max_combo: 3, hits: 3, misses: 0 });
    assert!(notes.iter().all(|n| n.hit_result == Some(HitResult::Hit)));
}

#[test]
fn unknown_cursor_never_hits() {
    let mut n = play_note(0, 1000);
    let mut k = Counters::new();
    judge_note(&mut n, 1100, None, &mut k);
    assert_eq!(n.hit_result, None);
    judge_note(&mut n, 1201, None, &mut k);
    assert_eq!(n.hit_result, Some(HitResult::Miss));
    assert_eq!(k.misses, 1);
}

#[test]
fn palette_cycles() {
    let mut p = NotePaletteCycler::new(vec![1, 2, 3]);
    assert_eq!(p.get_next(), 1);
    assert_eq!(p.get_next(), 2);
    assert_eq!(p.get_next(), 3);
    assert_eq!(p.get_next(), 1);
}

#[test]
fn cursor_motion_is_clamped() {
    let mut c = Cursor::new();
    c.apply_motion(-1_000_000, 500_000);
    assert_eq!(c, Cursor { x: 1_000_000, y: -500_000 });
    c.apply_motion(-5_000_000, 5_000_000);
    assert_eq!(c, Cursor { x: 1_500_000, y: -1_500_000 });
}

#[test]
fn identical_notes_are_each_handed_out_once() {
    let mut t = MapNoteTracker::new(NoteData(vec![note(700), note(700), note(100)]), 1000);
    let mut seen: Vec<Note> = vec![];
    for time in [0u64, 300, 600, 1000, 1500, 2000] {
        if let Some(v) = t.update_get_next(time, 500) {
            seen.extend(v);
        }
    }
    assert_eq!(seen, vec![note(100), note(700), note(700)]);
    assert!(!t.has_more_notes());
}

#[test]
fn approach_ratio_runs_from_one_to_zero() {
    let n = play_note(0, 1000);
    assert_eq!(approach_ratio_permille(&n, 500, 500), 1000);
    assert_eq!(approach_ratio_permille(&n, 750, 500), 500);
    assert_eq!(approach_ratio_permille(&n, 1000, 500), 0);
    assert_eq!(approach_ratio_permille(&n, 1100, 500), -200);
}

#[test]
fn notes_fade_in_after_appearing() {
    let n = play_note(0, 1000);
    assert_eq!(fade_in_alpha_permille(&n, 500, 500), 0);
    assert_eq!(fade_in_alpha_permille(&n, 700, 500), 500);
    assert_eq!(fade_in_alpha_permille(&n, 900, 500), 1000);
    assert_eq!(fade_in_alpha_permille(&n, 1200, 500), 1000);
}
