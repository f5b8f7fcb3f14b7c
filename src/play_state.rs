use vstd::prelude::*;
use crate::cursor::Cursor;
use crate::hud::{
    accuracy_of, calc_accuracy, calc_play_grade_from_counts, calc_score_from_counts, grade_of_counts,
    score_of_counts, PlayGrade,
};
use crate::map::{note_in_range, Note, NoteMap};
use crate::note::{
    admitted_by, count_all, judge_all, judge_notes, kept_by, lemma_admission_partition,
    note_in_play_range, scaled_in_range, scaled_note, unjudged, Counters, MapNoteTracker,
    PlayNote,
};
use crate::sound::{resync_audio, resync_command, AudioCommand, PlaybackState};

verus! {

broadcast use {vstd::seq_lib::group_to_multiset_ensures, vstd::multiset::group_multiset_axioms};

/// How long before its hit time a note becomes active, in milliseconds.
pub const APPROACH_RATE: u64 = 500;

/// How long after the last note's hit time the play ends, in milliseconds.
pub const WAIT_TIME_START_FINISH: i128 = 500;

/// What the presentation layer is to do after a frame.
#[derive(Clone, Copy, Debug, PartialEq, Eq, Structural)]
pub struct FrameOutcome {
    /// Correction for the audio engine.
    pub audio: AudioCommand,
    /// The map has ended: leave play mode.
    pub finished: bool,
}

/// Fresh active notes for `ns`, numbered from `first_id` on.
pub open spec fn fresh_notes(ns: Seq<Note>, first_id: nat) -> Seq<PlayNote> {
    Seq::new(
        ns.len(),
        |i: int|
            PlayNote {
                id: (first_id + i) as u64,
                x: ns[i].x,
                y: ns[i].y,
                hit_ms: ns[i].hit_ms,
                hit_result: None,
            },
    )
}

/// The scaled hit time the end of the map is measured from: that of the
/// map's last note, or zero for a map without notes.
pub open spec fn end_anchor(ns: Seq<Note>, play_speed: u32) -> int {
    if ns.len() == 0 {
        0
    } else {
        scaled_note(ns.last(), play_speed).hit_ms as int
    }
}

/// State of one play-through.
pub struct PlayStateData {
    map: NoteMap,
    start_time_ms: u64,
    play_speed: u32,
    note_tracker: MapNoteTracker,
    active: Vec<PlayNote>,
    next_id: u64,
    counters: Counters,
    last_hit_ms: i128,
}

impl PlayStateData {
    /// The map being played.
    pub closed spec fn note_map(&self) -> NoteMap {
        self.map
    }

    /// Frame-clock time at which the play started.
    pub closed spec fn start_ms(&self) -> u64 {
        self.start_time_ms
    }

    /// Play speed in thousandths.
    pub closed spec fn speed(&self) -> u32 {
        self.play_speed
    }

    /// The notes still to become active.
    pub closed spec fn tracker(&self) -> MapNoteTracker {
        self.note_tracker
    }

    /// The notes in the judgment phase, oldest first.
    pub closed spec fn active_notes(&self) -> Seq<PlayNote> {
        self.active@
    }

    /// Combo, hit and miss counts.
    pub closed spec fn counters(&self) -> Counters {
        self.counters
    }

    /// Identifier the next active note gets.
    pub closed spec fn next_id(&self) -> nat {
        self.next_id as nat
    }

    /// Scaled hit time of the map's last note, or zero without notes.
    pub closed spec fn last_hit(&self) -> int {
        self.last_hit_ms as int
    }

    /// Game time after which the map has ended.
    pub closed spec fn end_ms(&self) -> int {
        self.last_hit_ms + WAIT_TIME_START_FINISH
    }

    /// Every note of the map is pending, or judged once (a hit or a miss),
    /// or active and not yet judged; the combo never exceeds the best combo.
    pub open spec fn wf(&self) -> bool {
        &&& self.speed() > 0
        &&& self.tracker().wf()
        &&& self.counters().wf()
        &&& self.tracker().all().len() <= usize::MAX
        &&& self.next_id() == self.tracker().admitted().len()
        &&& self.counters().hits + self.counters().misses + unjudged(self.active_notes())
            + self.tracker().pending().len() == self.tracker().all().len()
        &&& forall|i: int|
            0 <= i < self.active_notes().len() ==> note_in_play_range(#[trigger] self.active_notes()[i])
        &&& 0 <= self.last_hit() <= crate::map::FIELD_LIMIT * 1000
    }

    /// A fresh play of `map` at `play_speed` (in thousandths), started at
    /// `start_time_ms` of the frame clock.
    pub fn new(map: NoteMap, play_speed: u32, start_time_ms: u64) -> (s: Self)
        requires
            play_speed > 0,
            forall|i: int| 0 <= i < map.notes.0@.len() ==> note_in_range(#[trigger] map.notes.0@[i]),
        ensures
            s.wf(),
            s.note_map() == map,
            s.speed() == play_speed,
            s.start_ms() == start_time_ms,
            s.tracker().pending() == crate::note::scaled_notes(map.notes.0@, play_speed),
            s.tracker().admitted().len() == 0,
            s.active_notes().len() == 0,
            s.counters() == (Counters { current_combo: 0, max_combo: 0, hits: 0, misses: 0 }),
            s.end_ms() == end_anchor(map.notes.0@, play_speed) + WAIT_TIME_START_FINISH,
    {
        let n = map.notes.0.len();
        let last_hit_ms: i128 = if n == 0 {
            0
        } else {
            let last = map.notes.0[n - 1];
            assert(note_in_range(map.notes.0@[n - 1]));
            let q = last.hit_ms * 1000 / (play_speed as i128);
            assert(0 <= q <= crate::map::FIELD_LIMIT * 1000) by (nonlinear_arith)
                requires
                    q == last.hit_ms * 1000 / (play_speed as int),
                    play_speed >= 1,
                    0 <= last.hit_ms <= crate::map::FIELD_LIMIT,
            ;
            q
        };
        let note_tracker = MapNoteTracker::new(map.notes.clone_data(), play_speed);
        let s = PlayStateData {
            map,
            start_time_ms,
            play_speed,
            note_tracker,
            active: Vec::new(),
            next_id: 0,
            counters: Counters::new(),
            last_hit_ms,
        };
        assert(unjudged(s.active@) == 0);
        s
    }
    /// One frame at `now_ms` of the frame clock: corrects the audio, makes
    /// the notes that entered the approach window active, judges the active
    /// notes against the cursor (no hit when its position is unknown), and
    /// tells whether the map has ended (no
    /// note pending and the wait after the last note's hit time elapsed).
    pub fn on_update(&mut self, now_ms: u64, cursor_pos: Option<Cursor>, audio: PlaybackState) -> (r: FrameOutcome)
        requires
            old(self).wf(),
            now_ms >= old(self).start_ms(),
        ensures
            final(self).wf(),
            final(self).note_map() == old(self).note_map(),
            final(self).start_ms() == old(self).start_ms(),
            final(self).speed() == old(self).speed(),
            final(self).end_ms() == old(self).end_ms(),
            final(self).tracker().all() == old(self).tracker().all(),
            ({
                let t = now_ms - old(self).start_ms();
                let adm = admitted_by(old(self).tracker().pending(), t, APPROACH_RATE as int);
                let before = old(self).active_notes() + fresh_notes(adm, old(self).next_id());
                &&& r.audio == resync_command(audio, t as nat, old(self).speed() as nat)
                &&& final(self).tracker().pending() == kept_by(
                    old(self).tracker().pending(),
                    t,
                    APPROACH_RATE as int,
                )
                &&& final(self).tracker().admitted() == old(self).tracker().admitted() + adm
                &&& final(self).active_notes() == judge_all(before, t, cursor_pos)
                &&& final(self).counters() == count_all(old(self).counters(), before, t, cursor_pos)
                &&& r.finished == (final(self).tracker().pending().len() == 0 && t > old(self).end_ms())
            }),
    {
        let ghost old_self = *self;
        let time_ms: u64 = now_ms - self.start_time_ms;
        let audio_command = resync_audio(audio, time_ms, self.play_speed);
        let ghost old_pending = self.note_tracker.pending();
        let ghost old_admitted = self.note_tracker.admitted();
        let ghost old_active = self.active@;
        let ghost id0 = self.next_id as nat;
        let ghost t = time_ms as int;
        let ghost adm = admitted_by(old_pending, t, APPROACH_RATE as int);
        proof {
            lemma_admission_partition(old_pending, t, APPROACH_RATE as int);
        }
        let taken: Vec<Note> = match self.note_tracker.update_get_next(time_ms, APPROACH_RATE) {
            Some(v) => v,
            None => Vec::new(),
        };
        assert(taken@ == adm);
        assert(self.note_tracker.admitted() == old_admitted + adm) by {
            if old_pending.len() == 0 {
                assert(adm =~= Seq::<Note>::empty());
                assert(old_admitted + adm =~= old_admitted);
            }
        }
        assert(self.note_tracker.pending().len() + taken@.len() == old_pending.len()) by {
            assert(old_pending.to_multiset().len() == old_pending.len());
        }
        assert(self.note_tracker.admitted().len() <= self.note_tracker.all().len()) by {
            assert(self.note_tracker.pending().to_multiset().add(
                self.note_tracker.admitted().to_multiset(),
            ).len() == self.note_tracker.all().len());
        }
        let ghost tracker_now = self.note_tracker;
        let mut j: usize = 0;
        while j < taken.len()
            invariant
                self.counters == old_self.counters,
                self.last_hit_ms == old_self.last_hit_ms,
                self.play_speed == old_self.play_speed,
                self.start_time_ms == old_self.start_time_ms,
                self.map == old_self.map,
                self.note_tracker == tracker_now,
                0 <= j <= taken@.len(),
                taken@ == adm,
                id0 + taken@.len() == self.note_tracker.admitted().len(),
                self.note_tracker.admitted().len() <= self.note_tracker.all().len(),
                self.note_tracker.all().len() <= usize::MAX,
                self.next_id == id0 + j,
                self.active@ == old_active + fresh_notes(adm.take(j as int), id0),
                unjudged(self.active@) == unjudged(old_active) + j,
                forall|k: int| 0 <= k < taken@.len() ==> scaled_in_range(#[trigger] taken@[k]),
                forall|k: int| 0 <= k < self.active@.len() ==> note_in_play_range(#[trigger] self.active@[k]),
            decreases taken@.len() - j,
        {
            let n = taken[j];
            let p = PlayNote { id: self.next_id, x: n.x, y: n.y, hit_ms: n.hit_ms, hit_result: None };
            assert(scaled_in_range(taken@[j as int]));
            let ghost before = self.active@;
            self.active.push(p);
            assert(self.active@.drop_last() == before);
            self.next_id = self.next_id + 1;
            j = j + 1;
            assert(self.active@ =~= old_active + fresh_notes(adm.take(j as int), id0));
        }
        assert(adm.take(adm.len() as int) == adm);
        judge_notes(&mut self.active, time_ms, cursor_pos, &mut self.counters);
        let finished = !self.note_tracker.has_more_notes() && (time_ms as i128) > self.last_hit_ms
            + WAIT_TIME_START_FINISH;
        FrameOutcome { audio: audio_command, finished }
    }
    /// Accuracy in hundredths of a percent: full when nothing was missed,
    /// else hits over judged notes, rounded down.
    pub fn get_accuracy(&self) -> (r: u64)
        ensures
            r == accuracy_of(self.counters().hits as nat, self.counters().misses as nat),
    {
        calc_accuracy(self.counters.hits, self.counters.misses)
    }

    /// The grade of the exact accuracy.
    pub fn play_grade(&self) -> (g: PlayGrade)
        ensures
            g == grade_of_counts(self.counters().hits as nat, self.counters().misses as nat),
    {
        calc_play_grade_from_counts(self.counters.hits, self.counters.misses)
    }

    /// The current score from the exact accuracy, or `None` where
    /// `hits * max_combo * (5 * hits + 4 * misses)` does not fit in a `u128`.
    pub fn score(&self) -> (r: Option<u128>)
        ensures
            ({
                let k = self.counters();
                &&& k.hits * k.max_combo * (5 * k.hits + 4 * k.misses) <= u128::MAX ==> r == Some(
                    score_of_counts(k.hits as nat, k.max_combo as nat, k.misses as nat) as u128,
                )
                &&& k.hits * k.max_combo * (5 * k.hits + 4 * k.misses) > u128::MAX ==> r is None
            }),
    {
        calc_score_from_counts(self.counters.hits, self.counters.max_combo, self.counters.misses)
    }

    /// The current combo.
    pub fn current_combo(&self) -> (r: u64)
        ensures
            r == self.counters().current_combo,
    {
        self.counters.current_combo
    }

    /// The best combo so far.
    pub fn max_combo(&self) -> (r: u64)
        ensures
            r == self.counters().max_combo,
    {
        self.counters.max_combo
    }

    /// Notes hit so far.
    pub fn objects_hit(&self) -> (r: u64)
        ensures
            r == self.counters().hits,
    {
        self.counters.hits
    }

    /// Notes missed so far.
    pub fn misses(&self) -> (r: u64)
        ensures
            r == self.counters().misses,
    {
        self.counters.misses
    }

    /// The notes in the judgment phase.
    pub fn active(&self) -> (r: &Vec<PlayNote>)
        ensures
            r@ == self.active_notes(),
    {
        &self.active
    }

    /// Whether notes are still to become active.
    pub fn has_more_notes(&self) -> (r: bool)
        ensures
            r == (self.tracker().pending().len() > 0),
    {
        self.note_tracker.has_more_notes()
    }

    /// How many notes the map has.
    pub fn note_count(&self) -> (r: usize)
        ensures
            r == self.note_map().notes.0@.len(),
    {
        self.map.notes.0.len()
    }

    /// The map being played.
    pub fn played_map(&self) -> (r: &NoteMap)
        ensures
            *r == self.note_map(),
    {
        &self.map
    }

    /// Play speed in thousandths.
    pub fn play_speed(&self) -> (r: u32)
        ensures
            r == self.speed(),
    {
        self.play_speed
    }

    /// Where on the frame clock the play started.
    pub fn start_time_ms(&self) -> (r: u64)
        ensures
            r == self.start_ms(),
    {
        self.start_time_ms
    }
}

/// Play speed in thousandths: normal speed.
pub const NORMAL_SPEED: u32 = 1000;

/// A request to play a map, handed over once and consumed when play starts.
pub struct MapLoadPlayResource {
    map: NoteMap,
}

impl MapLoadPlayResource {
    /// The map to play.
    pub closed spec fn requested(&self) -> NoteMap {
        self.map
    }

    /// A request for a map whose notes are loaded.
    pub fn create_loaded(map: NoteMap) -> (r: MapLoadPlayResource)
        ensures
            r.requested() == map,
    {
        MapLoadPlayResource { map }
    }

    /// Starts the requested play at normal speed at `start_time_ms` of the
    /// frame clock, consuming the request.
    pub fn start(self, start_time_ms: u64) -> (s: PlayStateData)
        requires
            forall|i: int|
                0 <= i < self.requested().notes.0@.len() ==> note_in_range(
                    #[trigger] self.requested().notes.0@[i],
                ),
        ensures
            s.wf(),
            s.note_map() == self.requested(),
            s.speed() == NORMAL_SPEED,
            s.start_ms() == start_time_ms,
            s.active_notes().len() == 0,
            s.tracker().pending() == crate::note::scaled_notes(self.requested().notes.0@, NORMAL_SPEED),
            s.tracker().admitted().len() == 0,
            s.counters() == (Counters { current_combo: 0, max_combo: 0, hits: 0, misses: 0 }),
    {
        assert(self.requested() == self.map);
        PlayStateData::new(self.map, NORMAL_SPEED, start_time_ms)
    }
}

/// Helpers of the play mode.
pub struct PlayStatePlugin;

impl PlayStatePlugin {
    /// `a_ms` moved by `add` milliseconds.
    pub fn duration_add_signed(a_ms: u64, add: i128) -> (r: u64)
        requires
            0 <= a_ms + add <= u64::MAX,
        ensures
            r == a_ms + add,
    {
        (a_ms as i128 + add) as u64
    }
}

} // verus!
