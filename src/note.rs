use vstd::prelude::*;
use vstd::multiset::Multiset;
use crate::map::{Note, NoteData, note_in_range, FIELD_LIMIT, COORD_SCALE};
use crate::cursor::Cursor;

verus! {

broadcast use vstd::seq_lib::group_to_multiset_ensures;

/// A note with its hit time divided by the play speed (given in thousandths).
pub open spec fn scaled_note(n: Note, play_speed: u32) -> Note {
    Note { hit_ms: (n.hit_ms * 1000 / play_speed as int) as i128, ..n }
}

pub open spec fn scaled_notes(ns: Seq<Note>, play_speed: u32) -> Seq<Note> {
    ns.map_values(|n: Note| scaled_note(n, play_speed))
}

/// A note whose scaled hit time lies in the range a loaded note can have
/// once divided by a play speed of at least a thousandth.
pub open spec fn scaled_in_range(n: Note) -> bool {
    &&& 0 <= n.hit_ms <= FIELD_LIMIT * 1000
    &&& -FIELD_LIMIT - COORD_SCALE <= n.x <= FIELD_LIMIT - COORD_SCALE
    &&& -FIELD_LIMIT - COORD_SCALE <= n.y <= FIELD_LIMIT - COORD_SCALE
}

/// Whether a pending note becomes active at `time_ms`: it has entered the
/// approach window.
pub open spec fn admits(n: Note, time_ms: int, approach_ms: int) -> bool {
    n.hit_ms - approach_ms < time_ms
}

/// The notes of `s` that become active, in order.
pub open spec fn admitted_by(s: Seq<Note>, time_ms: int, approach_ms: int) -> Seq<Note>
    decreases s.len(),
{
    if s.len() == 0 {
        s
    } else if admits(s.last(), time_ms, approach_ms) {
        admitted_by(s.drop_last(), time_ms, approach_ms).push(s.last())
    } else {
        admitted_by(s.drop_last(), time_ms, approach_ms)
    }
}

/// The notes of `s` that stay pending, in order.
pub open spec fn kept_by(s: Seq<Note>, time_ms: int, approach_ms: int) -> Seq<Note>
    decreases s.len(),
{
    if s.len() == 0 {
        s
    } else if admits(s.last(), time_ms, approach_ms) {
        kept_by(s.drop_last(), time_ms, approach_ms)
    } else {
        kept_by(s.drop_last(), time_ms, approach_ms).push(s.last())
    }
}

/// Tracks which notes of a map are still to become active.
pub struct MapNoteTracker {
    data: NoteData,
    last_update_time: u64,
    admitted: Ghost<Seq<Note>>,
    all: Ghost<Seq<Note>>,
}

impl MapNoteTracker {
    /// Notes not yet handed out, in map order.
    pub closed spec fn pending(&self) -> Seq<Note> {
        self.data.0@
    }

    /// Notes handed out so far, in the order they were handed out.
    pub closed spec fn admitted(&self) -> Seq<Note> {
        self.admitted@
    }

    /// Every note of the map, scaled by the play speed.
    pub closed spec fn all(&self) -> Seq<Note> {
        self.all@
    }

    /// The time of the latest update.
    pub closed spec fn last_update(&self) -> u64 {
        self.last_update_time
    }

    /// Pending and handed-out notes together are exactly the map's notes,
    /// and every pending note has an in-range hit time.
    pub open spec fn wf(&self) -> bool {
        &&& self.pending().to_multiset().add(self.admitted().to_multiset())
            == self.all().to_multiset()
        &&& forall|i: int|
            0 <= i < self.pending().len() ==> scaled_in_range(#[trigger] self.pending()[i])
    }

    /// A tracker over `note_data` with every hit time divided by
    /// `play_speed` (in thousandths).
    pub fn new(note_data: NoteData, play_speed: u32) -> (t: Self)
        requires
            play_speed > 0,
            forall|i: int| 0 <= i < note_data.0@.len() ==> note_in_range(#[trigger] note_data.0@[i]),
        ensures
            t.wf(),
            t.pending() == scaled_notes(note_data.0@, play_speed),
            t.all() == t.pending(),
            t.admitted() == Seq::<Note>::empty(),
            t.last_update() == 0,
    {
        let mut scaled: Vec<Note> = Vec::new();
        let mut i: usize = 0;
        while i < note_data.0.len()
            invariant
                play_speed > 0,
                0 <= i <= note_data.0@.len(),
                forall|k: int| 0 <= k < note_data.0@.len() ==> note_in_range(#[trigger] note_data.0@[k]),
                scaled@ == scaled_notes(note_data.0@.take(i as int), play_speed),
                forall|k: int| 0 <= k < scaled@.len() ==> scaled_in_range(#[trigger] scaled@[k]),
            decreases note_data.0@.len() - i,
        {
            let n = note_data.0[i];
            assert(note_in_range(note_data.0@[i as int]));
            let q: i128 = n.hit_ms * 1000 / (play_speed as i128);
            assert(0 <= q <= FIELD_LIMIT * 1000) by (nonlinear_arith)
                requires
                    q == n.hit_ms * 1000 / (play_speed as int),
                    play_speed >= 1,
                    0 <= n.hit_ms <= FIELD_LIMIT,
            ;
            scaled.push(Note { hit_ms: q, x: n.x, y: n.y });
            i = i + 1;
            assert(scaled_notes(note_data.0@.take(i as int), play_speed) =~= scaled_notes(
                note_data.0@.take(i - 1),
                play_speed,
            ).push(scaled_note(note_data.0@[i - 1], play_speed)));
        }
        assert(note_data.0@.take(note_data.0@.len() as int) == note_data.0@);
        let t = MapNoteTracker {
            data: NoteData(scaled),
            last_update_time: 0,
            admitted: Ghost(Seq::empty()),
            all: Ghost(scaled@),
        };
        assert(t.admitted().to_multiset() =~= Multiset::empty());
        assert(t.pending().to_multiset().add(t.admitted().to_multiset()) =~= t.all().to_multiset());
        t
    }
    /// Hands out every pending note whose hit time, less `approach_time_ms`,
    /// is before `time_ms`, and removes exactly those from the pending ones;
    /// `None` when nothing was pending.
    pub fn update_get_next(&mut self, time_ms: u64, approach_time_ms: u64) -> (r: Option<Vec<Note>>)
        requires
            old(self).wf(),
        ensures
            final(self).wf(),
            final(self).all() == old(self).all(),
            old(self).pending().len() == 0 ==> r is None && *final(self) == *old(self),
            old(self).pending().len() > 0 ==> r is Some && final(self).last_update() == time_ms,
            r matches Some(v) ==> {
                &&& v@ == admitted_by(old(self).pending(), time_ms as int, approach_time_ms as int)
                &&& forall|i: int| 0 <= i < v@.len() ==> scaled_in_range(#[trigger] v@[i])
                &&& final(self).pending() == kept_by(
                    old(self).pending(),
                    time_ms as int,
                    approach_time_ms as int,
                )
                &&& final(self).admitted() == old(self).admitted() + v@
            },
    {
        if self.data.0.len() == 0 {
            return None;
        }
        let ghost t = time_ms as int;
        let ghost a = approach_time_ms as int;
        let ghost old_pending = self.pending();
        let mut taken: Vec<Note> = Vec::new();
        let mut kept: Vec<Note> = Vec::new();
        let mut i: usize = 0;
        while i < self.data.0.len()
            invariant
                self.data.0@ == old_pending,
                t == time_ms as int,
                a == approach_time_ms as int,
                0 <= i <= old_pending.len(),
                forall|k: int| 0 <= k < old_pending.len() ==> scaled_in_range(#[trigger] old_pending[k]),
                taken@ == admitted_by(old_pending.take(i as int), t, a),
                kept@ == kept_by(old_pending.take(i as int), t, a),
                forall|k: int| 0 <= k < kept@.len() ==> scaled_in_range(#[trigger] kept@[k]),
                forall|k: int| 0 <= k < taken@.len() ==> scaled_in_range(#[trigger] taken@[k]),
            decreases old_pending.len() - i,
        {
            let n = self.data.0[i];
            assert(old_pending.take(i + 1).drop_last() == old_pending.take(i as int));
            assert(old_pending.take(i + 1).last() == n);
            assert(scaled_in_range(n));
            if n.hit_ms - (approach_time_ms as i128) < time_ms as i128 {
                taken.push(n);
            } else {
                kept.push(n);
            }
            i = i + 1;
        }
        assert(old_pending.take(old_pending.len() as int) == old_pending);
        proof {
            lemma_admission_partition(old_pending, t, a);
            vstd::seq_lib::lemma_multiset_commutative(self.admitted@, taken@);
        }
        self.data = NoteData(kept);
        self.last_update_time = time_ms;
        self.admitted = Ghost(self.admitted@ + taken@);
        assert(self.pending().to_multiset().add(self.admitted().to_multiset()) =~= self.all().to_multiset());
        Some(taken)
    }

    /// Whether any note is still pending.
    pub fn has_more_notes(&self) -> (r: bool)
        ensures
            r == (self.pending().len() > 0),
    {
        self.data.0.len() != 0
    }

    /// The number of notes still pending.
    pub fn pending_len(&self) -> (r: usize)
        ensures
            r == self.pending().len(),
    {
        self.data.0.len()
    }
}

/// Admission splits the pending notes in two: those handed out and those
/// kept, which together are exactly the notes that were pending.
pub proof fn lemma_admission_partition(s: Seq<Note>, time_ms: int, approach_ms: int)
    ensures
        s.to_multiset() == admitted_by(s, time_ms, approach_ms).to_multiset().add(
            kept_by(s, time_ms, approach_ms).to_multiset(),
        ),
        forall|i: int|
            0 <= i < admitted_by(s, time_ms, approach_ms).len() ==> admits(
                #[trigger] admitted_by(s, time_ms, approach_ms)[i],
                time_ms,
                approach_ms,
            ),
        forall|i: int|
            0 <= i < kept_by(s, time_ms, approach_ms).len() ==> !admits(
                #[trigger] kept_by(s, time_ms, approach_ms)[i],
                time_ms,
                approach_ms,
            ),
    decreases s.len(),
{
    if s.len() == 0 {
        assert(s.to_multiset() =~= Multiset::empty());
        assert(s.to_multiset() =~= admitted_by(s, time_ms, approach_ms).to_multiset().add(
            kept_by(s, time_ms, approach_ms).to_multiset(),
        ));
    } else {
        lemma_admission_partition(s.drop_last(), time_ms, approach_ms);
        assert(s.drop_last().push(s.last()) == s);
        let p = admitted_by(s.drop_last(), time_ms, approach_ms);
        let q = kept_by(s.drop_last(), time_ms, approach_ms);
        if admits(s.last(), time_ms, approach_ms) {
            assert(s.to_multiset() =~= p.push(s.last()).to_multiset().add(q.to_multiset()));
        } else {
            assert(s.to_multiset() =~= p.to_multiset().add(q.push(s.last()).to_multiset()));
        }
    }
}

/// At every point of a run, each note of the map is either still pending or
/// has been handed out, and no note is handed out more often than the map
/// holds it: `update_get_next` never returns a note twice.
pub proof fn lemma_tracker_partition(t: MapNoteTracker, n: Note)
    requires
        t.wf(),
    ensures
        t.pending().to_multiset().count(n) + t.admitted().to_multiset().count(n) == t.all().to_multiset().count(n),
        t.admitted().to_multiset().count(n) <= t.all().to_multiset().count(n),
        t.pending().len() + t.admitted().len() == t.all().len(),
{
    broadcast use vstd::multiset::group_multiset_axioms;

    assert(t.pending().to_multiset().add(t.admitted().to_multiset()).len() == t.all().to_multiset().len());
}

/// How long after its hit time a note stays active, in milliseconds.
pub const LATE_WINDOW_MS: i128 = 200;

/// How long before its hit time a note may be hit, in milliseconds.
pub const NOTE_EARLY_HIT_WINDOW: i128 = 0;

/// Half the cursor's drawn size, in millionths.
pub const CURSOR_HITBOX: i128 = 131_250;

/// Half the side of a note's judgment box: its visual half-size widened by
/// the cursor's half-size, in millionths.
pub const HIT_HALF_EXTENT: i128 = 500_000 + CURSOR_HITBOX;

/// The outcome of judging a note.
#[derive(Clone, Copy, Debug, PartialEq, Eq, Structural)]
pub enum HitResult {
    Hit,
    Miss,
}

/// A note in the judgment phase.
#[derive(Clone, Copy, Debug, PartialEq, Eq, Structural)]
pub struct PlayNote {
    /// Stable identifier the presentation layer keys its visuals by.
    pub id: u64,
    pub x: i128,
    pub y: i128,
    pub hit_ms: i128,
    pub hit_result: Option<HitResult>,
}

/// Counters that judgment updates.
#[derive(Clone, Copy, Debug, PartialEq, Eq, Structural)]
pub struct Counters {
    pub current_combo: u64,
    pub max_combo: u64,
    pub hits: u64,
    pub misses: u64,
}

impl Counters {
    /// All counters at zero.
    pub fn new() -> (c: Counters)
        ensures
            c == (Counters { current_combo: 0, max_combo: 0, hits: 0, misses: 0 }),
    {
        Counters { current_combo: 0, max_combo: 0, hits: 0, misses: 0 }
    }

    /// The combo never exceeds the best combo, which never exceeds the hits.
    pub open spec fn wf(&self) -> bool {
        self.current_combo <= self.max_combo <= self.hits
    }
}

pub open spec fn note_in_play_range(n: PlayNote) -> bool {
    scaled_in_range(Note { hit_ms: n.hit_ms, x: n.x, y: n.y })
}

/// Whether the cursor lies strictly inside the note's judgment box.
pub open spec fn cursor_overlaps(n: PlayNote, c: Cursor) -> bool {
    &&& n.x - HIT_HALF_EXTENT < c.x < n.x + HIT_HALF_EXTENT
    &&& n.y - HIT_HALF_EXTENT < c.y < n.y + HIT_HALF_EXTENT
}

/// Whether the note leaves the active set at `time_ms`.
pub open spec fn retires(n: PlayNote, time_ms: int) -> bool {
    time_ms > n.hit_ms + LATE_WINDOW_MS
}

/// The note after one frame of judgment at `time_ms` with the cursor at `c`
/// (`None` when its position is unknown): a judged note keeps its result; a
/// pending one past the late window is a miss; a pending one from its hit
/// time on, under the cursor, is a hit.
pub open spec fn judged(n: PlayNote, time_ms: int, c: Option<Cursor>) -> PlayNote {
    if n.hit_result is Some {
        n
    } else if retires(n, time_ms) {
        PlayNote { hit_result: Some(HitResult::Miss), ..n }
    } else if time_ms > n.hit_ms - NOTE_EARLY_HIT_WINDOW && (c matches Some(p) && cursor_overlaps(n, p)) {
        PlayNote { hit_result: Some(HitResult::Hit), ..n }
    } else {
        n
    }
}

/// The counters after judging `n`.
pub open spec fn counted(k: Counters, n: PlayNote, time_ms: int, c: Option<Cursor>) -> Counters {
    let j = judged(n, time_ms, c);
    if n.hit_result is None && j.hit_result == Some(HitResult::Miss) {
        Counters { current_combo: 0, misses: (k.misses + 1) as u64, ..k }
    } else if n.hit_result is None && j.hit_result == Some(HitResult::Hit) {
        Counters {
            current_combo: (k.current_combo + 1) as u64,
            hits: (k.hits + 1) as u64,
            max_combo: if k.current_combo + 1 > k.max_combo {
                (k.current_combo + 1) as u64
            } else {
                k.max_combo
            },
            ..k
        }
    } else {
        k
    }
}

/// The active notes after a frame: each judged, those past their late
/// window removed, order kept.
pub open spec fn judge_all(s: Seq<PlayNote>, time_ms: int, c: Option<Cursor>) -> Seq<PlayNote>
    decreases s.len(),
{
    if s.len() == 0 {
        s
    } else if retires(s.last(), time_ms) {
        judge_all(s.drop_last(), time_ms, c)
    } else {
        judge_all(s.drop_last(), time_ms, c).push(judged(s.last(), time_ms, c))
    }
}

/// The counters after a frame, the notes judged in order.
pub open spec fn count_all(k: Counters, s: Seq<PlayNote>, time_ms: int, c: Option<Cursor>) -> Counters
    decreases s.len(),
{
    if s.len() == 0 {
        k
    } else {
        counted(count_all(k, s.drop_last(), time_ms, c), s.last(), time_ms, c)
    }
}

/// How many notes of `s` are not judged yet.
pub open spec fn unjudged(s: Seq<PlayNote>) -> nat
    decreases s.len(),
{
    if s.len() == 0 {
        0
    } else {
        unjudged(s.drop_last()) + if s.last().hit_result is None {
            1nat
        } else {
            0nat
        }
    }
}

/// Whether the cursor is inside the note's judgment box.
pub fn did_cursor_hit(note: &PlayNote, cursor_pos: &Cursor) -> (r: bool)
    requires
        note_in_play_range(*note),
    ensures
        r == cursor_overlaps(*note, *cursor_pos),
{
    let left = note.x - HIT_HALF_EXTENT;
    let top = note.y - HIT_HALF_EXTENT;
    let right = note.x + HIT_HALF_EXTENT;
    let bottom = note.y + HIT_HALF_EXTENT;
    left < cursor_pos.x && cursor_pos.x < right && top < cursor_pos.y && cursor_pos.y < bottom
}

proof fn lemma_unjudged_prefix(s: Seq<PlayNote>, i: int)
    requires
        0 <= i <= s.len(),
    ensures
        unjudged(s.take(i)) <= unjudged(s),
    decreases s.len(),
{
    if i < s.len() {
        assert(s.drop_last().take(i) == s.take(i));
        lemma_unjudged_prefix(s.drop_last(), i);
    } else {
        assert(s.take(i) == s);
    }
}

/// Judging a frame moves notes from unjudged to hit or missed and changes
/// no other count.
pub proof fn lemma_judging_conserves(k: Counters, s: Seq<PlayNote>, time_ms: int, c: Option<Cursor>)
    requires
        k.wf(),
        k.hits + k.misses + unjudged(s) <= u64::MAX,
    ensures
        count_all(k, s, time_ms, c).wf(),
        count_all(k, s, time_ms, c).hits + count_all(k, s, time_ms, c).misses + unjudged(
            judge_all(s, time_ms, c),
        ) == k.hits + k.misses + unjudged(s),
    decreases s.len(),
{
    if s.len() > 0 {
        lemma_judging_conserves(k, s.drop_last(), time_ms, c);
        let prev = judge_all(s.drop_last(), time_ms, c);
        let j = judged(s.last(), time_ms, c);
        assert(prev.push(j).drop_last() == prev);
    }
}

/// Judges one note at `time_ms` and updates the counters.
pub fn judge_note(
    note: &mut PlayNote,
    time_ms: u64,
    cursor_pos: Option<Cursor>,
    counters: &mut Counters,
)
    requires
        note_in_play_range(*old(note)),
        old(counters).wf(),
        old(note).hit_result is None ==> old(counters).hits + old(counters).misses + 1 <= u64::MAX,
    ensures
        *final(note) == judged(*old(note), time_ms as int, cursor_pos),
        *final(counters) == counted(*old(counters), *old(note), time_ms as int, cursor_pos),
{
    let t = time_ms as i128;
    if note.hit_result.is_some() {
        return;
    }
    if t > note.hit_ms + LATE_WINDOW_MS {
        note.hit_result = Some(HitResult::Miss);
        counters.current_combo = 0;
        counters.misses = counters.misses + 1;
    } else if t > note.hit_ms - NOTE_EARLY_HIT_WINDOW && match cursor_pos {
        Some(p) => did_cursor_hit(note, &p),
        None => false,
    } {
        note.hit_result = Some(HitResult::Hit);
        counters.current_combo = counters.current_combo + 1;
        counters.hits = counters.hits + 1;
        if counters.current_combo > counters.max_combo {
            counters.max_combo = counters.current_combo;
        }
    }
}

/// One frame of judgment over the active notes: each is judged in order,
/// and those past their late window leave the set.
pub fn judge_notes(
    notes: &mut Vec<PlayNote>,
    time_ms: u64,
    cursor_pos: Option<Cursor>,
    counters: &mut Counters,
)
    requires
        forall|i: int| 0 <= i < old(notes)@.len() ==> note_in_play_range(#[trigger] old(notes)@[i]),
        old(counters).wf(),
        old(counters).hits + old(counters).misses + unjudged(old(notes)@) <= u64::MAX,
    ensures
        final(notes)@ == judge_all(old(notes)@, time_ms as int, cursor_pos),
        *final(counters) == count_all(*old(counters), old(notes)@, time_ms as int, cursor_pos),
        final(counters).wf(),
        final(counters).hits + final(counters).misses + unjudged(final(notes)@) == old(
            counters,
        ).hits + old(counters).misses + unjudged(old(notes)@),
        forall|i: int| 0 <= i < final(notes)@.len() ==> note_in_play_range(#[trigger] final(notes)@[i]),
{
    let ghost s = notes@;
    let ghost k = *counters;
    let ghost t = time_ms as int;
    let mut kept: Vec<PlayNote> = Vec::new();
    let mut i: usize = 0;
    while i < notes.len()
        invariant
            notes@ == s,
            t == time_ms as int,
            0 <= i <= s.len(),
            forall|j: int| 0 <= j < s.len() ==> note_in_play_range(#[trigger] s[j]),
            k.wf(),
            k.hits + k.misses + unjudged(s) <= u64::MAX,
            kept@ == judge_all(s.take(i as int), t, cursor_pos),
            *counters == count_all(k, s.take(i as int), t, cursor_pos),
            forall|j: int| 0 <= j < kept@.len() ==> note_in_play_range(#[trigger] kept@[j]),
        decreases s.len() - i,
    {
        let mut n = notes[i];
        assert(s.take(i + 1).drop_last() == s.take(i as int));
        assert(s.take(i + 1).last() == n);
        proof {
            lemma_unjudged_prefix(s, i as int);
            lemma_unjudged_prefix(s, i + 1);
            lemma_judging_conserves(k, s.take(i as int), t, cursor_pos);
        }
        assert(note_in_play_range(n));
        let retired = time_ms as i128 > n.hit_ms + LATE_WINDOW_MS;
        judge_note(&mut n, time_ms, cursor_pos, counters);
        if !retired {
            kept.push(n);
        }
        i = i + 1;
    }
    assert(s.take(s.len() as int) == s);
    proof {
        lemma_judging_conserves(k, s, t, cursor_pos);
    }
    *notes = kept;
}

/// Once a note is judged, later frames never change its result, whatever
/// the time and the cursor.
pub proof fn lemma_judgment_write_once(
    n: PlayNote,
    t1: int,
    c1: Option<Cursor>,
    t2: int,
    c2: Option<Cursor>,
)
    requires
        judged(n, t1, c1).hit_result is Some,
    ensures
        judged(judged(n, t1, c1), t2, c2).hit_result == judged(n, t1, c1).hit_result,
        n.hit_result is Some ==> judged(n, t1, c1).hit_result == n.hit_result,
{
}

/// A judged note adds nothing to the hit or miss counts and leaves the
/// combo alone.
pub proof fn lemma_judged_note_is_inert(k: Counters, n: PlayNote, time_ms: int, c: Option<Cursor>)
    requires
        n.hit_result is Some,
    ensures
        counted(k, n, time_ms, c) == k,
        judged(n, time_ms, c) == n,
{
}

/// After a frame every active note is an active note of before, judged
/// once more; one that was already judged comes out unchanged, so its
/// result stands until it leaves the set.
pub proof fn lemma_frame_keeps_judgments(s: Seq<PlayNote>, time_ms: int, c: Option<Cursor>)
    ensures
        forall|i: int|
            0 <= i < judge_all(s, time_ms, c).len() ==> exists|j: int|
                0 <= j < s.len() && #[trigger] judge_all(s, time_ms, c)[i] == judged(s[j], time_ms, c)
                    && (s[j].hit_result is Some ==> judge_all(s, time_ms, c)[i] == s[j]),
    decreases s.len(),
{
    if s.len() > 0 {
        let d = s.drop_last();
        lemma_frame_keeps_judgments(d, time_ms, c);
        let prev = judge_all(d, time_ms, c);
        let out = judge_all(s, time_ms, c);
        assert forall|i: int| 0 <= i < out.len() implies exists|j: int|
            0 <= j < s.len() && #[trigger] out[i] == judged(s[j], time_ms, c) && (s[j].hit_result is Some
                ==> out[i] == s[j]) by {
            if i < prev.len() {
                assert(out[i] == prev[i]);
                let j = choose|j: int|
                    0 <= j < d.len() && #[trigger] prev[i] == judged(d[j], time_ms, c) && (
                    d[j].hit_result is Some ==> prev[i] == d[j]);
                assert(s[j] == d[j]);
            } else {
                assert(out[i] == judged(s[s.len() - 1], time_ms, c));
            }
        }
    }
}

/// How long a newly active note takes to fade in, in milliseconds.
pub const NOTE_FADE_IN: i128 = 400;

/// `num * 1000 / den`, rounded toward zero.
pub open spec fn permille_toward_zero(num: int, den: int) -> int {
    if num >= 0 {
        num * 1000 / den
    } else {
        -((-num) * 1000 / den)
    }
}

/// How far the note still is from its hit time, as thousandths of the
/// approach window: 1000 when it appears, 0 at its hit time, negative after.
pub fn approach_ratio_permille(note: &PlayNote, time_ms: u64, approach_ms: u64) -> (r: i128)
    requires
        note_in_play_range(*note),
        approach_ms > 0,
    ensures
        r == permille_toward_zero(note.hit_ms - time_ms, approach_ms as int),
{
    let d = note.hit_ms - time_ms as i128;
    let a = approach_ms as i128;
    if d >= 0 {
        d * 1000 / a
    } else {
        assert((-d) * 1000 / (a as int) <= (-d) * 1000) by (nonlinear_arith)
            requires
                a >= 1,
                -d >= 0,
        ;
        -((-d) * 1000 / a)
    }
}

/// Opacity of an active note in thousandths: it rises linearly over the
/// first `NOTE_FADE_IN` ms after the note appears, then stays full.
pub open spec fn fade_alpha(hit_ms: int, time_ms: int, approach_ms: int) -> int {
    if time_ms > hit_ms - approach_ms + NOTE_FADE_IN {
        1000
    } else {
        permille_toward_zero(time_ms - (hit_ms - approach_ms), NOTE_FADE_IN as int)
    }
}

/// The note's opacity in thousandths at `time_ms`.
pub fn fade_in_alpha_permille(note: &PlayNote, time_ms: u64, approach_ms: u64) -> (r: i128)
    requires
        note_in_play_range(*note),
    ensures
        r == fade_alpha(note.hit_ms as int, time_ms as int, approach_ms as int),
{
    let t = time_ms as i128;
    let appear = note.hit_ms - approach_ms as i128;
    if t > appear + NOTE_FADE_IN {
        return 1000;
    }
    let d = t - appear;
    if d >= 0 {
        d * 1000 / NOTE_FADE_IN
    } else {
        assert((-d) * 1000 / 400 <= (-d) * 1000) by (nonlinear_arith)
            requires
                -d >= 0,
        ;
        -((-d) * 1000 / NOTE_FADE_IN)
    }
}

/// Hands out note colours (`0xRRGGBBAA`) from a palette, in turn.
pub struct NotePaletteCycler {
    palette: Vec<u32>,
    current_material: usize,
}

impl NotePaletteCycler {
    /// The palette.
    pub closed spec fn colors(&self) -> Seq<u32> {
        self.palette@
    }

    /// Index of the colour handed out next.
    pub closed spec fn position(&self) -> nat {
        self.current_material as nat
    }

    pub open spec fn wf(&self) -> bool {
        &&& (self.colors().len() == 0 ==> self.position() == 0)
        &&& (self.colors().len() > 0 ==> self.position() < self.colors().len())
    }

    /// A cycler that starts at the palette's first colour.
    pub fn new(palette: Vec<u32>) -> (c: NotePaletteCycler)
        ensures
            c.wf(),
            c.colors() == palette@,
            c.position() == 0,
    {
        NotePaletteCycler { palette, current_material: 0 }
    }

    /// The next colour; after the last one the palette starts over.
    pub fn get_next(&mut self) -> (r: u32)
        requires
            old(self).wf(),
            old(self).colors().len() > 0,
        ensures
            final(self).wf(),
            final(self).colors() == old(self).colors(),
            r == old(self).colors()[old(self).position() as int],
            final(self).position() == (old(self).position() + 1) % old(self).colors().len(),
    {
        let n = self.palette.len();
        let c = self.palette[self.current_material];
        let p = self.current_material;
        if p >= n - 1 {
            assert((p + 1) % (n as int) == 0) by (nonlinear_arith)
                requires
                    p + 1 == n,
                    n > 0,
            ;
            self.current_material = 0;
        } else {
            assert((p + 1) % (n as int) == p + 1) by (nonlinear_arith)
                requires
                    p + 1 < n,
            ;
            self.current_material = p + 1;
        }
        c
    }
}

} // verus!
