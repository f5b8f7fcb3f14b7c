use vstd::prelude::*;
use vstd::utf8::valid_utf8;

verus! {

/// Fixed-point scale of coordinates: one unit is a million steps.
pub const COORD_SCALE: i128 = 1_000_000;

/// Largest magnitude accepted for a numeric field (that of `i64`).
pub const FIELD_LIMIT: u64 = 9_223_372_036_854_775_807;

/// A timed target; `x` and `y` are in millionths, in the range -1..1 for
/// well-formed maps.
#[derive(Clone, Copy, Debug, PartialEq, Eq, Structural)]
pub struct Note {
    pub hit_ms: i128,
    pub x: i128,
    pub y: i128,
}

/// The notes of a map, in file order.
#[derive(Clone, Debug)]
pub struct NoteData(pub Vec<Note>);

/// A playable map: its metadata, its notes and the audio track it refers to.
#[derive(Clone, Debug)]
pub struct NoteMap {
    pub title: String,
    pub artist: String,
    pub mapper: String,
    pub notes: NoteData,
    pub audio: String,
}

/// Loader of version-one note files.
#[derive(Clone, Copy, Debug, Default)]
pub struct V1NoteDataLoader;

/// Why a note file could not be loaded.
#[derive(Clone, Copy, Debug, PartialEq, Eq, Structural)]
#[non_exhaustive]
pub enum V1NoteDataLoaderError {
    /// A record lacks a sub-field, has too many, or one is not a number.
    MalformedField,
    /// The input is not valid UTF-8 text.
    Encoding,
}

impl NoteData {
    /// A copy of the notes.
    pub fn clone_data(&self) -> (r: NoteData)
        ensures
            r.0@ == self.0@,
    {
        let mut v: Vec<Note> = Vec::new();
        let mut i: usize = 0;
        while i < self.0.len()
            invariant
                0 <= i <= self.0@.len(),
                v@ == self.0@.take(i as int),
            decreases self.0@.len() - i,
        {
            v.push(self.0[i]);
            i = i + 1;
            assert(v@ =~= self.0@.take(i as int));
        }
        assert(self.0@.take(self.0@.len() as int) == self.0@);
        NoteData(v)
    }
}

pub open spec fn is_digit(b: u8) -> bool {
    48 <= b <= 57
}

pub open spec fn all_digits(s: Seq<u8>) -> bool {
    forall|i: int| 0 <= i < s.len() ==> is_digit(#[trigger] s[i])
}

/// Value of a string of decimal digits.
pub open spec fn digits_value(s: Seq<u8>) -> nat
    decreases s.len(),
{
    if s.len() == 0 {
        0
    } else {
        digits_value(s.drop_last()) * 10 + (s.last() - 48) as nat
    }
}

/// The pieces of `s` between occurrences of `sep`, as `str::split` gives them.
pub open spec fn split(s: Seq<u8>, sep: u8) -> Seq<Seq<u8>>
    decreases s.len(),
{
    if s.len() == 0 {
        seq![Seq::empty()]
    } else {
        let p = split(s.drop_last(), sep);
        if s.last() == sep {
            p.push(Seq::empty())
        } else {
            p.update(p.len() - 1, p.last().push(s.last()))
        }
    }
}

/// A non-negative integer field: one or more digits, at most `FIELD_LIMIT`.
pub open spec fn int_field(s: Seq<u8>) -> Option<int> {
    if s.len() > 0 && all_digits(s) && digits_value(s) <= FIELD_LIMIT {
        Some(digits_value(s) as int)
    } else {
        None
    }
}

pub open spec fn pow10(n: nat) -> nat
    decreases n,
{
    if n == 0 {
        1
    } else {
        10 * pow10((n - 1) as nat)
    }
}

/// Millionths given by the digits after a decimal point; digits past the
/// sixth are dropped.
pub open spec fn fraction_millionths(f: Seq<u8>) -> nat {
    if f.len() >= 6 {
        digits_value(f.take(6))
    } else {
        digits_value(f) * pow10((6 - f.len()) as nat)
    }
}

/// A decimal field, `digits` or `digits.digits` where either side of the
/// point may be empty but not both, in millionths, at most `FIELD_LIMIT`.
pub open spec fn decimal_field(s: Seq<u8>) -> Option<int> {
    let p = split(s, 46);
    let whole = p[0];
    if p.len() == 1 && whole.len() > 0 && all_digits(whole) && digits_value(whole) * 1_000_000
        <= FIELD_LIMIT {
        Some((digits_value(whole) * 1_000_000) as int)
    } else if p.len() == 2 && whole.len() + p[1].len() > 0 && all_digits(whole) && all_digits(p[1])
        && digits_value(whole) * 1_000_000 + fraction_millionths(p[1]) <= FIELD_LIMIT {
        Some((digits_value(whole) * 1_000_000 + fraction_millionths(p[1])) as int)
    } else {
        None
    }
}

/// A record `x|y|hit_ms`; the coordinates are moved from 0..2 to -1..1.
pub open spec fn record_note(r: Seq<u8>) -> Option<Note> {
    let p = split(r, 124);
    if p.len() == 3 && decimal_field(p[0]) is Some && decimal_field(p[1]) is Some
        && int_field(p[2]) is Some {
        Some(
            Note {
                hit_ms: int_field(p[2])->0 as i128,
                x: (decimal_field(p[0])->0 - COORD_SCALE) as i128,
                y: (decimal_field(p[1])->0 - COORD_SCALE) as i128,
            },
        )
    } else {
        None
    }
}

/// The notes of a sequence of records, or `None` if any record is malformed.
pub open spec fn records_notes(rs: Seq<Seq<u8>>) -> Option<Seq<Note>>
    decreases rs.len(),
{
    if rs.len() == 0 {
        Some(Seq::empty())
    } else {
        match (records_notes(rs.drop_last()), record_note(rs.last())) {
            (Some(ns), Some(n)) => Some(ns.push(n)),
            _ => None,
        }
    }
}

/// What loading a note file gives: the first comma-separated record is
/// metadata and is skipped; each other one is a note.
pub open spec fn load_result(b: Seq<u8>) -> Result<Seq<Note>, V1NoteDataLoaderError> {
    if !valid_utf8(b) {
        Err(V1NoteDataLoaderError::Encoding)
    } else {
        match records_notes(split(b, 44).drop_first()) {
            Some(ns) => Ok(ns),
            None => Err(V1NoteDataLoaderError::MalformedField),
        }
    }
}

/// A note as the loader produces it: coordinates within the range that a
/// field can hold, and a non-negative hit time that fits in `i64`.
pub open spec fn note_in_range(n: Note) -> bool {
    &&& 0 <= n.hit_ms <= FIELD_LIMIT
    &&& -FIELD_LIMIT - COORD_SCALE <= n.x <= FIELD_LIMIT - COORD_SCALE
    &&& -FIELD_LIMIT - COORD_SCALE <= n.y <= FIELD_LIMIT - COORD_SCALE
}

/// Whether every note is in the range that loaded notes have, as a play
/// session asks of its map.
pub fn notes_in_range(d: &NoteData) -> (r: bool)
    ensures
        r == forall|i: int| 0 <= i < d.0@.len() ==> note_in_range(#[trigger] d.0@[i]),
{
    let mut i: usize = 0;
    while i < d.0.len()
        invariant
            0 <= i <= d.0@.len(),
            forall|k: int| 0 <= k < i ==> note_in_range(#[trigger] d.0@[k]),
        decreases d.0@.len() - i,
    {
        let n = d.0[i];
        let lim = FIELD_LIMIT as i128;
        if !(0 <= n.hit_ms && n.hit_ms <= lim && -lim - COORD_SCALE <= n.x && n.x <= lim - COORD_SCALE
            && -lim - COORD_SCALE <= n.y && n.y <= lim - COORD_SCALE) {
            assert(!note_in_range(d.0@[i as int]));
            return false;
        }
        i = i + 1;
    }
    true
}

/// Relies on `std::str::from_utf8`, which fails exactly on input that is not
/// well-formed UTF-8.
#[verifier::external_body]
fn is_utf8(b: &[u8]) -> (r: bool)
    ensures
        r == valid_utf8(b@),
{
    std::str::from_utf8(b).is_ok()
}

/// Splits `s` at each `sep`.
pub fn split_bytes(s: &[u8], sep: u8) -> (r: Vec<Vec<u8>>)
    ensures
        r@.len() == split(s@, sep).len(),
        forall|i: int| 0 <= i < r@.len() ==> #[trigger] r@[i]@ == split(s@, sep)[i],
{
    let mut done: Vec<Vec<u8>> = Vec::new();
    let mut cur: Vec<u8> = Vec::new();
    let mut i: usize = 0;
    while i < s.len()
        invariant
            0 <= i <= s@.len(),
            done@.len() + 1 == split(s@.take(i as int), sep).len(),
            forall|k: int| 0 <= k < done@.len() ==> #[trigger] done@[k]@ == split(s@.take(i as int), sep)[k],
            cur@ == split(s@.take(i as int), sep).last(),
        decreases s@.len() - i,
    {
        assert(s@.take(i + 1).drop_last() == s@.take(i as int));
        let b = s[i];
        if b == sep {
            done.push(cur);
            cur = Vec::new();
        } else {
            cur.push(b);
        }
        i = i + 1;
    }
    assert(s@.take(s@.len() as int) == s@);
    done.push(cur);
    done
}


proof fn lemma_digits_value_prefix(s: Seq<u8>, i: int)
    requires
        0 <= i <= s.len(),
    ensures
        digits_value(s.take(i)) <= digits_value(s),
    decreases s.len(),
{
    if i < s.len() {
        assert(s.drop_last().take(i) == s.take(i));
        lemma_digits_value_prefix(s.drop_last(), i);
    } else {
        assert(s.take(i) == s);
    }
}

/// Reads a run of decimal digits, refusing an empty run and values above
/// `FIELD_LIMIT`.
fn parse_digits(s: &[u8]) -> (r: Option<u64>)
    ensures
        r == (if s@.len() > 0 && all_digits(s@) && digits_value(s@) <= FIELD_LIMIT {
            Some(digits_value(s@) as u64)
        } else {
            None::<u64>
        }),
{
    if s.len() == 0 {
        return None;
    }
    let mut acc: u64 = 0;
    let mut i: usize = 0;
    while i < s.len()
        invariant
            0 <= i <= s@.len(),
            acc == digits_value(s@.take(i as int)),
            acc <= FIELD_LIMIT,
            all_digits(s@.take(i as int)),
        decreases s@.len() - i,
    {
        let b = s[i];
        assert(s@.take(i + 1).drop_last() == s@.take(i as int));
        if b < 48 || b > 57 {
            assert(!is_digit(s@[i as int]));
            return None;
        }
        let d: u64 = (b - 48) as u64;
        if acc > (FIELD_LIMIT - d) / 10 {
            assert(acc * 10 + d > FIELD_LIMIT) by (nonlinear_arith)
                requires
                    acc > (FIELD_LIMIT - d) / 10,
                    d <= 9,
            ;
            proof {
                lemma_digits_value_prefix(s@, i + 1);
            }
            return None;
        }
        assert(acc * 10 + d <= FIELD_LIMIT) by (nonlinear_arith)
            requires
                acc <= (FIELD_LIMIT - d) / 10,
                d <= 9,
        ;
        acc = acc * 10 + d;
        i = i + 1;
        assert(all_digits(s@.take(i as int))) by {
            assert forall|k: int| 0 <= k < i implies is_digit(#[trigger] s@.take(i as int)[k]) by {
                if k < i - 1 {
                    assert(s@.take(i as int)[k] == s@.take(i - 1)[k]);
                }
            }
        }
    }
    assert(s@.take(s@.len() as int) == s@);
    Some(acc)
}

/// Reads a hit-time field: one or more digits, at most `FIELD_LIMIT`.
pub fn bufreader_to_i128(buf: Vec<u8>) -> (r: Result<i128, V1NoteDataLoaderError>)
    ensures
        r == (match int_field(buf@) {
            Some(v) => Ok(v as i128),
            None => Err(V1NoteDataLoaderError::MalformedField),
        }),
{
    match parse_digits(buf.as_slice()) {
        Some(v) => Ok(v as i128),
        None => Err(V1NoteDataLoaderError::MalformedField),
    }
}


fn all_digit_bytes(s: &Vec<u8>) -> (r: bool)
    ensures
        r == all_digits(s@),
{
    let mut i: usize = 0;
    while i < s.len()
        invariant
            0 <= i <= s@.len(),
            forall|k: int| 0 <= k < i ==> is_digit(#[trigger] s@[k]),
        decreases s@.len() - i,
    {
        if s[i] < 48 || s[i] > 57 {
            return false;
        }
        i = i + 1;
    }
    true
}

/// Millionths given by a run of digits that follows a decimal point.
fn fraction_value(f: &Vec<u8>) -> (r: u64)
    requires
        all_digits(f@),
    ensures
        r == fraction_millionths(f@),
        r < 1_000_000,
{
    let m: usize = if f.len() >= 6 { 6 } else { f.len() };
    let mut acc: u64 = 0;
    let mut k: usize = 0;
    while k < m
        invariant
            0 <= k <= m <= 6,
            m <= f@.len(),
            all_digits(f@),
            acc == digits_value(f@.take(k as int)),
            acc < pow10(k as nat),
        decreases m - k,
    {
        assert(f@.take(k + 1).drop_last() == f@.take(k as int));
        assert(is_digit(f@[k as int]));
        let d: u64 = (f[k] - 48) as u64;
        assert(acc * 10 + d < 10 * pow10(k as nat)) by (nonlinear_arith)
            requires
                acc < pow10(k as nat),
                d <= 9,
        ;
        assert(pow10((k + 1) as nat) == 10 * pow10(k as nat));
        proof {
            lemma_pow10_six();
        }
        assert(pow10((k + 1) as nat) <= 1_000_000) by {
            lemma_pow10_mono((k + 1) as nat, 6);
        }
        acc = acc * 10 + d;
        k = k + 1;
    }
    proof {
        lemma_pow10_six();
    }
    if m == 6 {
        return acc;
    }
    assert(f@.take(m as int) == f@);
    let ghost base = acc;
    assert(pow10(0) == 1);
    assert(k == m);
    assert(((k - m) as nat) == 0nat);
    assert(pow10((k - m) as nat) == 1);
    assert(base * pow10((k - m) as nat) == base);
    while k < 6
        invariant
            pow10(6) == 1_000_000,
            m <= k <= 6,
            m == f@.len(),
            base == digits_value(f@),
            acc == base * pow10((k - m) as nat),
            acc < pow10(k as nat),
        decreases 6 - k,
    {
        assert(pow10((k + 1) as nat) == 10 * pow10(k as nat));
        assert(pow10((k + 1 - m) as nat) == 10 * pow10((k - m) as nat));
        proof {
            lemma_pow10_mono((k + 1) as nat, 6);
        }
        assert(base * pow10((k + 1 - m) as nat) == 10 * (base * pow10((k - m) as nat)))
            by (nonlinear_arith)
            requires
                pow10((k + 1 - m) as nat) == 10 * pow10((k - m) as nat),
        ;
        assert(acc * 10 < pow10((k + 1) as nat));
        acc = acc * 10;
        k = k + 1;
    }
    acc
}

proof fn lemma_pow10_six()
    ensures
        pow10(6) == 1_000_000,
{
    reveal_with_fuel(pow10, 7);
}

proof fn lemma_pow10_mono(a: nat, b: nat)
    requires
        a <= b,
    ensures
        pow10(a) <= pow10(b),
        pow10(a) >= 1,
    decreases b,
{
    if a < b {
        lemma_pow10_mono(a, (b - 1) as nat);
    } else if a > 0 {
        lemma_pow10_mono((a - 1) as nat, (a - 1) as nat);
    }
}

/// Reads a coordinate field, `digits` or `digits.digits`, in millionths.
pub fn bufreader_to_fixed(buf: Vec<u8>) -> (r: Result<i128, V1NoteDataLoaderError>)
    ensures
        r == (match decimal_field(buf@) {
            Some(v) => Ok(v as i128),
            None => Err(V1NoteDataLoaderError::MalformedField),
        }),
{
    let parts = split_bytes(buf.as_slice(), 46);
    let ghost p = split(buf@, 46);
    if parts.len() != 1 && parts.len() != 2 {
        return Err(V1NoteDataLoaderError::MalformedField);
    }
    assert(parts@[0]@ == p[0]);
    let whole: u64 = if parts.len() == 2 && parts[0].len() == 0 {
        if parts[1].len() == 0 {
            return Err(V1NoteDataLoaderError::MalformedField);
        }
        assert(all_digits(p[0]));
        0
    } else {
        match parse_digits(parts[0].as_slice()) {
            Some(w) => w,
            None => {
                return Err(V1NoteDataLoaderError::MalformedField);
            },
        }
    };
    let mut total: u128 = whole as u128 * 1_000_000;
    if parts.len() == 2 {
        assert(parts@[1]@ == p[1]);
        if !all_digit_bytes(&parts[1]) {
            return Err(V1NoteDataLoaderError::MalformedField);
        }
        total = total + fraction_value(&parts[1]) as u128;
    }
    if total > FIELD_LIMIT as u128 {
        return Err(V1NoteDataLoaderError::MalformedField);
    }
    Ok(total as i128)
}


/// Reads one `x|y|hit_ms` record.
pub fn parse_record(r: &Vec<u8>) -> (res: Result<Note, V1NoteDataLoaderError>)
    ensures
        res == (match record_note(r@) {
            Some(n) => Ok(n),
            None => Err(V1NoteDataLoaderError::MalformedField),
        }),
{
    let mut parts = split_bytes(r.as_slice(), 124);
    let ghost p = split(r@, 124);
    if parts.len() != 3 {
        return Err(V1NoteDataLoaderError::MalformedField);
    }
    assert(parts@[0]@ == p[0] && parts@[1]@ == p[1] && parts@[2]@ == p[2]);
    let hit_field = parts.pop().unwrap();
    let y_field = parts.pop().unwrap();
    let x_field = parts.pop().unwrap();
    let x = bufreader_to_fixed(x_field);
    let y = bufreader_to_fixed(y_field);
    let hit_ms = bufreader_to_i128(hit_field);
    match (x, y, hit_ms) {
        (Ok(x), Ok(y), Ok(hit_ms)) => Ok(Note { hit_ms, x: x - COORD_SCALE, y: y - COORD_SCALE }),
        _ => Err(V1NoteDataLoaderError::MalformedField),
    }
}

impl V1NoteDataLoader {
    /// Loads a note file: comma-separated records, the first of which is
    /// metadata and skipped, each other one `x|y|hit_ms`.
    pub fn load(&self, bytes: &[u8]) -> (r: Result<NoteData, V1NoteDataLoaderError>)
        ensures
            match (r, load_result(bytes@)) {
                (Ok(d), Ok(ns)) => d.0@ == ns,
                (Err(e), Err(f)) => e == f,
                _ => false,
            },
            r matches Ok(d) ==> forall|i: int| 0 <= i < d.0@.len() ==> note_in_range(#[trigger] d.0@[i]),
    {
        if !is_utf8(bytes) {
            return Err(V1NoteDataLoaderError::Encoding);
        }
        let records = split_bytes(bytes, 44);
        proof {
            lemma_split_len(bytes@, 44);
        }
        let ghost rs = split(bytes@, 44).drop_first();
        let mut notes: Vec<Note> = Vec::new();
        let mut j: usize = 1;
        assert(rs.take(0) == Seq::<Seq<u8>>::empty());
        while j < records.len()
            invariant
                1 <= j <= records@.len(),
                valid_utf8(bytes@),
                rs == split(bytes@, 44).drop_first(),
                records@.len() == rs.len() + 1,
                forall|k: int| 0 <= k < rs.len() ==> #[trigger] rs[k] == records@[k + 1]@,
                records_notes(rs.take(j - 1)) == Some(notes@),
                forall|i: int| 0 <= i < notes@.len() ==> note_in_range(#[trigger] notes@[i]),
            decreases records@.len() - j,
        {
            assert(rs.take(j as int).drop_last() == rs.take(j - 1));
            match parse_record(&records[j]) {
                Ok(n) => notes.push(n),
                Err(e) => {
                    proof {
                        assert(rs.take(j as int).last() == records@[j as int]@);
                        assert(records_notes(rs.take(j as int)) is None);
                        lemma_records_prefix_fails(rs, j as int);
                    }
                    return Err(e);
                },
            }
            j = j + 1;
        }
        assert(rs.take(rs.len() as int) == rs);
        Ok(NoteData(notes))
    }

    /// File extensions this loader reads.
    pub fn extensions(&self) -> (r: &'static str)
        ensures
            r@ == "txt"@,
    {
        "txt"
    }
}

proof fn lemma_split_len(s: Seq<u8>, sep: u8)
    ensures
        split(s, sep).len() >= 1,
    decreases s.len(),
{
    if s.len() > 0 {
        lemma_split_len(s.drop_last(), sep);
    }
}

proof fn lemma_records_prefix_fails(rs: Seq<Seq<u8>>, j: int)
    requires
        0 <= j <= rs.len(),
        records_notes(rs.take(j)) is None,
    ensures
        records_notes(rs) is None,
    decreases rs.len() - j,
{
    if j < rs.len() {
        assert(rs.take(j + 1).drop_last() == rs.take(j));
        lemma_records_prefix_fails(rs, j + 1);
    } else {
        assert(rs.take(j) == rs);
    }
}

pub open spec fn free_of(s: Seq<u8>, x: u8) -> bool {
    forall|i: int| 0 <= i < s.len() ==> #[trigger] s[i] != x
}

proof fn lemma_split_free(s: Seq<u8>, sep: u8)
    requires
        free_of(s, sep),
    ensures
        split(s, sep) == seq![s],
    decreases s.len(),
{
    if s.len() > 0 {
        lemma_split_free(s.drop_last(), sep);
        assert(s.drop_last().push(s.last()) == s);
        assert(split(s, sep) =~= seq![s]);
    } else {
        assert(s =~= Seq::<u8>::empty());
    }
}

proof fn lemma_split_concat(x: Seq<u8>, y: Seq<u8>, sep: u8)
    ensures
        split(x + seq![sep] + y, sep) == split(x, sep) + split(y, sep),
    decreases y.len(),
{
    lemma_split_len(y, sep);
    let s = x + seq![sep] + y;
    if y.len() == 0 {
        assert(s.drop_last() =~= x);
        assert(split(y, sep) =~= seq![Seq::<u8>::empty()]);
        assert(split(s, sep) =~= split(x, sep) + split(y, sep));
    } else {
        lemma_split_concat(x, y.drop_last(), sep);
        lemma_split_len(y.drop_last(), sep);
        assert(s.drop_last() =~= x + seq![sep] + y.drop_last());
        assert(split(s, sep) =~= split(x, sep) + split(y, sep));
    }
}

proof fn lemma_pieces_free(s: Seq<u8>, sep: u8, x: u8)
    requires
        x != sep,
        forall|k: int| 0 <= k < split(s, sep).len() ==> free_of(#[trigger] split(s, sep)[k], x),
    ensures
        free_of(s, x),
    decreases s.len(),
{
    if s.len() > 0 {
        let p = split(s.drop_last(), sep);
        lemma_split_len(s.drop_last(), sep);
        if s.last() != sep {
            assert(split(s, sep).last() == p.last().push(s.last()));
            assert(free_of(split(s, sep).last(), x));
            assert forall|k: int| 0 <= k < p.len() implies free_of(#[trigger] p[k], x) by {
                if k < p.len() - 1 {
                    assert(split(s, sep)[k] == p[k]);
                } else {
                    assert forall|i: int| 0 <= i < p[k].len() implies #[trigger] p[k][i] != x by {
                        assert(split(s, sep)[k][i] == p[k][i]);
                    }
                }
            }
            assert(split(s, sep)[split(s, sep).len() - 1][p.last().len() as int] == s.last());
        } else {
            assert forall|k: int| 0 <= k < p.len() implies free_of(#[trigger] p[k], x) by {
                assert(split(s, sep)[k] == p[k]);
            }
        }
        lemma_pieces_free(s.drop_last(), sep, x);
        assert forall|i: int| 0 <= i < s.len() implies #[trigger] s[i] != x by {
            if i < s.len() - 1 {
                assert(s.drop_last()[i] == s[i]);
            }
        }
    }
}

proof fn lemma_digits_free(s: Seq<u8>, x: u8)
    requires
        all_digits(s),
        !is_digit(x),
    ensures
        free_of(s, x),
{
    assert forall|i: int| 0 <= i < s.len() implies #[trigger] s[i] != x by {
        assert(is_digit(s[i]));
    }
}

/// A well-formed record `a|b|c` reads as the note at (a - 1, b - 1) hit at
/// time c; malformed records are refused by `parse_record` as
/// `MalformedField`.
pub proof fn lemma_record_round_trip(a: Seq<u8>, b: Seq<u8>, c: Seq<u8>)
    requires
        decimal_field(a) is Some,
        decimal_field(b) is Some,
        int_field(c) is Some,
    ensures
        record_note(a + seq![124u8] + b + seq![124u8] + c) == Some(
            Note {
                x: (decimal_field(a)->0 - COORD_SCALE) as i128,
                y: (decimal_field(b)->0 - COORD_SCALE) as i128,
                hit_ms: int_field(c)->0 as i128,
            },
        ),
{
    assert forall|s: Seq<u8>| decimal_field(s) is Some implies free_of(s, 124) by {
        lemma_split_len(s, 46);
        assert forall|k: int| 0 <= k < split(s, 46).len() implies free_of(
            #[trigger] split(s, 46)[k],
            124,
        ) by {
            lemma_digits_free(split(s, 46)[k], 124);
        }
        lemma_pieces_free(s, 46, 124);
    }
    lemma_digits_free(c, 124);
    lemma_split_free(a, 124);
    lemma_split_free(b, 124);
    lemma_split_free(c, 124);
    lemma_split_concat(a, b, 124);
    lemma_split_concat(a + seq![124u8] + b, c, 124);
    assert(split(a + seq![124u8] + b + seq![124u8] + c, 124) =~= seq![a, b, c]);
}

/// The text of a note file: header `h`, then each record after a comma.
pub open spec fn joined(h: Seq<u8>, rs: Seq<Seq<u8>>) -> Seq<u8>
    decreases rs.len(),
{
    if rs.len() == 0 {
        h
    } else {
        joined(h, rs.drop_last()) + seq![44u8] + rs.last()
    }
}

/// The record `a|b|c`.
pub open spec fn record_text(a: Seq<u8>, b: Seq<u8>, c: Seq<u8>) -> Seq<u8> {
    a + seq![124u8] + b + seq![124u8] + c
}

/// The note that the well-formed record `a|b|c` stands for.
pub open spec fn record_value(a: Seq<u8>, b: Seq<u8>, c: Seq<u8>) -> Note {
    Note {
        x: (decimal_field(a)->0 - COORD_SCALE) as i128,
        y: (decimal_field(b)->0 - COORD_SCALE) as i128,
        hit_ms: int_field(c)->0 as i128,
    }
}

proof fn lemma_decimal_free(s: Seq<u8>, x: u8)
    requires
        decimal_field(s) is Some,
        !is_digit(x),
        x != 46,
    ensures
        free_of(s, x),
{
    lemma_split_len(s, 46);
    assert forall|k: int| 0 <= k < split(s, 46).len() implies free_of(
        #[trigger] split(s, 46)[k],
        x,
    ) by {
        lemma_digits_free(split(s, 46)[k], x);
    }
    lemma_pieces_free(s, 46, x);
}

proof fn lemma_record_free(r: Seq<u8>, x: u8)
    requires
        record_note(r) is Some,
        !is_digit(x),
        x != 46,
        x != 124,
    ensures
        free_of(r, x),
{
    let p = split(r, 124);
    lemma_decimal_free(p[0], x);
    lemma_decimal_free(p[1], x);
    lemma_digits_free(p[2], x);
    assert forall|k: int| 0 <= k < p.len() implies free_of(#[trigger] p[k], x) by {}
    lemma_pieces_free(r, 124, x);
}

proof fn lemma_split_joined(h: Seq<u8>, rs: Seq<Seq<u8>>)
    requires
        free_of(h, 44),
        forall|i: int| 0 <= i < rs.len() ==> free_of(#[trigger] rs[i], 44),
    ensures
        split(joined(h, rs), 44) == seq![h] + rs,
    decreases rs.len(),
{
    if rs.len() == 0 {
        lemma_split_free(h, 44);
        assert(seq![h] + rs =~= seq![h]);
    } else {
        lemma_split_joined(h, rs.drop_last());
        lemma_split_concat(joined(h, rs.drop_last()), rs.last(), 44);
        lemma_split_free(rs.last(), 44);
        assert(seq![h] + rs.drop_last() + seq![rs.last()] =~= seq![h] + rs);
    }
}

proof fn lemma_records_all(rs: Seq<Seq<u8>>, ns: Seq<Note>)
    requires
        rs.len() == ns.len(),
        forall|i: int| 0 <= i < rs.len() ==> record_note(#[trigger] rs[i]) == Some(ns[i]),
    ensures
        records_notes(rs) == Some(ns),
    decreases rs.len(),
{
    if rs.len() > 0 {
        lemma_records_all(rs.drop_last(), ns.drop_last());
        assert(ns.drop_last().push(ns.last()) == ns);
    } else {
        assert(ns =~= Seq::<Note>::empty());
    }
}

/// A note file made of a header without commas and well-formed records
/// `a[i]|b[i]|c[i]` loads as the notes at (a[i] - 1, b[i] - 1) hit at
/// c[i], in file order.
pub proof fn lemma_load_round_trip(
    h: Seq<u8>,
    a: Seq<Seq<u8>>,
    b: Seq<Seq<u8>>,
    c: Seq<Seq<u8>>,
)
    requires
        free_of(h, 44),
        a.len() == b.len() == c.len(),
        forall|i: int| 0 <= i < a.len() ==> decimal_field(#[trigger] a[i]) is Some,
        forall|i: int| 0 <= i < b.len() ==> decimal_field(#[trigger] b[i]) is Some,
        forall|i: int| 0 <= i < c.len() ==> int_field(#[trigger] c[i]) is Some,
        valid_utf8(joined(h, Seq::new(a.len(), |i: int| record_text(a[i], b[i], c[i])))),
    ensures
        load_result(joined(h, Seq::new(a.len(), |i: int| record_text(a[i], b[i], c[i])))) == Ok::<
            Seq<Note>,
            V1NoteDataLoaderError,
        >(Seq::new(a.len(), |i: int| record_value(a[i], b[i], c[i]))),
{
    let rs = Seq::new(a.len(), |i: int| record_text(a[i], b[i], c[i]));
    let ns = Seq::new(a.len(), |i: int| record_value(a[i], b[i], c[i]));
    assert forall|i: int| 0 <= i < rs.len() implies record_note(#[trigger] rs[i]) == Some(ns[i])
        && free_of(rs[i], 44) by {
        lemma_record_round_trip(a[i], b[i], c[i]);
        lemma_record_free(rs[i], 44);
    }
    lemma_split_joined(h, rs);
    assert((seq![h] + rs).drop_first() =~= rs);
    lemma_records_all(rs, ns);
}

} // verus!
