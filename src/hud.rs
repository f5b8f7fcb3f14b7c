use vstd::prelude::*;
use num_format::{Locale, ToFormattedString};

verus! {

/// Accuracy is given in hundredths of a percent: this is 100%.
pub const FULL_ACCURACY: u64 = 10_000;

/// Letter grade of a play.
#[derive(Clone, Copy, Debug, PartialEq, Eq, Structural)]
pub enum PlayGrade {
    SS,
    A,
    B,
    C,
    D,
}

/// Accuracy in hundredths of a percent, rounded down: full when nothing was
/// missed, else the share of hits among judged notes.
pub open spec fn accuracy_of(hits: nat, misses: nat) -> nat {
    if misses == 0 {
        FULL_ACCURACY as nat
    } else {
        FULL_ACCURACY as nat * hits / (hits + misses)
    }
}

/// Grade of an accuracy given in hundredths of a percent.
pub open spec fn grade_of(accuracy: nat) -> PlayGrade {
    if accuracy == FULL_ACCURACY {
        PlayGrade::SS
    } else if accuracy > 9350 {
        PlayGrade::A
    } else if accuracy > 8750 {
        PlayGrade::B
    } else if accuracy > 7850 {
        PlayGrade::C
    } else {
        PlayGrade::D
    }
}

/// `floor(hits * 5 * max_combo * (0.8 + accuracy% / 500))`, with the
/// accuracy in hundredths of a percent.
pub open spec fn score_of(hits: nat, max_combo: nat, accuracy: nat) -> nat {
    hits * max_combo * (40_000 + accuracy) / 10_000
}

/// Accuracy in hundredths of a percent: full when nothing was missed, else
/// hits over judged notes, rounded down.
pub fn calc_accuracy(hits: u64, misses: u64) -> (r: u64)
    ensures
        r == accuracy_of(hits as nat, misses as nat),
        r <= FULL_ACCURACY,
{
    if misses == 0 {
        return FULL_ACCURACY;
    }
    let h = hits as u128;
    let m = misses as u128;
    let a = 10_000 * h / (h + m);
    assert(10_000 * h / (h + m) <= 10_000) by (nonlinear_arith)
        requires
            m > 0,
    ;
    a as u64
}

/// The grade for an accuracy in hundredths of a percent: SS at exactly
/// 100%, then A above 93.5%, B above 87.5%, C above 78.5%, else D.
pub fn calc_play_grade(accuracy: u64) -> (g: PlayGrade)
    ensures
        g == grade_of(accuracy as nat),
{
    if accuracy == FULL_ACCURACY {
        PlayGrade::SS
    } else if accuracy > 9350 {
        PlayGrade::A
    } else if accuracy > 8750 {
        PlayGrade::B
    } else if accuracy > 7850 {
        PlayGrade::C
    } else {
        PlayGrade::D
    }
}

/// The score: hit count times best combo times five, scaled by 0.8 at 0%
/// accuracy up to 1.0 at 100%, rounded down.
pub fn calc_score(hits: u64, max_combo: u64, accuracy: u64) -> (r: u128)
    requires
        hits * max_combo * (40_000 + accuracy) <= u128::MAX,
    ensures
        r == score_of(hits as nat, max_combo as nat, accuracy as nat),
{
    let h = hits as u128;
    let m = max_combo as u128;
    let a = 40_000 + accuracy as u128;
    assert(h * m <= h * m * a) by (nonlinear_arith)
        requires
            a >= 1,
    ;
    h * m * a / 10_000
}

/// Grade of a play with `hits` and `misses`, from the exact accuracy
/// `100 * hits / (hits + misses)`: SS without misses, then A above 93.5%,
/// B above 87.5%, C above 78.5%, else D.
pub open spec fn grade_of_counts(hits: nat, misses: nat) -> PlayGrade {
    let t = hits + misses;
    if misses == 0 {
        PlayGrade::SS
    } else if 1000 * hits > 935 * t {
        PlayGrade::A
    } else if 1000 * hits > 875 * t {
        PlayGrade::B
    } else if 1000 * hits > 785 * t {
        PlayGrade::C
    } else {
        PlayGrade::D
    }
}

/// `floor(hits * 5 * max_combo * (0.8 + accuracy / 500))` with the exact
/// accuracy `100 * hits / (hits + misses)` (100 when nothing was judged):
/// `hits * max_combo * (5 * hits + 4 * misses) / (hits + misses)`.
pub open spec fn score_of_counts(hits: nat, max_combo: nat, misses: nat) -> nat {
    if hits + misses == 0 {
        0
    } else {
        hits * max_combo * (5 * hits + 4 * misses) / (hits + misses)
    }
}

/// The grade for a play with `hits` and `misses`, from the exact accuracy.
pub fn calc_play_grade_from_counts(hits: u64, misses: u64) -> (g: PlayGrade)
    ensures
        g == grade_of_counts(hits as nat, misses as nat),
{
    let h = hits as u128;
    let t = hits as u128 + misses as u128;
    if misses == 0 {
        PlayGrade::SS
    } else if 1000 * h > 935 * t {
        PlayGrade::A
    } else if 1000 * h > 875 * t {
        PlayGrade::B
    } else if 1000 * h > 785 * t {
        PlayGrade::C
    } else {
        PlayGrade::D
    }
}

/// The score of a play from its counts and the exact accuracy, or `None`
/// where `hits * max_combo * (5 * hits + 4 * misses)` does not fit in a
/// `u128`.
pub fn calc_score_from_counts(hits: u64, max_combo: u64, misses: u64) -> (r: Option<u128>)
    ensures
        hits * max_combo * (5 * hits + 4 * misses) <= u128::MAX ==> r == Some(
            score_of_counts(hits as nat, max_combo as nat, misses as nat) as u128,
        ),
        hits * max_combo * (5 * hits + 4 * misses) > u128::MAX ==> r is None,
{
    let h = hits as u128;
    let m = max_combo as u128;
    let f = 5 * h + 4 * (misses as u128);
    let t = h + misses as u128;
    assert(h * m <= u128::MAX) by (nonlinear_arith)
        requires
            h <= u64::MAX,
            m <= u64::MAX,
    ;
    let hm = h * m;
    if f > 0 && hm > u128::MAX / f {
        assert(hm * f > u128::MAX) by (nonlinear_arith)
            requires
                hm > u128::MAX / f,
                f > 0,
        ;
        return None;
    }
    if t == 0 {
        return Some(0);
    }
    assert(hm * f <= u128::MAX) by (nonlinear_arith)
        requires
            f == 0 || hm <= u128::MAX / f,
    ;
    Some(hm * f / t)
}

/// Relies on num-format's `ToFormattedString::to_formatted_string` with
/// `Locale::en`: the digits of `n` grouped by threes with commas.
#[verifier::external_body]
fn format_grouped(n: u128) -> (r: String)
    ensures
        r@ == grouped_chars(n as nat),
{
    n.to_formatted_string(&Locale::en)
}

pub open spec fn digit_char(d: nat) -> char {
    if d == 0 {
        '0'
    } else if d == 1 {
        '1'
    } else if d == 2 {
        '2'
    } else if d == 3 {
        '3'
    } else if d == 4 {
        '4'
    } else if d == 5 {
        '5'
    } else if d == 6 {
        '6'
    } else if d == 7 {
        '7'
    } else if d == 8 {
        '8'
    } else {
        '9'
    }
}

/// Decimal digits of `n`, without leading zeros.
pub open spec fn decimal_chars(n: nat) -> Seq<char>
    decreases n,
{
    if n < 10 {
        seq![digit_char(n)]
    } else {
        decimal_chars(n / 10).push(digit_char(n % 10))
    }
}

/// Three decimal digits of `r`, with leading zeros.
pub open spec fn three_digits(r: nat) -> Seq<char> {
    seq![digit_char(r / 100), digit_char((r / 10) % 10), digit_char(r % 10)]
}

/// Decimal digits of `n` grouped by threes with commas, as in `1,234,567`.
pub open spec fn grouped_chars(n: nat) -> Seq<char>
    decreases n,
{
    if n < 1000 {
        decimal_chars(n)
    } else {
        grouped_chars(n / 1000) + seq![','] + three_digits(n % 1000)
    }
}

fn digit_str(d: u64) -> (r: &'static str)
    requires
        d < 10,
    ensures
        r@ == seq![digit_char(d as nat)],
{
    proof {
        reveal_strlit("0");
        reveal_strlit("1");
        reveal_strlit("2");
        reveal_strlit("3");
        reveal_strlit("4");
        reveal_strlit("5");
        reveal_strlit("6");
        reveal_strlit("7");
        reveal_strlit("8");
        reveal_strlit("9");
    }
    match d {
        0 => "0",
        1 => "1",
        2 => "2",
        3 => "3",
        4 => "4",
        5 => "5",
        6 => "6",
        7 => "7",
        8 => "8",
        _ => "9",
    }
}

/// `n` written in decimal.
pub fn decimal_text(n: u64) -> (r: String)
    ensures
        r@ == decimal_chars(n as nat),
    decreases n,
{
    if n < 10 {
        String::from_str(digit_str(n))
    } else {
        let mut s = decimal_text(n / 10);
        s.append(digit_str(n % 10));
        s
    }
}

/// Accuracy text: the percentage rounded to one decimal, then `%`.
pub open spec fn accuracy_chars(accuracy: nat) -> Seq<char> {
    let tenths = (accuracy + 5) / 10;
    decimal_chars(tenths / 10) + seq!['.', digit_char(tenths % 10), '%']
}

/// Colour of a grade, as `0xRRGGBB`.
pub open spec fn grade_color(g: PlayGrade) -> u32 {
    match g {
        PlayGrade::SS => 0xe329d7,
        PlayGrade::A => 0x03ff2d,
        PlayGrade::B => 0xffd500,
        PlayGrade::C => 0xd48806,
        PlayGrade::D => 0xc41d31,
    }
}

/// Colour of the accuracy figure for a grade, as `0xRRGGBB`.
pub open spec fn accuracy_color(g: PlayGrade) -> u32 {
    match g {
        PlayGrade::C => 0xffd500,
        _ => grade_color(g),
    }
}

/// Colour a grade is shown in, as `0xRRGGBB`.
pub fn get_play_grade_color(grade: PlayGrade) -> (r: u32)
    ensures
        r == grade_color(grade),
{
    match grade {
        PlayGrade::SS => 0xe329d7,
        PlayGrade::A => 0x03ff2d,
        PlayGrade::B => 0xffd500,
        PlayGrade::C => 0xd48806,
        PlayGrade::D => 0xc41d31,
    }
}

/// Colour the accuracy figure is shown in for a grade, as `0xRRGGBB`.
pub fn get_accuracy_color(grade: PlayGrade) -> (r: u32)
    ensures
        r == accuracy_color(grade),
{
    match grade {
        PlayGrade::C => 0xffd500,
        _ => get_play_grade_color(grade),
    }
}

impl PlayGrade {
    /// The grade's letters.
    pub fn label(&self) -> (r: &'static str)
        ensures
            r@ == match *self {
                PlayGrade::SS => "SS"@,
                PlayGrade::A => "A"@,
                PlayGrade::B => "B"@,
                PlayGrade::C => "C"@,
                PlayGrade::D => "D"@,
            },
    {
        match self {
            PlayGrade::SS => "SS",
            PlayGrade::A => "A",
            PlayGrade::B => "B",
            PlayGrade::C => "C",
            PlayGrade::D => "D",
        }
    }
}

/// The left panel: combo and accuracy.
#[derive(Clone, Debug, PartialEq, Eq)]
pub struct LeftPanelText {
    pub combo: String,
    pub accuracy: String,
    pub accuracy_color: u32,
}

/// The right panel: score, misses and notes hit out of the map's notes.
#[derive(Clone, Debug, PartialEq, Eq)]
pub struct RightPanelText {
    pub score: String,
    pub misses: String,
    pub notes: String,
}

/// The grade shown beside the left panel.
#[derive(Clone, Debug, PartialEq, Eq)]
pub struct LeftPlayGradeText {
    pub grade: String,
    pub color: u32,
}

/// The left panel for a combo and an accuracy in hundredths of a percent.
pub fn build_left_panel_text(combo: u64, accuracy: u64) -> (t: LeftPanelText)
    requires
        accuracy <= FULL_ACCURACY,
    ensures
        t.combo@ == decimal_chars(combo as nat),
        t.accuracy@ == accuracy_chars(accuracy as nat),
        t.accuracy_color == accuracy_color(grade_of(accuracy as nat)),
{
    let tenths = (accuracy + 5) / 10;
    let mut acc = decimal_text(tenths / 10);
    proof {
        reveal_strlit(".");
        reveal_strlit("%");
    }
    acc.append(".");
    acc.append(digit_str(tenths % 10));
    acc.append("%");
    assert(acc@ =~= accuracy_chars(accuracy as nat));
    LeftPanelText {
        combo: decimal_text(combo),
        accuracy: acc,
        accuracy_color: get_accuracy_color(calc_play_grade(accuracy)),
    }
}

/// The right panel: the score grouped by thousands, the misses, and the
/// hits out of all notes as `hits/max_hits`.
pub fn build_right_panel_text(score: u128, misses: u64, hits: u64, max_hits: u64) -> (t: RightPanelText)
    ensures
        t.score@ == grouped_chars(score as nat),
        t.misses@ == decimal_chars(misses as nat),
        t.notes@ == decimal_chars(hits as nat) + seq!['/'] + decimal_chars(max_hits as nat),
{
    let mut notes = decimal_text(hits);
    proof {
        reveal_strlit("/");
    }
    notes.append("/");
    let max = decimal_text(max_hits);
    notes.append(max.as_str());
    RightPanelText { score: format_grouped(score), misses: decimal_text(misses), notes }
}

/// The grade text and its colour.
pub fn build_play_grade_text(grade: PlayGrade) -> (t: LeftPlayGradeText)
    ensures
        t.grade@ == match grade {
            PlayGrade::SS => "SS"@,
            PlayGrade::A => "A"@,
            PlayGrade::B => "B"@,
            PlayGrade::C => "C"@,
            PlayGrade::D => "D"@,
        },
        t.color == grade_color(grade),
{
    LeftPlayGradeText { grade: String::from_str(grade.label()), color: get_play_grade_color(grade) }
}

} // verus!
