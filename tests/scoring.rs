use rhythm_core::hud::{
    build_left_panel_text, build_play_grade_text, build_right_panel_text, calc_accuracy,
    calc_play_grade, calc_play_grade_from_counts, calc_score, calc_score_from_counts, decimal_text, get_accuracy_color, get_play_grade_color, PlayGrade,
};

#[test]
fn accuracy_is_full_without_misses() {
    assert_eq!(calc_accuracy(0, 0), 10_000);
    assert_eq!(calc_accuracy(42, 0), 10_000);
}

#[test]
fn accuracy_is_the_hit_share() {
    assert_eq!(calc_accuracy(7, 3), 7_000);
    assert_eq!(calc_accuracy(2, 1), 6_666);
    assert_eq!(calc_accuracy(0, 5), 0);
}

#[test]
fn grade_boundaries() {
    assert_eq!(calc_play_grade(10_000), PlayGrade::SS);
    assert_eq!(calc_play_grade(9_360), PlayGrade::A);
    assert_eq!(calc_play_grade(9_350), PlayGrade::B);
    assert_eq!(calc_play_grade(8_760), PlayGrade::B);
    assert_eq!(calc_play_grade(8_750), PlayGrade::C);
    assert_eq!(calc_play_grade(7_860), PlayGrade::C);
    assert_eq!(calc_play_grade(7_850), PlayGrade::D);
    assert_eq!(calc_play_grade(0), PlayGrade::D);
}

#[test]
fn score_formula() {
    assert_eq!(calc_score(10, 10, 10_000), 500);
    assert_eq!(calc_score(10, 10, 0), 400);
    assert_eq!(calc_score(7, 5, 7_000), 164);
    assert_eq!(calc_score(0, 0, 10_000), 0);
}

#[test]
fn decimal_text_writes_digits() {
    assert_eq!(decimal_text(0), "0");
    assert_eq!(decimal_text(907), "907");
    assert_eq!(decimal_text(u64::MAX), "18446744073709551615");
}

#[test]
fn right_panel_groups_the_score() {
    let t = build_right_panel_text(1_234_567, 3, 7, 10);
    assert_eq!(t.score, "1,234,567");
    assert_eq!(t.misses, "3");
    assert_eq!(t.notes, "7/10");
    assert_eq!(build_right_panel_text(500, 0, 0, 0).score, "500");
    assert_eq!(build_right_panel_text(0, 0, 0, 0).score, "0");
    assert_eq!(build_right_panel_text(1_000, 0, 0, 0).score, "1,000");
    assert_eq!(build_right_panel_text(1_000_005, 0, 0, 0).score, "1,000,005");
}

#[test]
fn left_panel_shows_combo_and_accuracy() {
    let t = build_left_panel_text(12, 7_000);
    assert_eq!(t.combo, "12");
    assert_eq!(t.accuracy, "70.0%");
    assert_eq!(t.accuracy_color, 0xc41d31);
    assert_eq!(build_left_panel_text(0, 10_000).accuracy, "100.0%");
    assert_eq!(build_left_panel_text(0, 9_366).accuracy, "93.7%");
}

#[test]
fn grade_text_and_colours() {
    let t = build_play_grade_text(PlayGrade::SS);
    assert_eq!(t.grade, "SS");
    assert_eq!(t.color, 0xe329d7);
    assert_eq!(get_play_grade_color(PlayGrade::C), 0xd48806);
    assert_eq!(get_accuracy_color(PlayGrade::C), 0xffd500);
}

#[test]
fn grade_from_counts_uses_exact_accuracy() {
    assert_eq!(calc_play_grade_from_counts(18_701, 1_299), PlayGrade::A);
    assert_eq!(calc_play_grade_from_counts(187, 13), PlayGrade::B);
    assert_eq!(calc_play_grade_from_counts(5, 0), PlayGrade::SS);
    assert_eq!(calc_play_grade_from_counts(0, 0), PlayGrade::SS);
    assert_eq!(calc_play_grade_from_counts(7, 3), PlayGrade::D);
    assert_eq!(calc_play_grade_from_counts(4, 1), PlayGrade::C);
}

#[test]
fn score_from_counts_uses_exact_accuracy() {
    assert_eq!(calc_score_from_counts(10, 10, 0), Some(500));
    assert_eq!(calc_score_from_counts(1_000, 1_000, 2_000), Some(4_333_333));
    assert_eq!(calc_score_from_counts(0, 0, 0), Some(0));
    assert_eq!(calc_score_from_counts(u64::MAX, u64::MAX, 0), None);
}
