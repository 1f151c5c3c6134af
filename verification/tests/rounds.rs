use advent::rps::{Shape, Outcome, does_first_shape_win, calculate_score, calculate_score2};

#[test]
fn shape_from_char_works() {
    let result = Shape::from_char('A').unwrap();
    assert_eq!(result, Shape::Rock);

    let result = Shape::from_char('B').unwrap();
    assert_eq!(result, Shape::Paper);
}

#[test]
fn outcome_from_char_works() {
    assert_eq!(Outcome::from_char('X').unwrap(), Outcome::Loss);
}

#[test]
fn does_first_shape_win_work() {
    assert_eq!(does_first_shape_win(&Shape::Rock, &Shape::Paper), Outcome::Loss);
    assert_eq!(does_first_shape_win(&Shape::Scissors, &Shape::Paper), Outcome::Win);
    assert_eq!(does_first_shape_win(&Shape::Rock, &Shape::Rock), Outcome::Draw);
}

#[test]
fn shape_into_works() {
    let result: u32 = Shape::Rock.value();
    assert_eq!(result, 1);
}

#[test]
fn outcome_into_works() {
    let result: u32 = Outcome::Win.value();
    assert_eq!(result, 6);
}

#[test]
fn calculate_score_works() {
    let result = calculate_score("A Y");
    assert_eq!(result, 8);

    let result = calculate_score("B X");
    assert_eq!(result, 1);
}

#[test]
fn calculate_score2_works() {
    let result = calculate_score2("A Y");
    assert_eq!(result, 4);

    let result = calculate_score2("B X");
    assert_eq!(result, 1);
}

#[test]
fn total_scores_add_up() {
    let lines = vec!["A Y".to_string(), "B X".to_string(), "C Z".to_string()];
    assert_eq!(advent::rps::total_score(&lines), 8 + 1 + 6);
    assert_eq!(advent::rps::total_score2(&lines), 4 + 1 + 7);
}
