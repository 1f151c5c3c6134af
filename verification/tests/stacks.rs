use advent::supply::{Move, parse_input, top_crates};

fn example_lines() -> Vec<String> {
    vec![
        "    [D]    ".to_string(),
        "[N] [C]    ".to_string(),
        "[Z] [M] [P]".to_string(),
        " 1   2   3 ".to_string(),
        "".to_string(),
        "move 1 from 2 to 1".to_string(),
        "move 3 from 1 to 3".to_string(),
        "move 2 from 2 to 1".to_string(),
        "move 1 from 1 to 2".to_string(),
    ]
}

#[test]
fn move_from_str_works() {
    const INPUT_STR: &str = "move 12323 from 1123 to 13239\n";

    let result: Move = Move::parse(INPUT_STR).unwrap();

    assert_eq!(result.number_of_crates, 12323);
    assert_eq!(result.origin, 1123);
    assert_eq!(result.target, 13239);
}

#[test]
fn move_parse_rejects_plain_text() {
    assert_eq!(Move::parse(""), None);
    assert_eq!(Move::parse(" 1   2   3 "), None);
    assert_eq!(Move::parse("move x from 1 to 2"), None);
}

#[test]
fn move_parse_finds_the_leftmost_order() {
    let m = Move::parse("xx move 3 from 1 to 2 yy").unwrap();
    assert_eq!(m.number_of_crates, 3);
    assert_eq!(m.origin, 1);
    assert_eq!(m.target, 2);
}

#[test]
fn parse_input_works() {
    let lines = example_lines();

    let (stacks, moves) = parse_input(&lines);

    assert_eq!(stacks[0], vec!['Z', 'N']);
    assert_eq!(stacks[1], vec!['M', 'C', 'D']);

    assert_eq!(moves[0].number_of_crates, 1);
    assert_eq!(moves[0].origin, 2);
    assert_eq!(moves[0].target, 1);
    assert_eq!(moves.len(), 4);
}

#[test]
fn do_move_works() {
    let lines = example_lines();

    let (mut stacks, moves) = parse_input(&lines);

    moves[0].apply(&mut stacks);

    assert_eq!(stacks[0], vec!['Z', 'N', 'D']);
    assert_eq!(stacks[1], vec!['M', 'C']);
}

#[test]
fn do_move_9001_works() {
    let lines = example_lines();

    let (mut stacks, moves) = parse_input(&lines);

    moves[0].apply_mover9001(&mut stacks);
    moves[1].apply_mover9001(&mut stacks);

    assert_eq!(stacks[2], vec!['P', 'Z', 'N', 'D']);
}

#[test]
fn do_example_2_works() {
    let lines = example_lines();

    let (mut stacks, moves) = parse_input(&lines);

    for amove in moves {
        amove.apply_mover9001(&mut stacks);

        println!("{:?}", stacks);
    }

    let res: String = top_crates(&stacks).into_iter().collect();

    println!("{}", res);
    assert_eq!(res, "MCD");
}

#[test]
fn do_example_works() {
    let lines = example_lines();

    let (mut stacks, moves) = parse_input(&lines);

    advent::supply::apply_all(&mut stacks, &moves);

    let res: String = top_crates(&stacks).into_iter().collect();
    assert_eq!(res, "CMZ");
}

#[test]
fn apply_all_mover9001_matches_stepwise_application() {
    let lines = example_lines();
    let (mut stacks, moves) = parse_input(&lines);
    let (mut stacks2, _) = parse_input(&lines);

    advent::supply::apply_all_mover9001(&mut stacks, &moves);
    for m in &moves {
        m.apply_mover9001(&mut stacks2);
    }

    assert_eq!(stacks, stacks2);
}
