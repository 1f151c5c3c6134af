use advent::rucksack::{find_wrong_packed_item, find_common_item, get_item_priority};

#[test]
fn find_wrong_packed_item_works() {
    const INPUT_STR: &str = "vJrwpWtwJgWrhcsFMMfFFhFp";
    let result = find_wrong_packed_item(INPUT_STR);
    assert_eq!(result, 'p');

    const INPUT_STR2: &str = "jqHRNqRjqzjGDLGLrsFMfFZSrLrFZsSL";
    let result = find_wrong_packed_item(INPUT_STR2);
    assert_eq!(result, 'L');
}

#[test]
fn get_item_priority_works() {
    let result = get_item_priority('b');
    assert_eq!(result, 2);

    let result = get_item_priority('B');
    assert_eq!(result, 28);

    let result = get_item_priority('Z');
    assert_eq!(result, 52);
}

#[test]
fn find_common_item_works() {
    const INPUT_GROUP: [&str; 3] = [
        "vJrwpWtwJgWrhcsFMMfFFhFp",
        "jqHRNqRjqzjGDLGLrsFMfFZSrLrFZsSL",
        "PmmdzqPrVvPwwTWBwg",
    ];

    let result = find_common_item(&INPUT_GROUP);
    assert_eq!(result, 'r');
}

#[test]
fn total_priorities_add_up() {
    let lines = vec![
        "vJrwpWtwJgWrhcsFMMfFFhFp".to_string(),
        "jqHRNqRjqzjGDLGLrsFMfFZSrLrFZsSL".to_string(),
        "PmmdzqPrVvPwwTWBwg".to_string(),
        "wMqvLMZHhHMvwLHjbvcjnnSBnvTQFn".to_string(),
        "ttgJtRGJQctTZtZT".to_string(),
        "CrZsJsPPZsGzwwsLwLmpwMDw".to_string(),
    ];
    assert_eq!(advent::rucksack::total_priority(&lines), 157);
    assert_eq!(advent::rucksack::total_badge_priority(&lines), 70);
}
