use advent::sections::{SectionRange, contains_fully_contained_range, contains_intersection};

#[test]
fn section_range_is_fully_contained_in_works() {
    let range1 = SectionRange { start_id: 1, end_id: 2 };
    let range2 = SectionRange { start_id: 1, end_id: 4 };

    let res = range1.is_fully_contained_in(&range2);

    assert_eq!(res, true);

    let res = range2.is_fully_contained_in(&range1);

    assert_eq!(res, false);
}

#[test]
fn section_range_from_str_works() {
    let range = SectionRange::parse("5-6").unwrap();

    assert_eq!(range.start_id, 5);
    assert_eq!(range.end_id, 6);
}

#[test]
fn section_range_rejects_malformed_text() {
    assert_eq!(SectionRange::parse("56"), None);
    assert_eq!(SectionRange::parse("6-5"), None);
    assert_eq!(SectionRange::parse("5-"), None);
    assert_eq!(SectionRange::parse("a-6"), None);
    assert_eq!(SectionRange::parse(""), None);
    assert_eq!(SectionRange::parse("99999999999999999999999-5"), None);
}

#[test]
fn contains_fully_contained_range_works() {
    let res = contains_fully_contained_range("6-6,4-8");
    assert_eq!(res, true);

    let res = contains_fully_contained_range("6-6,4-5");
    assert_eq!(res, false);
}

#[test]
fn intersect_with_works() {
    let range1 = SectionRange { start_id: 1, end_id: 2 };
    let range2 = SectionRange { start_id: 1, end_id: 4 };
    let range3 = SectionRange { start_id: 4, end_id: 100 };
    let range4 = SectionRange { start_id: 2, end_id: 8 };
    let range5 = SectionRange { start_id: 3, end_id: 7 };

    assert_eq!(range1.intersect_with(&range2), true);
    assert_eq!(range1.intersect_with(&range3), false);
    assert_eq!(range4.intersect_with(&range5), true);
}

#[test]
fn contains_intersection_works() {
    assert_eq!(contains_intersection("5-7,7-9"), true);
    assert_eq!(contains_intersection("2-8,3-7"), true);
}

#[test]
fn counts_add_up() {
    let lines = vec![
        "2-4,6-8".to_string(),
        "2-3,4-5".to_string(),
        "5-7,7-9".to_string(),
        "2-8,3-7".to_string(),
        "6-6,4-6".to_string(),
        "2-6,4-8".to_string(),
    ];
    assert_eq!(advent::sections::count_fully_contained(&lines), 2);
    assert_eq!(advent::sections::count_intersections(&lines), 4);
}
