use advent_solutions::interval::{is_valid_range, is_valid_rule, split_ranges};

fn length(piece: Option<(u64, u64)>) -> u64 {
    match piece {
        Some((_, n)) => n,
        None => 0,
    }
}

#[test]
fn no_overlap_on_either_side() {
    assert_eq!(split_ranges((1, 4), ((100, 10), 5)), (None, Some((1, 4)), None));
    assert_eq!(split_ranges((15, 4), ((100, 10), 5)), (None, Some((15, 4)), None));
    assert_eq!(split_ranges((6, 4), ((100, 10), 5)), (None, Some((6, 4)), None));
}

#[test]
fn starts_before_and_ends_inside() {
    assert_eq!(split_ranges((8, 4), ((100, 10), 5)), (Some((100, 2)), Some((8, 2)), None));
}

#[test]
fn starts_before_and_ends_after() {
    assert_eq!(
        split_ranges((8, 10), ((100, 10), 5)),
        (Some((100, 5)), Some((8, 2)), Some((15, 3)))
    );
}

#[test]
fn starts_before_and_ends_at_the_end() {
    assert_eq!(split_ranges((8, 7), ((100, 10), 5)), (Some((100, 5)), Some((8, 2)), None));
}

#[test]
fn starts_inside_and_ends_inside() {
    assert_eq!(split_ranges((11, 2), ((100, 10), 5)), (Some((101, 2)), None, None));
}

#[test]
fn starts_inside_and_ends_after() {
    assert_eq!(split_ranges((12, 6), ((100, 10), 5)), (Some((102, 3)), Some((15, 3)), None));
}

#[test]
fn starts_inside_and_ends_at_the_end() {
    assert_eq!(split_ranges((12, 3), ((100, 10), 5)), (Some((102, 3)), None, None));
}

#[test]
fn starts_at_the_start_and_ends_inside() {
    assert_eq!(split_ranges((10, 3), ((100, 10), 5)), (Some((100, 3)), None, None));
}

#[test]
fn starts_at_the_start_and_ends_after() {
    assert_eq!(split_ranges((10, 8), ((100, 10), 5)), (Some((100, 5)), Some((15, 3)), None));
}

#[test]
fn equals_the_window() {
    assert_eq!(split_ranges((10, 5), ((100, 10), 5)), (Some((100, 5)), None, None));
}

#[test]
fn window_of_one_value() {
    let rule = ((70, 5), 1);
    assert_eq!(split_ranges((4, 1), rule), (None, Some((4, 1)), None));
    assert_eq!(split_ranges((6, 1), rule), (None, Some((6, 1)), None));
    assert_eq!(split_ranges((5, 1), rule), (Some((70, 1)), None, None));
    assert_eq!(split_ranges((4, 2), rule), (Some((70, 1)), Some((4, 1)), None));
    assert_eq!(split_ranges((5, 2), rule), (Some((70, 1)), Some((6, 1)), None));
    assert_eq!(split_ranges((4, 3), rule), (Some((70, 1)), Some((4, 1)), Some((6, 1))));
}

#[test]
fn interval_of_one_value() {
    let rule = ((70, 5), 3);
    assert_eq!(split_ranges((4, 1), rule), (None, Some((4, 1)), None));
    assert_eq!(split_ranges((5, 1), rule), (Some((70, 1)), None, None));
    assert_eq!(split_ranges((6, 1), rule), (Some((71, 1)), None, None));
    assert_eq!(split_ranges((7, 1), rule), (Some((72, 1)), None, None));
    assert_eq!(split_ranges((8, 1), rule), (None, Some((8, 1)), None));
}

#[test]
fn lengths_add_up() {
    for start in 0..12u64 {
        for len in 1..8u64 {
            for key in 0..12u64 {
                for window in 1..6u64 {
                    let (mapped, rest, extra) = split_ranges((start, len), ((1000, key), window));
                    assert_eq!(length(mapped) + length(rest) + length(extra), len);
                }
            }
        }
    }
}

#[test]
fn at_the_top_of_the_number_line() {
    let top = u64::MAX;
    assert_eq!(split_ranges((top, 1), ((0, top), 1)), (Some((0, 1)), None, None));
    assert_eq!(
        split_ranges((top - 9, 10), ((top - 4, top - 6), 5)),
        (Some((top - 4, 5)), Some((top - 9, 3)), Some((top - 1, 2)))
    );
    assert_eq!(split_ranges((0, top), ((5, 0), 1)), (Some((5, 1)), Some((1, top - 1)), None));
}

#[test]
fn validity_of_ranges_and_rules() {
    assert!(is_valid_range((0, 1)));
    assert!(is_valid_range((u64::MAX, 1)));
    assert!(is_valid_range((1, u64::MAX)));
    assert!(!is_valid_range((3, 0)));
    assert!(!is_valid_range((2, u64::MAX)));
    assert!(is_valid_rule(((0, 0), 1)));
    assert!(is_valid_rule(((u64::MAX, u64::MAX), 1)));
    assert!(!is_valid_rule(((0, 0), 0)));
    assert!(!is_valid_rule(((u64::MAX, 0), 2)));
    assert!(!is_valid_rule(((0, u64::MAX), 2)));
}
