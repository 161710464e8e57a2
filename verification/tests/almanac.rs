use advent_solutions::almanac::{check_mappings, check_seeds, part_one, part_two_optimized, InputError};
use advent_solutions::pipeline::{
    lowest_location, lowest_start, range_locations, remap_ranges, remap_value, seed_location,
};
use std::collections::VecDeque;

fn stages() -> Vec<Vec<((u64, u64), u64)>> {
    vec![
        vec![((50, 98), 2), ((52, 50), 48)],
        vec![((0, 15), 37), ((37, 52), 2), ((39, 0), 15)],
        vec![((49, 53), 8), ((0, 11), 42), ((42, 0), 7), ((57, 7), 4)],
        vec![((88, 18), 7), ((18, 25), 70)],
        vec![((45, 77), 23), ((81, 45), 19), ((68, 64), 13)],
        vec![((0, 69), 1), ((1, 0), 69)],
        vec![((60, 56), 37), ((56, 93), 4)],
    ]
}

fn sorted(ranges: VecDeque<(u64, u64)>) -> Vec<(u64, u64)> {
    let mut all: Vec<(u64, u64)> = ranges.into_iter().collect();
    all.sort();
    all
}

#[test]
fn lowest_location_of_the_seeds() {
    let input = (vec![79, 14, 55, 13], stages());
    let result = part_one(&input);
    assert_eq!(result, 35);
}

#[test]
fn lowest_location_of_the_seed_ranges() {
    let input = (vec![79, 14, 55, 13], stages());
    let result = part_two_optimized(&input);
    assert_eq!(result, 46);
}

#[test]
fn seeds_through_the_stages() {
    let stages = stages();
    assert_eq!(remap_value(79, &stages[0]), 81);
    assert_eq!(remap_value(14, &stages[0]), 14);
    assert_eq!(remap_value(98, &stages[0]), 50);
    assert_eq!(remap_value(99, &stages[0]), 51);
    assert_eq!(remap_value(100, &stages[0]), 100);
    assert_eq!(seed_location(79, &stages), 82);
    assert_eq!(seed_location(14, &stages), 43);
    assert_eq!(seed_location(55, &stages), 86);
    assert_eq!(seed_location(13, &stages), 35);
    assert_eq!(seed_location(82, &stages), 46);
}

#[test]
fn first_matching_rule_wins() {
    let stage = vec![((100, 0), 10), ((200, 5), 10)];
    assert_eq!(remap_value(7, &stage), 107);
    assert_eq!(remap_value(12, &stage), 207);
}

#[test]
fn no_seeds_at_all() {
    let input = (vec![], stages());
    assert_eq!(part_one(&input), u64::MAX);
    assert_eq!(part_two_optimized(&input), u64::MAX);
}

#[test]
fn no_stages_at_all() {
    let input = (vec![79, 14, 55, 13], vec![]);
    assert_eq!(part_one(&input), 13);
    assert_eq!(part_two_optimized(&input), 55);
}

#[test]
fn one_stage_splits_a_range_in_three() {
    let stage = vec![((100, 10), 5)];
    let out = remap_ranges(VecDeque::from(vec![(8, 10)]), &stage);
    assert_eq!(sorted(out), vec![(8, 2), (15, 3), (100, 5)]);
}

#[test]
fn leftovers_meet_the_other_rules() {
    let stage = vec![((100, 10), 5), ((200, 15), 2), ((300, 0), 9)];
    let out = remap_ranges(VecDeque::from(vec![(8, 10)]), &stage);
    assert_eq!(sorted(out), vec![(9, 1), (17, 1), (100, 5), (200, 2), (308, 1)]);
}

#[test]
fn unmatched_range_passes_through() {
    let stage = vec![((100, 10), 5), ((200, 30), 5)];
    let out = remap_ranges(VecDeque::from(vec![(15, 15), (0, 10), (35, 1)]), &stage);
    assert_eq!(sorted(out), vec![(0, 10), (15, 15), (35, 1)]);
    let out = remap_ranges(VecDeque::from(vec![(3, 4)]), &vec![]);
    assert_eq!(sorted(out), vec![(3, 4)]);
    let out = remap_ranges(VecDeque::new(), &stage);
    assert_eq!(sorted(out), vec![]);
}

#[test]
fn single_value_range_follows_the_seed() {
    let stages = stages();
    for v in 0..120u64 {
        let out = range_locations((v, 1), &stages);
        assert_eq!(sorted(out), vec![(seed_location(v, &stages), 1)]);
        assert_eq!(lowest_location((v, 1), &stages), seed_location(v, &stages));
    }
}

#[test]
fn range_keeps_its_length() {
    let stages = stages();
    for (start, len) in [(79u64, 14u64), (55, 13), (0, 120), (98, 2)] {
        let out = range_locations((start, len), &stages);
        let total: u64 = out.iter().map(|r| r.1).sum();
        assert_eq!(total, len);
    }
}

#[test]
fn lowest_location_is_the_least_over_the_values() {
    let stages = stages();
    for (start, len) in [(79u64, 14u64), (55, 13), (0, 120), (40, 30)] {
        let least = (start..start + len).map(|v| seed_location(v, &stages)).min().unwrap();
        assert_eq!(lowest_location((start, len), &stages), least);
    }
    assert_eq!(lowest_location((79, 14), &stages), 46);
    assert_eq!(lowest_location((55, 13), &stages), 56);
}

#[test]
fn least_start_of_a_list() {
    assert_eq!(lowest_start(&VecDeque::from(vec![(9, 1)])), 9);
    assert_eq!(lowest_start(&VecDeque::from(vec![(9, 1), (3, 7), (5, 2), (3, 1)])), 3);
}

#[test]
fn seed_lists_are_checked() {
    assert_eq!(check_seeds(&vec![79, 14, 55, 13]), Ok(()));
    assert_eq!(check_seeds(&vec![]), Ok(()));
    assert_eq!(check_seeds(&vec![79, 14, 55]), Err(InputError::OddSeedCount));
    assert_eq!(check_seeds(&vec![0]), Err(InputError::OddSeedCount));
    assert_eq!(check_seeds(&vec![79, 14, 55, 0]), Err(InputError::BadRange));
    assert_eq!(check_seeds(&vec![2, u64::MAX]), Err(InputError::BadRange));
    assert_eq!(check_seeds(&vec![1, u64::MAX]), Ok(()));
}

#[test]
fn pipelines_are_checked() {
    assert_eq!(check_mappings(&stages()), Ok(()));
    assert_eq!(check_mappings(&vec![]), Ok(()));
    assert_eq!(check_mappings(&vec![vec![((1, 2), 3)], vec![]]), Err(InputError::EmptyStage));
    assert_eq!(check_mappings(&vec![vec![((1, 2), 0)], vec![]]), Err(InputError::EmptyStage));
    assert_eq!(check_mappings(&vec![vec![((1, 2), 3)], vec![((1, 2), 0)]]), Err(InputError::BadRule));
    assert_eq!(check_mappings(&vec![vec![((u64::MAX, 2), 2)]]), Err(InputError::BadRule));
    assert_eq!(check_mappings(&vec![vec![((2, u64::MAX), 2)]]), Err(InputError::BadRule));
}

#[test]
fn seed_list_is_read_in_pairs() {
    let stage = vec![vec![((1000, 10), 1)]];
    assert_eq!(part_two_optimized(&(vec![50, 3, 10, 1], stage.clone())), 50);
    assert_eq!(part_two_optimized(&(vec![50, 3, 9, 5], stage.clone())), 9);
    assert_eq!(part_two_optimized(&(vec![3, 50, 1000, 1], stage)), 3);
}
