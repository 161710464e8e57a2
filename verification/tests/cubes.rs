use advent_solutions::cubes::{get_maxs, part_one, part_two, read_game, tally_games, validate_maxes};

const GAMES: &str = "Game 1: 3 blue, 4 red; 1 red, 2 green, 6 blue; 2 green
Game 2: 1 blue, 2 green; 3 green, 4 blue, 1 red; 1 green, 1 blue
Game 3: 8 green, 6 blue, 20 red; 5 blue, 4 red, 13 green; 5 green, 1 red
Game 4: 1 green, 3 red, 6 blue; 3 green, 6 red; 3 green, 15 blue, 14 red
Game 5: 6 red, 1 blue, 3 green; 2 blue, 1 red, 2 green
";

#[test]
fn day2_part1_1() {
    let input =
"Game 1: 3 blue, 4 red; 1 red, 2 green, 6 blue; 2 green
Game 2: 1 blue, 2 green; 3 green, 4 blue, 1 red; 1 green, 1 blue
Game 3: 8 green, 6 blue, 20 red; 5 blue, 4 red, 13 green; 5 green, 1 red
Game 4: 1 green, 3 red, 6 blue; 3 green, 6 red; 3 green, 15 blue, 14 red
Game 5: 6 red, 1 blue, 3 green; 2 blue, 1 red, 2 green
";
    let result = part_one(input);
    assert_eq!(result, 8);
}

#[test]
fn day2_part2_1() {
    let input =
"Game 1: 3 blue, 4 red; 1 red, 2 green, 6 blue; 2 green
Game 2: 1 blue, 2 green; 3 green, 4 blue, 1 red; 1 green, 1 blue
Game 3: 8 green, 6 blue, 20 red; 5 blue, 4 red, 13 green; 5 green, 1 red
Game 4: 1 green, 3 red, 6 blue; 3 green, 6 red; 3 green, 15 blue, 14 red
Game 5: 6 red, 1 blue, 3 green; 2 blue, 1 red, 2 green
";
    let result = part_two(input);
    assert_eq!(result, 2286);
}

#[test]
fn maxima_of_one_game() {
    assert_eq!(get_maxs("Game 1: 3 blue, 4 red; 1 red, 2 green, 6 blue; 2 green"), (4, 2, 6));
    assert_eq!(get_maxs("Game 3: 8 green, 6 blue, 20 red; 5 blue, 4 red, 13 green; 5 green, 1 red"), (20, 13, 6));
    assert_eq!(get_maxs("x: 7 green"), (0, 7, 0));
    assert_eq!(get_maxs(": 65535 red, 007 blue"), (65535, 0, 7));
}

#[test]
fn game_within_a_longer_text() {
    let text = b"ab\nGame 9: 2 red; 10 blue\r\ncd";
    assert_eq!(read_game(text, 3, 25), Some((2, 0, 10)));
    assert_eq!(read_game(text, 3, 26), None);
    assert_eq!(read_game(text, 3, 24), None);
    assert_eq!(read_game(text, 0, 2), None);
}

#[test]
fn malformed_games_are_refused() {
    let cases: [&str; 12] = [
        "",
        "Game 1",
        "Game 1:3 red",
        "Game 1: ",
        "Game 1: red",
        "Game 1: 3",
        "Game 1: 3 ",
        "Game 1: 3 pink",
        "Game 1: 3 red,4 blue",
        "Game 1: 3 red, ",
        "Game 1: 65536 red",
        "Game 1: 3 red ",
    ];
    for case in cases {
        let bytes = case.as_bytes();
        assert_eq!(read_game(bytes, 0, bytes.len()), None, "{}", case);
    }
}

#[test]
fn maxima_against_a_constraint() {
    assert!(validate_maxes((12, 13, 14), (12, 13, 14)));
    assert!(validate_maxes((0, 0, 0), (12, 13, 14)));
    assert!(!validate_maxes((13, 13, 14), (12, 13, 14)));
    assert!(!validate_maxes((12, 14, 14), (12, 13, 14)));
    assert!(!validate_maxes((12, 13, 15), (12, 13, 14)));
}

#[test]
fn tally_by_number_and_by_power() {
    let bytes = GAMES.as_bytes();
    assert_eq!(tally_games(bytes, false, u64::MAX), Some(8));
    assert_eq!(tally_games(bytes, true, u64::MAX), Some(48 + 12 + 1560 + 630 + 36));
    assert_eq!(tally_games(b"", false, 10), Some(0));
    assert_eq!(tally_games(b"", true, 10), Some(0));
}

#[test]
fn tally_of_lines_with_carriage_returns() {
    assert_eq!(tally_games(b"a: 1 red\r\nb: 20 red\r\nc: 2 blue", false, 100), Some(1 + 3));
    assert_eq!(tally_games(b"a: 1 red\r\nb: 20 red\r\nc: 2 blue\r", false, 100), None);
}

#[test]
fn tally_stops_at_the_limit() {
    let bytes = GAMES.as_bytes();
    assert_eq!(tally_games(bytes, true, 2286), Some(2286));
    assert_eq!(tally_games(bytes, true, 2285), None);
    assert_eq!(tally_games(bytes, false, 8), Some(8));
    assert_eq!(tally_games(bytes, false, 7), None);
    assert_eq!(tally_games(b"g: 300 red, 300 green", true, 65535), None);
    assert_eq!(tally_games(b"g: 300 red, 200 green", true, 65535), Some(0));
}

#[test]
fn tally_refuses_a_line_that_is_no_game() {
    assert_eq!(tally_games(b"a: 1 red\n\nb: 2 red\n", false, 100), None);
    assert_eq!(tally_games(b"a: 1 red\nnonsense\n", true, 100), None);
}
