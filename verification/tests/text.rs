use advent_solutions::text::{find_marker, read_number};

#[test]
fn first_marker_is_found() {
    let text = b"Game 1: 3 red: 4";
    assert_eq!(find_marker(text, 0, text.len()), 6);
    assert_eq!(find_marker(text, 7, text.len()), 13);
    assert_eq!(find_marker(text, 14, text.len()), text.len());
    assert_eq!(find_marker(text, 0, 7), 7);
    assert_eq!(find_marker(text, 0, 8), 6);
    assert_eq!(find_marker(b"a:b", 0, 3), 3);
    assert_eq!(find_marker(b"", 0, 0), 0);
}

#[test]
fn numbers_are_read_in_base_ten() {
    assert_eq!(read_number(b"123 ", 0, 4, 1000), Some((123, 3)));
    assert_eq!(read_number(b"123 ", 1, 4, 1000), Some((23, 3)));
    assert_eq!(read_number(b"123", 0, 2, 1000), Some((12, 2)));
    assert_eq!(read_number(b"007", 0, 3, 7), Some((7, 3)));
    assert_eq!(read_number(b"x1", 0, 2, 1000), Some((0, 0)));
    assert_eq!(read_number(b"", 0, 0, 1000), Some((0, 0)));
}

#[test]
fn numbers_past_the_limit_are_refused() {
    assert_eq!(read_number(b"1000", 0, 4, 1000), Some((1000, 4)));
    assert_eq!(read_number(b"1001", 0, 4, 1000), None);
    assert_eq!(read_number(b"65535", 0, 5, 65535), Some((65535, 5)));
    assert_eq!(read_number(b"65536", 0, 5, 65535), None);
    assert_eq!(read_number(b"18446744073709551615", 0, 20, u64::MAX), Some((u64::MAX, 20)));
    assert_eq!(read_number(b"18446744073709551616", 0, 20, u64::MAX), None);
    assert_eq!(read_number(b"99999999999999999999999", 0, 23, u64::MAX), None);
    assert_eq!(read_number(b"5", 0, 1, 4), None);
}
