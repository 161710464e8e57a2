//! Records of a cube game: one game per line, `Game 1: 3 blue, 4 red; 2 green`.
//! The text after the first `": "` lists draws of a number of cubes of one
//! colour, parted by `", "` or `"; "`.

use crate::text::{
    find_marker, marker_from, number_from, read_number, COMMA, NEWLINE, RETURN, SEMICOLON, SPACE,
};
use vstd::prelude::*;
use vstd::string::*;

verus! {

pub const RED_LIMIT: u16 = 12;

pub const GREEN_LIMIT: u16 = 13;

pub const BLUE_LIMIT: u16 = 14;

/// The colour word that starts at `pos`: 0 for `red`, 1 for `green`, 2 for
/// `blue`, with the length of the word.
pub open spec fn colour_at(s: Seq<u8>, pos: int, hi: int) -> Option<(int, int)> {
    if pos + 3 <= hi && s[pos] == 114 && s[pos + 1] == 101 && s[pos + 2] == 100 {
        Some((0, 3))
    } else if pos + 5 <= hi && s[pos] == 103 && s[pos + 1] == 114 && s[pos + 2] == 101 && s[pos
        + 3] == 101 && s[pos + 4] == 110 {
        Some((1, 5))
    } else if pos + 4 <= hi && s[pos] == 98 && s[pos + 1] == 108 && s[pos + 2] == 117 && s[pos
        + 3] == 101 {
        Some((2, 4))
    } else {
        None
    }
}

/// The maxima `m` with the one of colour `which` raised to `amount` if it was
/// lower.
pub open spec fn raised(m: (u16, u16, u16), which: int, amount: u16) -> (u16, u16, u16) {
    if which == 0 {
        (if amount > m.0 { amount } else { m.0 }, m.1, m.2)
    } else if which == 1 {
        (m.0, if amount > m.1 { amount } else { m.1 }, m.2)
    } else {
        (m.0, m.1, if amount > m.2 { amount } else { m.2 })
    }
}

/// Reads the draws from `pos` to `hi`, starting from the maxima `acc`: the
/// largest number seen of each colour, or `None` where the text is no list of
/// draws.
pub open spec fn maxs_from(s: Seq<u8>, pos: int, hi: int, acc: (u16, u16, u16)) -> Option<
    (u16, u16, u16),
>
    decreases hi - pos,
{
    match number_from(s, pos, hi, 0, u16::MAX as int) {
        None => None,
        Some((amount, end)) => {
            if end <= pos || end >= hi || s[end] != SPACE {
                None
            } else {
                match colour_at(s, end + 1, hi) {
                    None => None,
                    Some((which, n)) => {
                        let next = end + 1 + n;
                        let acc2 = raised(acc, which, amount as u16);
                        if next == hi {
                            Some(acc2)
                        } else if n >= 3 && next + 2 <= hi && (s[next] == COMMA || s[next]
                            == SEMICOLON) && s[next + 1] == SPACE {
                            maxs_from(s, next + 2, hi, acc2)
                        } else {
                            None
                        }
                    },
                }
            }
        },
    }
}

/// The largest number of red, green and blue cubes in the game record that
/// stands between `lo` and `hi`, or `None` where there is no such record.
pub open spec fn game_maxs(s: Seq<u8>, lo: int, hi: int) -> Option<(u16, u16, u16)> {
    let p = marker_from(s, lo, hi);
    if p + 2 > hi {
        None
    } else {
        maxs_from(s, p + 2, hi, (0u16, 0u16, 0u16))
    }
}

/// Every number of the observation is within the constraint.
pub open spec fn within(observation: (u16, u16, u16), constraint: (u16, u16, u16)) -> bool {
    observation.0 <= constraint.0 && observation.1 <= constraint.1 && observation.2
        <= constraint.2
}

/// What the game at line `index` with maxima `m` adds to a tally: by power
/// the product of the three maxima (`None` where it or the product of the
/// first two goes past the limit); else its number, `index + 1`, if the bag
/// could have held the cubes, and nothing if not.
pub open spec fn score(m: (u16, u16, u16), index: int, by_power: bool, limit: int) -> Option<int> {
    if by_power {
        if m.0 * m.1 > limit || m.0 * m.1 * m.2 > limit {
            None
        } else {
            Some(m.0 * m.1 * m.2)
        }
    } else if within(m, (RED_LIMIT, GREEN_LIMIT, BLUE_LIMIT)) {
        Some(index + 1)
    } else {
        Some(0)
    }
}

/// The tally `acc` with the score of the game between `lo` and `hi` added, or
/// `None` where there is no game record or the sum goes past the limit.
pub open spec fn with_line(
    s: Seq<u8>,
    lo: int,
    hi: int,
    index: int,
    acc: int,
    by_power: bool,
    limit: int,
) -> Option<int> {
    match game_maxs(s, lo, hi) {
        None => None,
        Some(m) => match score(m, index, by_power, limit) {
            None => None,
            Some(n) => if acc + n > limit {
                None
            } else {
                Some(acc + n)
            },
        },
    }
}

/// The tally over the lines of the text from the line that starts at `start`
/// on, `pos` being how far that line has been read, `index` its place among
/// the lines and `acc` the tally of the lines before it. A line ends before
/// a newline, or before a carriage return and a newline; text after the last
/// newline is a line too.
pub open spec fn tally_from(
    s: Seq<u8>,
    start: int,
    pos: int,
    index: int,
    acc: int,
    by_power: bool,
    limit: int,
) -> Option<int>
    decreases s.len() - pos,
{
    if pos >= s.len() {
        if start >= s.len() {
            Some(acc)
        } else {
            with_line(s, start, s.len() as int, index, acc, by_power, limit)
        }
    } else if s[pos] == NEWLINE {
        let end = if pos > start && s[pos - 1] == RETURN {
            pos - 1
        } else {
            pos
        };
        match with_line(s, start, end, index, acc, by_power, limit) {
            None => None,
            Some(acc2) => tally_from(s, pos + 1, pos + 1, index + 1, acc2, by_power, limit),
        }
    } else {
        tally_from(s, start, pos + 1, index, acc, by_power, limit)
    }
}

/// The tally over all the lines of the text.
pub open spec fn tally(s: Seq<u8>, by_power: bool, limit: int) -> Option<int> {
    tally_from(s, 0, 0, 0, 0, by_power, limit)
}

fn read_colour(s: &[u8], pos: usize, hi: usize) -> (res: Option<(u8, usize)>)
    requires
        pos <= hi <= s@.len(),
    ensures
        res is None <==> colour_at(s@, pos as int, hi as int) is None,
        res matches Some(r) ==> colour_at(s@, pos as int, hi as int) == Some(
            (r.0 as int, r.1 as int),
        ) && 3 <= r.1 <= hi - pos,
{
    let room: usize = hi - pos;
    if room >= 3 && s[pos] == 114 && s[pos + 1] == 101 && s[pos + 2] == 100 {
        Some((0, 3))
    } else if room >= 5 && s[pos] == 103 && s[pos + 1] == 114 && s[pos + 2] == 101 && s[pos + 3]
        == 101 && s[pos + 4] == 110 {
        Some((1, 5))
    } else if room >= 4 && s[pos] == 98 && s[pos + 1] == 108 && s[pos + 2] == 117 && s[pos + 3]
        == 101 {
        Some((2, 4))
    } else {
        None
    }
}

fn raise(m: (u16, u16, u16), which: u8, amount: u16) -> (res: (u16, u16, u16))
    ensures
        res == raised(m, which as int, amount),
{
    let mut colors = m;
    if which == 0 {
        if amount > colors.0 {
            colors.0 = amount
        }
    } else if which == 1 {
        if amount > colors.1 {
            colors.1 = amount
        }
    } else {
        if amount > colors.2 {
            colors.2 = amount
        }
    }
    colors
}

/// Reads the game record that stands between `lo` and `hi` and gives the
/// largest number seen of each colour, or `None` where the text there is no
/// game record.
pub fn read_game(s: &[u8], lo: usize, hi: usize) -> (res: Option<(u16, u16, u16)>)
    requires
        lo <= hi <= s@.len(),
    ensures
        res == game_maxs(s@, lo as int, hi as int),
{
    let p = find_marker(s, lo, hi);
    if hi - p < 2 {
        return None;
    }
    let mut pos: usize = p + 2;
    let mut colors: (u16, u16, u16) = (0, 0, 0);
    loop
        invariant
            pos <= hi <= s@.len(),
            game_maxs(s@, lo as int, hi as int) == maxs_from(s@, pos as int, hi as int, colors),
        decreases hi - pos,
    {
        let (amount, end) = match read_number(s, pos, hi, u16::MAX as u64) {
            Some(r) => (r.0 as u16, r.1),
            None => { return None; },
        };
        if end <= pos || end >= hi || s[end] != SPACE {
            return None;
        }
        let (which, n) = match read_colour(s, end + 1, hi) {
            Some(r) => r,
            None => { return None; },
        };
        let next: usize = end + 1 + n;
        colors = raise(colors, which, amount);
        if next == hi {
            return Some(colors);
        }
        if hi - next >= 2 && (s[next] == COMMA || s[next] == SEMICOLON) && s[next + 1] == SPACE {
            pos = next + 2;
        } else {
            return None;
        }
    }
}

/// The largest number of red, green and blue cubes seen in one game record.
pub fn get_maxs(input: &str) -> (res: (u16, u16, u16))
    requires
        game_maxs(input.spec_bytes(), 0, input.spec_bytes().len() as int) is Some,
    ensures
        Some(res) == game_maxs(input.spec_bytes(), 0, input.spec_bytes().len() as int),
{
    let bytes = input.as_bytes();
    read_game(bytes, 0, bytes.len()).unwrap()
}

/// Tells whether every number of the observation is within the constraint.
pub fn validate_maxes(observation: (u16, u16, u16), constraint: (u16, u16, u16)) -> (res: bool)
    ensures
        res == within(observation, constraint),
{
    if observation.0 <= constraint.0 {
        if observation.1 <= constraint.1 {
            observation.2 <= constraint.2
        } else {
            false
        }
    } else {
        false
    }
}

fn add_line(
    s: &[u8],
    lo: usize,
    hi: usize,
    index: u64,
    acc: u64,
    by_power: bool,
    limit: u64,
) -> (res: Option<u64>)
    requires
        lo <= hi <= s@.len(),
        index < u64::MAX,
        acc <= limit,
    ensures
        res is None <==> with_line(
            s@,
            lo as int,
            hi as int,
            index as int,
            acc as int,
            by_power,
            limit as int,
        ) is None,
        res matches Some(r) ==> r <= limit && with_line(
            s@,
            lo as int,
            hi as int,
            index as int,
            acc as int,
            by_power,
            limit as int,
        ) == Some(r as int),
{
    let m = match read_game(s, lo, hi) {
        Some(m) => m,
        None => { return None; },
    };
    let n: u64 = if by_power {
        let (r, g, b): (u64, u64, u64) = (m.0 as u64, m.1 as u64, m.2 as u64);
        assert(r * g <= 65535 * 65535) by (nonlinear_arith)
            requires
                r <= 65535,
                g <= 65535,
        ;
        let rg: u64 = r * g;
        assert(rg * b <= 65535 * 65535 * 65535) by (nonlinear_arith)
            requires
                rg <= 65535 * 65535,
                b <= 65535,
        ;
        if rg > limit || rg * b > limit {
            return None;
        }
        rg * b
    } else if validate_maxes(m, (RED_LIMIT, GREEN_LIMIT, BLUE_LIMIT)) {
        index + 1
    } else {
        0
    };
    if n > limit - acc {
        None
    } else {
        Some(acc + n)
    }
}

/// Tallies the games of the text, one per line: by power the sum of the
/// products of each game's three maxima; else the sum of the numbers of the
/// games that a bag of 12 red, 13 green and 14 blue cubes allows, the first
/// line being game 1. `None` where a line is no game record or a sum goes past
/// the limit.
pub fn tally_games(s: &[u8], by_power: bool, limit: u64) -> (res: Option<u64>)
    ensures
        res is None <==> tally(s@, by_power, limit as int) is None,
        res matches Some(r) ==> r <= limit && tally(s@, by_power, limit as int) == Some(r as int),
{
    let mut start: usize = 0;
    let mut pos: usize = 0;
    let mut index: u64 = 0;
    let mut acc: u64 = 0;
    while pos < s.len()
        invariant
            start <= pos <= s@.len(),
            index <= start,
            acc <= limit,
            tally(s@, by_power, limit as int) == tally_from(
                s@,
                start as int,
                pos as int,
                index as int,
                acc as int,
                by_power,
                limit as int,
            ),
        decreases s@.len() - pos,
    {
        if s[pos] == NEWLINE {
            let end: usize = if pos > start && s[pos - 1] == RETURN {
                pos - 1
            } else {
                pos
            };
            acc = match add_line(s, start, end, index, acc, by_power, limit) {
                Some(a) => a,
                None => { return None; },
            };
            index += 1;
            start = pos + 1;
        }
        pos += 1;
    }
    if start >= s.len() {
        Some(acc)
    } else {
        add_line(s, start, s.len(), index, acc, by_power, limit)
    }
}

/// The sum of the numbers of the games that a bag of 12 red, 13 green and 14
/// blue cubes allows.
pub fn part_one(input: &str) -> (res: usize)
    requires
        tally(input.spec_bytes(), false, usize::MAX as int) is Some,
    ensures
        Some(res as int) == tally(input.spec_bytes(), false, usize::MAX as int),
{
    let sum = tally_games(input.as_bytes(), false, usize::MAX as u64).unwrap();
    sum as usize
}

/// The sum over the games of the product of each game's three maxima.
pub fn part_two(input: &str) -> (res: u16)
    requires
        tally(input.spec_bytes(), true, u16::MAX as int) is Some,
    ensures
        Some(res as int) == tally(input.spec_bytes(), true, u16::MAX as int),
{
    let sum = tally_games(input.as_bytes(), true, u16::MAX as u64).unwrap();
    sum as u16
}

} // verus!
