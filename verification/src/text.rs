//! Bytes of text that the readers share, and the search for the `": "` that
//! ends a heading.

use vstd::prelude::*;

verus! {

pub const NEWLINE: u8 = 10;

pub const RETURN: u8 = 13;

pub const SPACE: u8 = 32;

pub const COMMA: u8 = 44;

pub const ZERO: u8 = 48;

pub const NINE: u8 = 57;

pub const COLON: u8 = 58;

pub const SEMICOLON: u8 = 59;

/// The byte is a decimal digit.
pub open spec fn is_digit(b: u8) -> bool {
    ZERO <= b <= NINE
}

/// The first place from `pos` on where `": "` stands, or `hi` if there is
/// none before `hi`.
pub open spec fn marker_from(s: Seq<u8>, pos: int, hi: int) -> int
    decreases hi - pos,
{
    if pos + 2 > hi {
        hi
    } else if s[pos] == COLON && s[pos + 1] == SPACE {
        pos
    } else {
        marker_from(s, pos + 1, hi)
    }
}

/// The bytes `a` and `b` stand at `q` and right after it.
pub open spec fn pair_at(s: Seq<u8>, q: int, a: u8, b: u8) -> bool {
    s[q] == a && s[q + 1] == b
}

/// The place that `marker_from` gives is the first place between `lo` and
/// `hi` where `": "` stands, or `hi` where there is none.
pub proof fn lemma_marker_is_first(s: Seq<u8>, lo: int, hi: int)
    requires
        0 <= lo <= hi <= s.len(),
    ensures
        lo <= marker_from(s, lo, hi) <= hi,
        marker_from(s, lo, hi) < hi ==> marker_from(s, lo, hi) + 2 <= hi && s[marker_from(
            s,
            lo,
            hi,
        )] == COLON && s[marker_from(s, lo, hi) + 1] == SPACE,
        forall|q: int| lo <= q < marker_from(s, lo, hi) && q + 2 <= hi ==> !#[trigger] pair_at(
                s,
                q,
                COLON,
                SPACE,
            ),
    decreases hi - lo,
{
    if lo + 2 <= hi && !(s[lo] == COLON && s[lo + 1] == SPACE) {
        lemma_marker_is_first(s, lo + 1, hi);
    }
}

/// Reads decimal digits from `pos` on, up to `hi`, onto the number `acc`:
/// the number read and the place where the digits end, or `None` when the
/// number goes past `limit`.
pub open spec fn number_from(s: Seq<u8>, pos: int, hi: int, acc: int, limit: int) -> Option<
    (int, int),
>
    decreases hi - pos,
{
    if pos < hi && is_digit(s[pos]) {
        let next = acc * 10 + (s[pos] - ZERO);
        if next > limit {
            None
        } else {
            number_from(s, pos + 1, hi, next, limit)
        }
    } else {
        Some((acc, pos))
    }
}

/// The number that the digits between `lo` and `hi` write in base ten.
pub open spec fn decimal(s: Seq<u8>, lo: int, hi: int) -> int
    decreases hi - lo,
{
    if hi <= lo {
        0
    } else {
        decimal(s, lo, hi - 1) * 10 + (s[hi - 1] - ZERO)
    }
}

/// Every byte between `lo` and `hi` is a digit.
pub open spec fn all_digits(s: Seq<u8>, lo: int, hi: int) -> bool {
    forall|q: int| lo <= q < hi ==> is_digit(#[trigger] s[q])
}

/// What `number_from` reads, having read the digits from `start` to `pos`
/// as `acc`: it goes on to the end of the run of digits and gives the number
/// that the whole run writes in base ten; and it gives `None` only where
/// some run of digits from `start` on writes a number past the limit.
pub proof fn lemma_number_is_decimal(
    s: Seq<u8>,
    start: int,
    pos: int,
    hi: int,
    acc: int,
    limit: int,
)
    requires
        0 <= start <= pos <= hi <= s.len(),
        all_digits(s, start, pos),
        acc == decimal(s, start, pos),
    ensures
        match number_from(s, pos, hi, acc, limit) {
            Some((n, end)) => {
                &&& pos <= end <= hi
                &&& all_digits(s, start, end)
                &&& end < hi ==> !is_digit(s[end])
                &&& n == decimal(s, start, end)
            },
            None => exists|end: int|
                pos < end <= hi && all_digits(s, start, end) && #[trigger] decimal(s, start, end)
                    > limit,
        },
    decreases hi - pos,
{
    if pos < hi && is_digit(s[pos]) {
        let next = acc * 10 + (s[pos] - ZERO);
        assert(next == decimal(s, start, pos + 1));
        assert(all_digits(s, start, pos + 1));
        if next <= limit {
            lemma_number_is_decimal(s, start, pos + 1, hi, next, limit);
        }
    }
}

/// Reads a number written in decimal digits from `start` on: the number and
/// the place where its digits end, or `None` when it goes past `limit`.
/// Where no digit stands at `start`, the number is 0 and the place is `start`.
pub fn read_number(s: &[u8], start: usize, hi: usize, limit: u64) -> (res: Option<(u64, usize)>)
    requires
        start <= hi <= s@.len(),
    ensures
        res is None <==> number_from(s@, start as int, hi as int, 0, limit as int) is None,
        res matches Some(r) ==> number_from(s@, start as int, hi as int, 0, limit as int) == Some(
            (r.0 as int, r.1 as int),
        ) && start <= r.1 <= hi && r.0 <= limit,
{
    let mut pos: usize = start;
    let mut acc: u64 = 0;
    while pos < hi && ZERO <= s[pos] && s[pos] <= NINE
        invariant
            start <= pos <= hi <= s@.len(),
            acc <= limit,
            number_from(s@, start as int, hi as int, 0, limit as int) == number_from(
                s@,
                pos as int,
                hi as int,
                acc as int,
                limit as int,
            ),
        decreases hi - pos,
    {
        let digit: u64 = (s[pos] - ZERO) as u64;
        if digit > limit || acc > (limit - digit) / 10 {
            return None;
        }
        acc = acc * 10 + digit;
        pos += 1;
    }
    Some((acc, pos))
}

/// Finds the first `": "` between `lo` and `hi`.
pub fn find_marker(s: &[u8], lo: usize, hi: usize) -> (res: usize)
    requires
        lo <= hi <= s@.len(),
    ensures
        res == marker_from(s@, lo as int, hi as int),
        lo <= res <= hi,
        res < hi ==> res + 2 <= hi,
{
    let mut p: usize = lo;
    while hi - p >= 2 && !(s[p] == COLON && s[p + 1] == SPACE)
        invariant
            lo <= p <= hi <= s@.len(),
            marker_from(s@, lo as int, hi as int) == marker_from(s@, p as int, hi as int),
        decreases hi - p,
    {
        p += 1;
    }
    if hi - p >= 2 {
        p
    } else {
        hi
    }
}

} // verus!
