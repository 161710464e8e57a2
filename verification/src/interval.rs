//! Intervals, remapping rules, and the splitting of one interval against one
//! rule.

use vstd::prelude::*;

verus! {

/// A list of seed values.
pub type IDs = Vec<u64>;

/// A remapping rule `((destination_start, source_start), length)`.
pub type Mapping = ((u64, u64), u64);

/// The stages of a pipeline, each a list of rules.
pub type Mappings = Vec<Vec<Mapping>>;

/// The translated part of a split interval.
pub type NextRange = Option<(u64, u64)>;

/// A part of a split interval that the rule left alone.
pub type Leftover = Option<(u64, u64)>;

/// An interval `(start, length)` is valid when it is not empty and its last
/// value fits in a `u64`.
pub open spec fn valid_range(r: (u64, u64)) -> bool {
    r.1 > 0 && r.0 + r.1 - 1 <= u64::MAX
}

/// A rule is valid when it is not empty and both its source window and its
/// destination window fit in a `u64`.
pub open spec fn valid_rule(m: Mapping) -> bool {
    m.1 > 0 && m.0.1 + m.1 - 1 <= u64::MAX && m.0.0 + m.1 - 1 <= u64::MAX
}

/// The value `v` lies in the interval `r`.
pub open spec fn in_range(r: (u64, u64), v: int) -> bool {
    r.0 <= v < r.0 + r.1
}

/// The value `v` lies in the source window of the rule `m`.
pub open spec fn in_window(m: Mapping, v: int) -> bool {
    m.0.1 <= v < m.0.1 + m.1
}

/// Where the rule `m` sends a value of its source window.
pub open spec fn translate(m: Mapping, v: int) -> int {
    m.0.0 + (v - m.0.1)
}

/// The last value of an interval.
pub open spec fn last_of(r: (u64, u64)) -> int {
    r.0 + r.1 - 1
}

/// The last value of a rule's source window.
pub open spec fn window_last(m: Mapping) -> int {
    m.0.1 + m.1 - 1
}

/// The interval and the rule's source window share at least one value.
pub open spec fn overlaps(r: (u64, u64), m: Mapping) -> bool {
    r.0 <= window_last(m) && m.0.1 <= last_of(r)
}

/// The source window of the rule holds the whole interval.
pub open spec fn contains(m: Mapping, r: (u64, u64)) -> bool {
    m.0.1 <= r.0 && last_of(r) <= window_last(m)
}

/// First value shared by the interval and the window.
pub open spec fn overlap_first(r: (u64, u64), m: Mapping) -> int {
    if r.0 >= m.0.1 { r.0 as int } else { m.0.1 as int }
}

/// Last value shared by the interval and the window.
pub open spec fn overlap_last(r: (u64, u64), m: Mapping) -> int {
    if last_of(r) <= window_last(m) { last_of(r) } else { window_last(m) }
}

/// The translated overlap of the interval with the rule's window, if any.
pub open spec fn mapped_part(r: (u64, u64), m: Mapping) -> NextRange {
    if overlaps(r, m) {
        Some(
            (
                translate(m, overlap_first(r, m)) as u64,
                (overlap_last(r, m) - overlap_first(r, m) + 1) as u64,
            ),
        )
    } else {
        None
    }
}

/// The part of the interval before the window, if any.
pub open spec fn left_part(r: (u64, u64), m: Mapping) -> Leftover {
    if r.0 < m.0.1 { Some((r.0, (m.0.1 - r.0) as u64)) } else { None }
}

/// The part of the interval after the window, if any.
pub open spec fn right_part(r: (u64, u64), m: Mapping) -> Leftover {
    if last_of(r) > window_last(m) {
        Some(((window_last(m) + 1) as u64, (last_of(r) - window_last(m)) as u64))
    } else {
        None
    }
}

/// The first untranslated piece: the whole interval when nothing overlaps,
/// else the left piece, else the right piece.
pub open spec fn first_leftover(r: (u64, u64), m: Mapping) -> Leftover {
    if !overlaps(r, m) {
        Some(r)
    } else if left_part(r, m).is_some() {
        left_part(r, m)
    } else {
        right_part(r, m)
    }
}

/// The second untranslated piece: the right piece, when there is a left one
/// too.
pub open spec fn second_leftover(r: (u64, u64), m: Mapping) -> Leftover {
    if overlaps(r, m) && left_part(r, m).is_some() {
        right_part(r, m)
    } else {
        None
    }
}

/// Length of an optional interval, an absent one counting as empty.
pub open spec fn opt_len(r: Option<(u64, u64)>) -> int {
    match r {
        Some(p) => p.1 as int,
        None => 0,
    }
}

/// Tells whether an interval is valid.
pub fn is_valid_range(r: (u64, u64)) -> (ok: bool)
    ensures
        ok == valid_range(r),
{
    r.1 > 0 && r.1 - 1 <= u64::MAX - r.0
}

/// Tells whether a rule is valid.
pub fn is_valid_rule(m: Mapping) -> (ok: bool)
    ensures
        ok == valid_rule(m),
{
    m.1 > 0 && m.1 - 1 <= u64::MAX - m.0.1 && m.1 - 1 <= u64::MAX - m.0.0
}

/// Splits `current` against `rule`: the overlap with the rule's source window
/// comes back translated, and what lies before and after the window comes back
/// as it was.
pub fn split_ranges(current: (u64, u64), rule: Mapping) -> (res: (NextRange, Leftover, Leftover))
    requires
        valid_range(current),
        valid_rule(rule),
    ensures
        res.0 == mapped_part(current, rule),
        res.1 == first_leftover(current, rule),
        res.2 == second_leftover(current, rule),
{
    let (curr_start, curr_len) = current;
    let ((value_start, key_start), mapping_len) = rule;
    let curr_end: u64 = curr_start + (curr_len - 1);
    let key_end: u64 = key_start + (mapping_len - 1);
    if curr_start < key_start {
        let left_len: u64 = key_start - curr_start;
        if curr_end < key_end {
            if curr_end < key_start {
                (None, Some((curr_start, curr_len)), None)
            } else {
                (Some((value_start, 1 + (curr_end - key_start))), Some((curr_start, left_len)), None)
            }
        } else if curr_end > key_end {
            let right_len: u64 = curr_end - key_end;
            (
                Some((value_start, mapping_len)),
                Some((curr_start, left_len)),
                Some((key_end + 1, right_len)),
            )
        } else {
            (Some((value_start, mapping_len)), Some((curr_start, left_len)), None)
        }
    } else if curr_start > key_start {
        if curr_end < key_end {
            (Some((value_start + (curr_start - key_start), curr_len)), None, None)
        } else if curr_end > key_end {
            if curr_start > key_end {
                (None, Some((curr_start, curr_len)), None)
            } else {
                let right_len: u64 = curr_end - key_end;
                (
                    Some((value_start + (curr_start - key_start), curr_len - right_len)),
                    Some((key_end + 1, right_len)),
                    None,
                )
            }
        } else {
            (Some((value_start + (curr_start - key_start), curr_len)), None, None)
        }
    } else {
        if curr_end < key_end {
            (Some((value_start, curr_len)), None, None)
        } else if curr_end > key_end {
            let right_len: u64 = curr_end - key_end;
            (Some((value_start, curr_len - right_len)), Some((key_end + 1, right_len)), None)
        } else {
            (Some((value_start, mapping_len)), None, None)
        }
    }
}

/// No length is lost or gained by a split: the lengths of the three pieces add
/// up to the length of the interval.
pub proof fn lemma_split_conserves_length(current: (u64, u64), rule: Mapping)
    requires
        valid_range(current),
        valid_rule(rule),
    ensures
        opt_len(mapped_part(current, rule)) + opt_len(first_leftover(current, rule)) + opt_len(
            second_leftover(current, rule),
        ) == current.1,
{
}

/// An interval that shares no value with the rule's window comes back whole
/// and unchanged, with nothing translated.
pub proof fn lemma_split_without_overlap(current: (u64, u64), rule: Mapping)
    requires
        valid_range(current),
        valid_rule(rule),
        forall|v: int| in_range(current, v) ==> !in_window(rule, v),
    ensures
        mapped_part(current, rule) == None::<(u64, u64)>,
        first_leftover(current, rule) == Some(current),
        second_leftover(current, rule) == None::<(u64, u64)>,
{
    if overlaps(current, rule) {
        let v = overlap_first(current, rule);
        assert(in_range(current, v) && in_window(rule, v));
    }
}

/// An interval that lies wholly inside the rule's window is translated as a
/// whole: same length, start moved by the rule's offset, nothing left over.
pub proof fn lemma_split_contained(current: (u64, u64), rule: Mapping)
    requires
        valid_range(current),
        valid_rule(rule),
        contains(rule, current),
    ensures
        mapped_part(current, rule) == Some(
            ((rule.0.0 + (current.0 - rule.0.1)) as u64, current.1),
        ),
        rule.0.0 + (current.0 - rule.0.1) <= u64::MAX,
        first_leftover(current, rule) == None::<(u64, u64)>,
        second_leftover(current, rule) == None::<(u64, u64)>,
{
}

/// What a split does to each value of the interval: a value inside the window
/// lands, translated, in the mapped piece; a value outside lands in one of the
/// leftovers; and the pieces hold nothing else.
pub proof fn lemma_split_pointwise(current: (u64, u64), rule: Mapping)
    requires
        valid_range(current),
        valid_rule(rule),
    ensures
        forall|v: int|
            in_range(current, v) && in_window(rule, v) <==> #[trigger] in_piece(
                mapped_part(current, rule),
                translate(rule, v),
            ),
        forall|v: int|
            in_range(current, v) && !in_window(rule, v) <==> #[trigger] in_piece(
                first_leftover(current, rule),
                v,
            ) || in_piece(second_leftover(current, rule), v),
        valid_piece(mapped_part(current, rule)),
        valid_piece(first_leftover(current, rule)),
        valid_piece(second_leftover(current, rule)),
{
}

/// The value `v` lies in the piece, an absent piece holding nothing.
pub open spec fn in_piece(r: Option<(u64, u64)>, v: int) -> bool {
    match r {
        Some(p) => in_range(p, v),
        None => false,
    }
}

/// A piece that is present is a valid interval.
pub open spec fn valid_piece(r: Option<(u64, u64)>) -> bool {
    match r {
        Some(p) => valid_range(p),
        None => true,
    }
}

} // verus!
