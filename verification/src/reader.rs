//! Reading an almanac from text. The text is a list of sections parted by
//! blank lines. The first section holds, after its first `": "`, the seed
//! values. Each later section is a stage: a header line, which is passed
//! over, then one rule per line, written as three numbers: where the
//! destination window starts, where the source window starts, and the length
//! of both. Numbers are decimal digits and are parted by white space.

use crate::almanac::{check_mappings, check_seeds, has_empty_stage, paired, valid_seeds, InputError};
use crate::text::{find_marker, marker_from, number_from, pair_at, read_number, NEWLINE};
use crate::interval::{IDs, Mapping, Mappings};
use crate::pipeline::{valid_all, valid_mappings, valid_rules};
use vstd::prelude::*;
use vstd::string::*;

verus! {

/// The byte is white space.
pub open spec fn is_blank(b: u8) -> bool {
    b == 32 || (9 <= b <= 13)
}

/// Reads the numbers that stand between `pos` and `hi`, parted by white
/// space, and appends them to `acc`; `None` where anything else stands there.
pub open spec fn numbers_from(s: Seq<u8>, pos: int, hi: int, acc: Seq<u64>) -> Option<Seq<u64>>
    decreases hi - pos,
{
    if pos >= hi {
        Some(acc)
    } else if is_blank(s[pos]) {
        numbers_from(s, pos + 1, hi, acc)
    } else {
        match number_from(s, pos, hi, 0, u64::MAX as int) {
            None => None,
            Some((n, end)) => {
                if end <= pos || end > hi || (end < hi && !is_blank(s[end])) {
                    None
                } else {
                    numbers_from(s, end, hi, acc.push(n as u64))
                }
            },
        }
    }
}

/// The first place from `pos` on where a newline stands, or `hi` if there is
/// none before `hi`.
pub open spec fn line_end(s: Seq<u8>, pos: int, hi: int) -> int
    decreases hi - pos,
{
    if pos >= hi {
        hi
    } else if s[pos] == NEWLINE {
        pos
    } else {
        line_end(s, pos + 1, hi)
    }
}

/// The first place from `pos` on where two newlines stand in a row, or `hi`
/// if there is none before `hi`.
pub open spec fn section_end(s: Seq<u8>, pos: int, hi: int) -> int
    decreases hi - pos,
{
    if pos + 2 > hi {
        hi
    } else if s[pos] == NEWLINE && s[pos + 1] == NEWLINE {
        pos
    } else {
        section_end(s, pos + 1, hi)
    }
}

/// The place that `line_end` gives is the first newline between `pos` and
/// `hi`, or `hi` where there is none.
pub proof fn lemma_line_end_is_first(s: Seq<u8>, pos: int, hi: int)
    requires
        0 <= pos <= hi <= s.len(),
    ensures
        pos <= line_end(s, pos, hi) <= hi,
        line_end(s, pos, hi) < hi ==> s[line_end(s, pos, hi)] == NEWLINE,
        forall|q: int| pos <= q < line_end(s, pos, hi) ==> s[q] != NEWLINE,
    decreases hi - pos,
{
    if pos < hi && s[pos] != NEWLINE {
        lemma_line_end_is_first(s, pos + 1, hi);
    }
}

/// The place that `section_end` gives is the first place between `pos` and
/// `hi` where two newlines stand in a row, or `hi` where there is none.
pub proof fn lemma_section_end_is_first(s: Seq<u8>, pos: int, hi: int)
    requires
        0 <= pos <= hi <= s.len(),
    ensures
        pos <= section_end(s, pos, hi) <= hi,
        section_end(s, pos, hi) < hi ==> section_end(s, pos, hi) + 2 <= hi && s[section_end(
            s,
            pos,
            hi,
        )] == NEWLINE && s[section_end(s, pos, hi) + 1] == NEWLINE,
        forall|q: int|
            pos <= q < section_end(s, pos, hi) && q + 2 <= hi ==> !#[trigger] pair_at(
                s,
                q,
                NEWLINE,
                NEWLINE,
            ),
    decreases hi - pos,
{
    if pos + 2 <= hi && !(s[pos] == NEWLINE && s[pos + 1] == NEWLINE) {
        lemma_section_end_is_first(s, pos + 1, hi);
    }
}

/// Reads the rules that stand between `pos` and `hi`, one per line, and
/// appends them to `acc`; `None` where a line does not hold three numbers.
pub open spec fn rules_from(s: Seq<u8>, pos: int, hi: int, acc: Seq<Mapping>) -> Option<
    Seq<Mapping>,
>
    decreases hi - pos,
{
    if pos >= hi {
        Some(acc)
    } else {
        let end = line_end(s, pos, hi);
        match numbers_from(s, pos, end, Seq::empty()) {
            None => None,
            Some(ns) => {
                if ns.len() != 3 || end < pos {
                    None
                } else if end >= hi {
                    Some(acc.push(((ns[0], ns[1]), ns[2])))
                } else {
                    rules_from(s, end + 1, hi, acc.push(((ns[0], ns[1]), ns[2])))
                }
            },
        }
    }
}

/// Reads the stages from the section that starts at `pos` on and appends them
/// to `acc`.
pub open spec fn stages_from(s: Seq<u8>, pos: int, acc: Seq<Seq<Mapping>>) -> Option<
    Seq<Seq<Mapping>>,
>
    decreases s.len() - pos,
{
    let hi = s.len() as int;
    let end = section_end(s, pos, hi);
    let header_end = line_end(s, pos, end);
    match rules_from(s, header_end + 1, end, Seq::empty()) {
        None => None,
        Some(rules) => {
            if end >= hi {
                Some(acc.push(rules))
            } else if end < pos || end + 2 > hi {
                None
            } else {
                stages_from(s, end + 2, acc.push(rules))
            }
        },
    }
}

/// The seeds and the stages that the text holds, or `None` where the text is
/// no almanac.
pub open spec fn almanac_of(s: Seq<u8>) -> Option<(Seq<u64>, Seq<Seq<Mapping>>)> {
    let hi = s.len() as int;
    let end = section_end(s, 0, hi);
    let p = marker_from(s, 0, end);
    if p + 2 > end {
        None
    } else {
        match numbers_from(s, p + 2, end, Seq::empty()) {
            None => None,
            Some(ids) => {
                if end >= hi {
                    Some((ids, Seq::empty()))
                } else {
                    match stages_from(s, end + 2, Seq::empty()) {
                        None => None,
                        Some(stages) => Some((ids, stages)),
                    }
                }
            },
        }
    }
}

/// The rules of each stage of a pipeline.
pub open spec fn rules_of(mappings: Seq<Vec<Mapping>>) -> Seq<Seq<Mapping>> {
    Seq::new(mappings.len(), |i: int| mappings[i]@)
}

fn blank(b: u8) -> (res: bool)
    ensures
        res == is_blank(b),
{
    b == 32 || (9 <= b && b <= 13)
}

fn read_numbers(s: &[u8], start: usize, hi: usize) -> (res: Option<Vec<u64>>)
    requires
        start <= hi <= s@.len(),
    ensures
        res is None <==> numbers_from(s@, start as int, hi as int, Seq::empty()) is None,
        res matches Some(v) ==> numbers_from(s@, start as int, hi as int, Seq::empty()) == Some(
            v@,
        ),
{
    let mut out: Vec<u64> = Vec::new();
    let mut pos: usize = start;
    while pos < hi
        invariant
            start <= pos <= hi <= s@.len(),
            numbers_from(s@, start as int, hi as int, Seq::empty()) == numbers_from(
                s@,
                pos as int,
                hi as int,
                out@,
            ),
        decreases hi - pos,
    {
        if blank(s[pos]) {
            pos += 1;
        } else {
            let (n, end) = match read_number(s, pos, hi, u64::MAX) {
                Some(r) => r,
                None => { return None; },
            };
            if end <= pos || (end < hi && !blank(s[end])) {
                return None;
            }
            out.push(n);
            pos = end;
        }
    }
    Some(out)
}

fn find_line_end(s: &[u8], start: usize, hi: usize) -> (res: usize)
    requires
        start <= hi <= s@.len(),
    ensures
        res == line_end(s@, start as int, hi as int),
        start <= res <= hi,
{
    let mut pos: usize = start;
    while pos < hi && s[pos] != NEWLINE
        invariant
            start <= pos <= hi <= s@.len(),
            line_end(s@, start as int, hi as int) == line_end(s@, pos as int, hi as int),
        decreases hi - pos,
    {
        pos += 1;
    }
    pos
}

fn find_section_end(s: &[u8], start: usize, hi: usize) -> (res: usize)
    requires
        start <= hi <= s@.len(),
    ensures
        res == section_end(s@, start as int, hi as int),
        start <= res <= hi,
        res < hi ==> res + 2 <= hi,
{
    let mut pos: usize = start;
    while hi - pos >= 2 && !(s[pos] == NEWLINE && s[pos + 1] == NEWLINE)
        invariant
            start <= pos <= hi <= s@.len(),
            section_end(s@, start as int, hi as int) == section_end(s@, pos as int, hi as int),
        decreases hi - pos,
    {
        pos += 1;
    }
    if hi - pos >= 2 {
        pos
    } else {
        hi
    }
}

fn read_rules(s: &[u8], start: usize, hi: usize) -> (res: Option<Vec<Mapping>>)
    requires
        start <= hi <= s@.len(),
    ensures
        res is None <==> rules_from(s@, start as int, hi as int, Seq::empty()) is None,
        res matches Some(v) ==> rules_from(s@, start as int, hi as int, Seq::empty()) == Some(v@),
{
    let mut out: Vec<Mapping> = Vec::new();
    let mut pos: usize = start;
    while pos < hi
        invariant
            pos <= hi <= s@.len(),
            rules_from(s@, start as int, hi as int, Seq::empty()) == rules_from(
                s@,
                pos as int,
                hi as int,
                out@,
            ),
        decreases hi - pos,
    {
        let end = find_line_end(s, pos, hi);
        let ns = match read_numbers(s, pos, end) {
            Some(ns) => ns,
            None => { return None; },
        };
        if ns.len() != 3 {
            return None;
        }
        out.push(((ns[0], ns[1]), ns[2]));
        if end >= hi {
            return Some(out);
        }
        pos = end + 1;
    }
    Some(out)
}

/// Reads an almanac from text: the seeds and the stages, or `None` where the
/// text is no almanac.
pub fn read_almanac(s: &[u8]) -> (res: Option<(IDs, Mappings)>)
    ensures
        res is None <==> almanac_of(s@) is None,
        res matches Some(a) ==> almanac_of(s@) == Some((a.0@, rules_of(a.1@))),
{
    let hi: usize = s.len();
    let first_end = find_section_end(s, 0, hi);
    let p = find_marker(s, 0, first_end);
    if first_end - p < 2 {
        return None;
    }
    let ids = match read_numbers(s, p + 2, first_end) {
        Some(ids) => ids,
        None => { return None; },
    };
    let mut stages: Vec<Vec<Mapping>> = Vec::new();
    proof {
        assert(rules_of(stages@) =~= Seq::empty());
    }
    if first_end >= hi {
        return Some((ids, stages));
    }
    let mut pos: usize = first_end + 2;
    loop
        invariant
            pos <= hi == s@.len(),
            almanac_of(s@) == match stages_from(s@, first_end as int + 2, Seq::empty()) {
                None => None,
                Some(found) => Some((ids@, found)),
            },
            stages_from(s@, first_end as int + 2, Seq::empty()) == stages_from(
                s@,
                pos as int,
                rules_of(stages@),
            ),
        decreases hi - pos,
    {
        let end = find_section_end(s, pos, hi);
        let header_end = find_line_end(s, pos, end);
        let found = if header_end < end {
            read_rules(s, header_end + 1, end)
        } else {
            Some(Vec::new())
        };
        let rules = match found {
            Some(rules) => rules,
            None => { return None; },
        };
        let ghost before = stages@;
        stages.push(rules);
        proof {
            assert(rules_of(stages@) =~= rules_of(before).push(rules@));
        }
        if end >= hi {
            return Some((ids, stages));
        }
        pos = end + 2;
    }
}

/// Some stage has no rule.
pub open spec fn some_stage_empty(stages: Seq<Seq<Mapping>>) -> bool {
    exists|i: int| 0 <= i < stages.len() && (#[trigger] stages[i]).len() == 0
}

/// Every rule of every stage is valid.
pub open spec fn every_rule_valid(stages: Seq<Seq<Mapping>>) -> bool {
    forall|i: int| 0 <= i < stages.len() ==> valid_rules(#[trigger] stages[i])
}

/// Reads an almanac from text and checks it: the seeds must come in pairs
/// that are valid ranges, every stage must have a rule, and every rule must
/// be valid.
pub fn input_generator(input: &str) -> (res: Result<(IDs, Mappings), InputError>)
    ensures
        almanac_of(input.spec_bytes()) is None <==> res == Err::<(IDs, Mappings), InputError>(
            InputError::BadText,
        ),
        res matches Ok(a) ==> almanac_of(input.spec_bytes()) == Some((a.0@, rules_of(a.1@)))
            && valid_seeds(a.0@) && valid_mappings(a.1@),
        almanac_of(input.spec_bytes()) matches Some(a) ==> {
            &&& res == Err::<(IDs, Mappings), InputError>(InputError::OddSeedCount) <==> a.0.len()
                % 2 == 1
            &&& res == Err::<(IDs, Mappings), InputError>(InputError::BadRange) <==> a.0.len() % 2
                == 0 && !valid_all(paired(a.0))
            &&& res == Err::<(IDs, Mappings), InputError>(InputError::EmptyStage) <==> valid_seeds(
                a.0,
            ) && some_stage_empty(a.1)
            &&& res == Err::<(IDs, Mappings), InputError>(InputError::BadRule) <==> valid_seeds(
                a.0,
            ) && !some_stage_empty(a.1) && !every_rule_valid(a.1)
            &&& res is Ok <==> valid_seeds(a.0) && !some_stage_empty(a.1) && every_rule_valid(a.1)
        },
{
    let almanac = match read_almanac(input.as_bytes()) {
        Some(a) => a,
        None => { return Err(InputError::BadText); },
    };
    proof {
        let stages = rules_of(almanac.1@);
        if has_empty_stage(almanac.1@) {
            let i = choose|i: int|
                0 <= i < almanac.1@.len() && (#[trigger] almanac.1@[i])@.len() == 0;
            assert(stages[i].len() == 0);
        }
        if some_stage_empty(stages) {
            let i = choose|i: int| 0 <= i < stages.len() && (#[trigger] stages[i]).len() == 0;
            assert(almanac.1@[i]@.len() == 0);
        }
        if valid_mappings(almanac.1@) {
            assert forall|i: int| 0 <= i < stages.len() implies valid_rules(
                #[trigger] stages[i],
            ) by {
                assert(valid_rules(almanac.1@[i]@));
            }
        }
        if every_rule_valid(stages) && !has_empty_stage(almanac.1@) {
            assert forall|i: int| 0 <= i < almanac.1@.len() implies (#[trigger] almanac.1@[i])@.len()
                > 0 && valid_rules(almanac.1@[i]@) by {
                assert(valid_rules(stages[i]));
            }
        }
    }
    match check_seeds(&almanac.0) {
        Err(e) => { return Err(e); },
        Ok(()) => {},
    }
    match check_mappings(&almanac.1) {
        Err(e) => { return Err(e); },
        Ok(()) => {},
    }
    Ok(almanac)
}

} // verus!
