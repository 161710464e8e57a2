//! The two questions asked of an almanac: the lowest location of a list of
//! seeds, and the lowest location of a list of seed ranges.

use crate::interval::{
    in_range, is_valid_range, is_valid_rule, valid_range, valid_rule, IDs, Mapping, Mappings,
};
use crate::pipeline::{
    covered, is_lowest_location, location, lowest_location, seed_location, valid_all,
    valid_mappings, valid_rules,
};
use itertools::Itertools;
use vstd::prelude::*;

verus! {

/// Why an input was turned down.
#[derive(Clone, Copy, Debug, PartialEq, Eq)]
pub enum InputError {
    /// The text is no almanac.
    BadText,
    /// The seed list cannot be read as pairs.
    OddSeedCount,
    /// A seed range is empty or runs past the largest value.
    BadRange,
    /// A stage has no rule.
    EmptyStage,
    /// A rule is empty, or one of its windows runs past the largest value.
    BadRule,
}

/// The seed list read as ranges: each two consecutive values are the start
/// and the length of one range.
pub open spec fn paired(ids: Seq<u64>) -> Seq<(u64, u64)> {
    Seq::new((ids.len() / 2) as nat, |i: int| (ids[2 * i], ids[2 * i + 1]))
}

/// The seed list can be read as ranges, and each of them is valid.
pub open spec fn valid_seeds(ids: Seq<u64>) -> bool {
    ids.len() % 2 == 0 && valid_all(paired(ids))
}

/// Some stage of the pipeline has no rule.
pub open spec fn has_empty_stage(mappings: Seq<Vec<Mapping>>) -> bool {
    exists|s: int| 0 <= s < mappings.len() && (#[trigger] mappings[s])@.len() == 0
}

/// `res` is the least location that the pipeline gives to a seed of the list,
/// or `u64::MAX` when the list is empty.
pub open spec fn is_lowest_of_seeds(ids: Seq<u64>, mappings: Seq<Vec<Mapping>>, res: u64) -> bool {
    &&& forall|i: int| 0 <= i < ids.len() ==> res <= location(mappings, #[trigger] ids[i] as int)
    &&& ids.len() > 0 ==> exists|i: int|
        0 <= i < ids.len() && location(mappings, #[trigger] ids[i] as int) == res
    &&& ids.len() == 0 ==> res == u64::MAX
}

/// Calls `Itertools::tuples` on the seed list to read it as pairs. The pair at
/// index `i` holds the values at `2 * i` and `2 * i + 1`; a last value without
/// a partner is left out.
#[verifier::external_body]
fn seed_ranges(ids: &Vec<u64>) -> (ranges: Vec<(u64, u64)>)
    ensures
        ranges@ == paired(ids@),
{
    ids.clone().into_iter().tuples().collect()
}

/// Accepts a seed list that can be read as valid ranges, and says what is
/// wrong with any other.
pub fn check_seeds(ids: &Vec<u64>) -> (res: Result<(), InputError>)
    ensures
        res is Ok <==> valid_seeds(ids@),
        res == Err::<(), InputError>(InputError::OddSeedCount) <==> ids@.len() % 2 == 1,
        res == Err::<(), InputError>(InputError::BadRange) <==> ids@.len() % 2 == 0 && !valid_all(
            paired(ids@),
        ),
{
    if ids.len() % 2 == 1 {
        return Err(InputError::OddSeedCount);
    }
    let n: usize = ids.len() / 2;
    let mut i: usize = 0;
    while i < n
        invariant
            i <= n,
            2 * n == ids.len(),
            forall|j: int| 0 <= j < i ==> valid_range(#[trigger] paired(ids@)[j]),
        decreases n - i,
    {
        if !is_valid_range((ids[2 * i], ids[2 * i + 1])) {
            assert(!valid_range(paired(ids@)[i as int]));
            return Err(InputError::BadRange);
        }
        i += 1;
    }
    Ok(())
}

/// Accepts a pipeline whose stages all have rules and whose rules are all
/// valid, and says what is wrong with any other.
pub fn check_mappings(mappings: &Vec<Vec<Mapping>>) -> (res: Result<(), InputError>)
    ensures
        res is Ok <==> valid_mappings(mappings@),
        res == Err::<(), InputError>(InputError::EmptyStage) <==> has_empty_stage(mappings@),
        res == Err::<(), InputError>(InputError::BadRule) <==> !has_empty_stage(mappings@)
            && !valid_mappings(mappings@),
{
    let mut s: usize = 0;
    while s < mappings.len()
        invariant
            s <= mappings.len(),
            forall|t: int| 0 <= t < s ==> (#[trigger] mappings@[t])@.len() > 0,
        decreases mappings.len() - s,
    {
        if mappings[s].len() == 0 {
            assert(mappings@[s as int]@.len() == 0);
            return Err(InputError::EmptyStage);
        }
        s += 1;
    }
    assert(!has_empty_stage(mappings@));
    s = 0;
    while s < mappings.len()
        invariant
            s <= mappings.len(),
            !has_empty_stage(mappings@),
            forall|t: int|
                0 <= t < s ==> (#[trigger] mappings@[t])@.len() > 0 && valid_rules(mappings@[t]@),
        decreases mappings.len() - s,
    {
        let stage = &mappings[s];
        let mut k: usize = 0;
        while k < stage.len()
            invariant
                k <= stage.len(),
                s < mappings.len(),
                stage == mappings@[s as int],
                !has_empty_stage(mappings@),
                forall|j: int| 0 <= j < k ==> valid_rule(#[trigger] stage@[j]),
            decreases stage.len() - k,
        {
            if !is_valid_rule(stage[k]) {
                assert(!valid_rule(stage@[k as int]));
                assert(!valid_rules(mappings@[s as int]@));
                return Err(InputError::BadRule);
            }
            k += 1;
        }
        assert(mappings@[s as int]@.len() > 0);
        s += 1;
    }
    Ok(())
}

/// The lowest location among the seeds of the list, each seed being sent
/// through the whole pipeline.
pub fn part_one(input: &(IDs, Mappings)) -> (res: u64)
    requires
        valid_mappings(input.1@),
    ensures
        is_lowest_of_seeds(input.0@, input.1@, res),
{
    let ids = &input.0;
    let mappings = &input.1;
    let mut min_id: u64 = u64::MAX;
    let mut i: usize = 0;
    while i < ids.len()
        invariant
            i <= ids.len(),
            valid_mappings(mappings@),
            is_lowest_of_seeds(ids@.take(i as int), mappings@, min_id),
        decreases ids.len() - i,
    {
        let id = seed_location(ids[i], mappings);
        let ghost before = ids@.take(i as int);
        let ghost after = ids@.take(i as int + 1);
        proof {
            assert(after[i as int] == ids@[i as int]);
            assert forall|j: int| 0 <= j < i implies after[j] == before[j] by {}
            if i > 0 {
                let j = choose|j: int|
                    0 <= j < before.len() && location(mappings@, #[trigger] before[j] as int)
                        == min_id;
                assert(after[j] == before[j]);
            }
        }
        if id < min_id {
            min_id = id;
        }
        i += 1;
    }
    assert(ids@.take(ids@.len() as int) =~= ids@);
    min_id
}

/// The lowest location among all the values of the seed ranges, the seed list
/// being read as ranges and each range being sent through the whole pipeline.
pub fn part_two_optimized(input: &(IDs, Mappings)) -> (res: u64)
    requires
        valid_seeds(input.0@),
        valid_mappings(input.1@),
    ensures
        is_lowest_location(paired(input.0@), input.1@, res),
{
    let mappings = &input.1;
    let id_ranges = seed_ranges(&input.0);
    let mut total_min: u64 = u64::MAX;
    let mut i: usize = 0;
    while i < id_ranges.len()
        invariant
            i <= id_ranges.len(),
            valid_all(id_ranges@),
            valid_mappings(mappings@),
            is_lowest_location(id_ranges@.take(i as int), mappings@, total_min),
        decreases id_ranges.len() - i,
    {
        let range = id_ranges[i];
        assert(valid_range(id_ranges@[i as int]));
        let curr_min = lowest_location(range, mappings);
        let ghost before = id_ranges@.take(i as int);
        let ghost after = id_ranges@.take(i as int + 1);
        proof {
            assert(after =~= before.push(range));
            lemma_covered_one_more(before, range);
            let v = choose|v: int|
                covered(seq![range], v) && #[trigger] location(mappings@, v) == curr_min;
            assert(covered(after, v));
            if i > 0 {
                let u = choose|u: int|
                    covered(before, u) && #[trigger] location(mappings@, u) == total_min;
                assert(covered(after, u));
            }
        }
        if curr_min < total_min {
            total_min = curr_min;
        }
        i += 1;
    }
    assert(id_ranges@.take(id_ranges@.len() as int) =~= id_ranges@);
    total_min
}

proof fn lemma_covered_one_more(s: Seq<(u64, u64)>, x: (u64, u64))
    ensures
        forall|v: int|
            #![trigger covered(s.push(x), v)]
            #![trigger covered(s, v)]
            #![trigger covered(seq![x], v)]
            covered(s.push(x), v) <==> covered(s, v) || covered(seq![x], v),
{
    let t = s.push(x);
    let one = seq![x];
    assert forall|v: int| covered(t, v) <==> covered(s, v) || covered(one, v) by {
        if covered(t, v) {
            let i = choose|i: int| 0 <= i < t.len() && in_range(#[trigger] t[i], v);
            if i < s.len() {
                assert(in_range(s[i], v));
            } else {
                assert(in_range(one[0], v));
            }
        }
        if covered(s, v) {
            let i = choose|i: int| 0 <= i < s.len() && in_range(#[trigger] s[i], v);
            assert(in_range(t[i], v));
        }
        if covered(one, v) {
            let i = choose|i: int| 0 <= i < one.len() && in_range(#[trigger] one[i], v);
            assert(in_range(t[s.len() as int], v));
        }
    }
}

} // verus!
