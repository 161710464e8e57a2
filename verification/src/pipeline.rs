//! Running values and intervals through the stages of a pipeline.

use crate::interval::{
    first_leftover, in_piece, in_range, in_window, lemma_split_conserves_length,
    lemma_split_pointwise, mapped_part, opt_len, overlaps, second_leftover, split_ranges,
    translate, valid_range, valid_rule, Leftover, Mapping,
};
use std::collections::VecDeque;
use vstd::prelude::*;

verus! {

/// Every rule of the stage is valid.
pub open spec fn valid_rules(stage: Seq<Mapping>) -> bool {
    forall|k: int| 0 <= k < stage.len() ==> valid_rule(#[trigger] stage[k])
}

/// Every interval of the list is valid.
pub open spec fn valid_all(ranges: Seq<(u64, u64)>) -> bool {
    forall|i: int| 0 <= i < ranges.len() ==> valid_range(#[trigger] ranges[i])
}

/// Where the rules `stage[from..]` send `v`: the first rule whose window holds
/// `v` translates it, and a value that no rule claims stays as it is.
pub open spec fn apply_rules(stage: Seq<Mapping>, from: int, v: int) -> int
    decreases stage.len() - from,
{
    if from < 0 || from >= stage.len() {
        v
    } else if in_window(stage[from], v) {
        translate(stage[from], v)
    } else {
        apply_rules(stage, from + 1, v)
    }
}

/// Where one stage sends `v`.
pub open spec fn apply_stage(stage: Seq<Mapping>, v: int) -> int {
    apply_rules(stage, 0, v)
}

/// Some interval of the list holds `v`.
pub open spec fn covered(ranges: Seq<(u64, u64)>, v: int) -> bool {
    exists|i: int| 0 <= i < ranges.len() && in_range(#[trigger] ranges[i], v)
}

/// Some value held by `ranges` is sent to `w` by the stage.
pub open spec fn reached(ranges: Seq<(u64, u64)>, stage: Seq<Mapping>, w: int) -> bool {
    exists|v: int| covered(ranges, v) && #[trigger] apply_stage(stage, v) == w
}

/// Sum of the lengths of the intervals of the list.
pub open spec fn total_length(ranges: Seq<(u64, u64)>) -> int
    decreases ranges.len(),
{
    if ranges.len() == 0 {
        0
    } else {
        total_length(ranges.drop_last()) + ranges.last().1
    }
}

/// The interval shares no value with the window of any rule of the stage.
pub open spec fn untouched(r: (u64, u64), stage: Seq<Mapping>) -> bool {
    forall|k: int| 0 <= k < stage.len() ==> !overlaps(r, #[trigger] stage[k])
}

proof fn lemma_total_push(s: Seq<(u64, u64)>, x: (u64, u64))
    ensures
        total_length(s.push(x)) == total_length(s) + x.1,
{
    assert(s.push(x).drop_last() =~= s);
}

proof fn lemma_total_pop_front(s: Seq<(u64, u64)>)
    requires
        s.len() > 0,
    ensures
        total_length(s) == s[0].1 + total_length(s.subrange(1, s.len() as int)),
    decreases s.len(),
{
    let rest = s.subrange(1, s.len() as int);
    if s.len() == 1 {
        assert(s.drop_last().len() == 0);
        assert(total_length(s.drop_last()) == 0);
    } else {
        lemma_total_pop_front(s.drop_last());
        assert(rest.drop_last() =~= s.drop_last().subrange(1, s.len() - 1));
        assert(rest.last() == s.last());
    }
}

/// A list of valid intervals is at most as long as the values it holds.
pub proof fn lemma_total_at_least_len(s: Seq<(u64, u64)>)
    requires
        valid_all(s),
    ensures
        total_length(s) >= s.len(),
    decreases s.len(),
{
    if s.len() > 0 {
        assert(valid_range(s[s.len() - 1]));
        lemma_total_at_least_len(s.drop_last());
    }
}

proof fn lemma_covered_push(s: Seq<(u64, u64)>, x: (u64, u64))
    ensures
        forall|v: int|
            #![trigger covered(s.push(x), v)]
            #![trigger covered(s, v)]
            #![trigger in_range(x, v)]
            covered(s.push(x), v) <==> covered(s, v) || in_range(x, v),
{
    let t = s.push(x);
    assert forall|v: int| covered(t, v) <==> covered(s, v) || in_range(x, v) by {
        if covered(t, v) {
            let i = choose|i: int| 0 <= i < t.len() && in_range(#[trigger] t[i], v);
            if i < s.len() {
                assert(in_range(s[i], v));
            }
        }
        if covered(s, v) {
            let i = choose|i: int| 0 <= i < s.len() && in_range(#[trigger] s[i], v);
            assert(in_range(t[i], v));
        }
        if in_range(x, v) {
            assert(in_range(t[s.len() as int], v));
        }
    }
}

proof fn lemma_covered_pop_front(s: Seq<(u64, u64)>)
    requires
        s.len() > 0,
    ensures
        forall|v: int|
            #![trigger covered(s, v)]
            #![trigger covered(s.subrange(1, s.len() as int), v)]
            #![trigger in_range(s[0], v)]
            covered(s, v) <==> in_range(s[0], v) || covered(s.subrange(1, s.len() as int), v),
{
    let t = s.subrange(1, s.len() as int);
    assert forall|v: int| covered(s, v) <==> in_range(s[0], v) || covered(t, v) by {
        if covered(s, v) {
            let i = choose|i: int| 0 <= i < s.len() && in_range(#[trigger] s[i], v);
            if i > 0 {
                assert(in_range(t[i - 1], v));
            }
        }
        if covered(t, v) {
            let i = choose|i: int| 0 <= i < t.len() && in_range(#[trigger] t[i], v);
            assert(in_range(s[i + 1], v));
        }
    }
}

/// Sends one value through one stage: the first rule whose source window
/// holds the value translates it; a value that no rule claims passes through.
pub fn remap_value(id: u64, stage: &Vec<Mapping>) -> (res: u64)
    requires
        valid_rules(stage@),
    ensures
        res == apply_stage(stage@, id as int),
{
    let mut k: usize = 0;
    while k < stage.len()
        invariant
            k <= stage.len(),
            valid_rules(stage@),
            apply_stage(stage@, id as int) == apply_rules(stage@, k as int, id as int),
        decreases stage.len() - k,
    {
        let ((value_start, key_start), map_len) = stage[k];
        assert(valid_rule(stage@[k as int]));
        if key_start <= id && id - key_start < map_len {
            return value_start + (id - key_start);
        }
        k += 1;
    }
    id
}

/// Sends every interval of `ranges` through one stage. Each interval is split
/// against the rules in turn: what a rule's window holds is translated and set
/// aside, what lies before the window goes on to the later rules, and what lies
/// after it queues up to be split afresh. What no rule claims passes through.
pub fn remap_ranges(ranges: VecDeque<(u64, u64)>, stage: &Vec<Mapping>) -> (out: VecDeque<
    (u64, u64),
>)
    requires
        valid_all(ranges@),
        valid_rules(stage@),
    ensures
        valid_all(out@),
        total_length(out@) == total_length(ranges@),
        forall|v: int| #[trigger] covered(ranges@, v) ==> covered(out@, apply_stage(stage@, v)),
        forall|w: int| #[trigger] covered(out@, w) ==> reached(ranges@, stage@, w),
        forall|i: int|
            0 <= i < ranges@.len() && untouched(#[trigger] ranges@[i], stage@) ==> out@.contains(
                ranges@[i],
            ),
{
    let ghost input = ranges@;
    let mut queue = ranges;
    let mut out: VecDeque<(u64, u64)> = VecDeque::new();
    proof {
        assert(total_length(out@) == 0);
    }
    while queue.len() > 0
        invariant
            valid_rules(stage@),
            valid_all(queue@),
            valid_all(out@),
            total_length(out@) + total_length(queue@) == total_length(input),
            forall|v: int| #[trigger] covered(queue@, v) ==> covered(input, v),
            forall|v: int| #[trigger]
                covered(input, v) ==> covered(queue@, v) || covered(
                    out@,
                    apply_stage(stage@, v),
                ),
            forall|w: int| #[trigger] covered(out@, w) ==> reached(input, stage@, w),
            forall|i: int|
                0 <= i < input.len() && untouched(#[trigger] input[i], stage@) ==> out@.contains(
                    input[i],
                ) || queue@.contains(input[i]),
        decreases total_length(queue@),
    {
        let ghost queue_before = queue@;
        let ghost out_before = out@;
        let first = queue.pop_front().unwrap();
        proof {
            lemma_total_pop_front(queue_before);
            lemma_total_at_least_len(queue_before);
            lemma_covered_pop_front(queue_before);
            assert(valid_range(queue_before[0]));
            assert forall|i: int| 0 <= i < queue@.len() implies valid_range(
                #[trigger] queue@[i],
            ) by {
                assert(queue@[i] == queue_before[i + 1]);
            }
            assert forall|i: int|
                0 <= i < input.len() && untouched(
                    #[trigger] input[i],
                    stage@,
                ) implies out@.contains(input[i]) || queue@.contains(input[i]) || first
                == input[i] by {
                if queue_before.contains(input[i]) {
                    let j = choose|j: int|
                        0 <= j < queue_before.len() && queue_before[j] == input[i];
                    if j > 0 {
                        assert(queue@[j - 1] == input[i]);
                    }
                }
            }
        }
        let mut pending: Leftover = Some(first);
        let mut k: usize = 0;
        while k < stage.len() && pending.is_some()
            invariant
                k <= stage.len(),
                valid_rules(stage@),
                valid_all(queue@),
                valid_all(out@),
                pending matches Some(p) ==> valid_range(p),
                total_length(out@) + total_length(queue@) + opt_len(pending) == total_length(
                    input,
                ),
                total_length(out_before) + total_length(queue_before) == total_length(input),
                total_length(out@) >= total_length(out_before),
                pending.is_none() ==> total_length(out@) > total_length(out_before),
                forall|v: int| #[trigger] covered(queue@, v) ==> covered(input, v),
                forall|v: int| #[trigger]
                    in_piece(pending, v) ==> covered(input, v) && apply_stage(stage@, v)
                        == apply_rules(stage@, k as int, v),
                forall|v: int| #[trigger]
                    covered(input, v) ==> covered(queue@, v) || in_piece(pending, v) || covered(
                        out@,
                        apply_stage(stage@, v),
                    ),
                forall|w: int| #[trigger] covered(out@, w) ==> reached(input, stage@, w),
                forall|i: int|
                    0 <= i < input.len() && untouched(
                        #[trigger] input[i],
                        stage@,
                    ) ==> out@.contains(input[i]) || queue@.contains(input[i]) || pending
                        == Some(input[i]),
            decreases stage.len() - k,
        {
            let cur = pending.unwrap();
            let rule = stage[k];
            let ghost queue_mid = queue@;
            let ghost out_mid = out@;
            assert(valid_rule(stage@[k as int]));
            let (mapped, rest, extra) = split_ranges(cur, rule);
            proof {
                lemma_split_pointwise(cur, rule);
                lemma_split_conserves_length(cur, rule);
            }
            if let Some(r) = mapped {
                out.push_back(r);
                proof {
                    lemma_total_push(out_mid, r);
                    lemma_covered_push(out_mid, r);
                    assert forall|w: int| in_range(r, w) implies reached(input, stage@, w) by {
                        let v = w - rule.0.0 + rule.0.1;
                        assert(translate(rule, v) == w);
                        assert(in_piece(mapped_part(cur, rule), translate(rule, v)));
                        assert(in_piece(pending, v));
                        assert(apply_stage(stage@, v) == w);
                    }
                    assert forall|i: int| 0 <= i < out_mid.len() implies out@[i]
                        == out_mid[i] by {}
                }
            }
            if let Some(e) = extra {
                queue.push_back(e);
                proof {
                    lemma_total_push(queue_mid, e);
                    lemma_covered_push(queue_mid, e);
                    assert forall|v: int| in_range(e, v) implies covered(input, v) by {
                        assert(in_piece(first_leftover(cur, rule), v) || in_piece(
                            second_leftover(cur, rule),
                            v,
                        ));
                        assert(in_piece(pending, v));
                    }
                    assert forall|i: int| 0 <= i < queue_mid.len() implies queue@[i]
                        == queue_mid[i] by {}
                }
            }
            proof {
                assert forall|v: int| #[trigger] in_piece(rest, v) implies covered(input, v)
                    && apply_stage(stage@, v) == apply_rules(stage@, k as int + 1, v) by {
                    assert(in_piece(pending, v));
                }
                assert forall|v: int| #[trigger] covered(input, v) implies covered(queue@, v)
                    || in_piece(rest, v) || covered(out@, apply_stage(stage@, v)) by {
                    if in_piece(pending, v) {
                        if in_window(rule, v) {
                            assert(in_piece(mapped_part(cur, rule), translate(rule, v)));
                        }
                    }
                }
                assert forall|i: int|
                    0 <= i < input.len() && untouched(
                        #[trigger] input[i],
                        stage@,
                    ) implies out@.contains(input[i]) || queue@.contains(input[i]) || rest
                    == Some(input[i]) by {
                    if out_mid.contains(input[i]) {
                        let j = choose|j: int| 0 <= j < out_mid.len() && out_mid[j] == input[i];
                        assert(out@[j] == input[i]);
                    } else if queue_mid.contains(input[i]) {
                        let j = choose|j: int|
                            0 <= j < queue_mid.len() && queue_mid[j] == input[i];
                        assert(queue@[j] == input[i]);
                    } else {
                        assert(!overlaps(cur, stage@[k as int]));
                    }
                }
            }
            pending = rest;
            k += 1;
        }
        if let Some(cur) = pending {
            let ghost out_mid = out@;
            out.push_back(cur);
            proof {
                lemma_total_push(out_mid, cur);
                lemma_covered_push(out_mid, cur);
                assert forall|w: int| in_range(cur, w) implies reached(input, stage@, w) by {
                    assert(in_piece(pending, w));
                    assert(apply_stage(stage@, w) == w);
                }
                assert forall|i: int|
                    0 <= i < input.len() && untouched(
                        #[trigger] input[i],
                        stage@,
                    ) implies out@.contains(input[i]) || queue@.contains(input[i]) by {
                    if out_mid.contains(input[i]) {
                        let j = choose|j: int| 0 <= j < out_mid.len() && out_mid[j] == input[i];
                        assert(out@[j] == input[i]);
                    } else if pending == Some(input[i]) {
                        assert(out@[out_mid.len() as int] == input[i]);
                    }
                }
            }
        }
        proof {
            lemma_total_at_least_len(queue@);
            assert(total_length(queue@) < total_length(queue_before));
        }
    }
    out
}

/// Every stage of the pipeline has at least one rule, and every rule is valid.
pub open spec fn valid_mappings(mappings: Seq<Vec<Mapping>>) -> bool {
    forall|s: int|
        0 <= s < mappings.len() ==> (#[trigger] mappings[s])@.len() > 0 && valid_rules(
            mappings[s]@,
        )
}

/// Where the first `upto` stages of the pipeline, taken in order, send `v`.
pub open spec fn location_after(mappings: Seq<Vec<Mapping>>, upto: int, v: int) -> int
    decreases upto,
{
    if upto <= 0 {
        v
    } else {
        apply_stage(mappings[upto - 1]@, location_after(mappings, upto - 1, v))
    }
}

/// Where the whole pipeline sends `v`.
pub open spec fn location(mappings: Seq<Vec<Mapping>>, v: int) -> int {
    location_after(mappings, mappings.len() as int, v)
}

/// Some value of `range` is sent to `w` by the first `upto` stages.
pub open spec fn origin_exists(
    range: (u64, u64),
    mappings: Seq<Vec<Mapping>>,
    upto: int,
    w: int,
) -> bool {
    exists|v: int| in_range(range, v) && #[trigger] location_after(mappings, upto, v) == w
}

/// The intervals `out` are what the first `upto` stages make of `range`: they
/// are valid, they hold as many values as `range` does, and the values they
/// hold are exactly those that the values of `range` are sent to.
pub open spec fn resolves(
    range: (u64, u64),
    mappings: Seq<Vec<Mapping>>,
    upto: int,
    out: Seq<(u64, u64)>,
) -> bool {
    &&& valid_all(out)
    &&& total_length(out) == range.1
    &&& forall|v: int|
        in_range(range, v) ==> covered(out, #[trigger] location_after(mappings, upto, v))
    &&& forall|w: int| #[trigger] covered(out, w) ==> origin_exists(range, mappings, upto, w)
}

/// `res` is the least start among the intervals of the list.
pub open spec fn is_lowest_start(ranges: Seq<(u64, u64)>, res: u64) -> bool {
    &&& exists|i: int| 0 <= i < ranges.len() && (#[trigger] ranges[i]).0 == res
    &&& forall|i: int| 0 <= i < ranges.len() ==> res <= (#[trigger] ranges[i]).0
}

/// `res` is the least location that the pipeline gives to a value held by
/// `ranges`, or `u64::MAX` when the list is empty.
pub open spec fn is_lowest_location(
    ranges: Seq<(u64, u64)>,
    mappings: Seq<Vec<Mapping>>,
    res: u64,
) -> bool {
    &&& forall|v: int| #[trigger] covered(ranges, v) ==> res <= location(mappings, v)
    &&& ranges.len() > 0 ==> exists|v: int|
        covered(ranges, v) && #[trigger] location(mappings, v) == res
    &&& ranges.len() == 0 ==> res == u64::MAX
}

/// Sends one value through every stage of the pipeline in order.
pub fn seed_location(id: u64, mappings: &Vec<Vec<Mapping>>) -> (res: u64)
    requires
        valid_mappings(mappings@),
    ensures
        res == location(mappings@, id as int),
{
    let mut cur: u64 = id;
    let mut s: usize = 0;
    while s < mappings.len()
        invariant
            s <= mappings.len(),
            valid_mappings(mappings@),
            cur == location_after(mappings@, s as int, id as int),
        decreases mappings.len() - s,
    {
        assert(valid_rules(mappings@[s as int]@));
        cur = remap_value(cur, &mappings[s]);
        s += 1;
    }
    cur
}

/// Sends one interval through every stage of the pipeline in order, each
/// stage working on all that the stage before it gave.
pub fn range_locations(range: (u64, u64), mappings: &Vec<Vec<Mapping>>) -> (out: VecDeque<
    (u64, u64),
>)
    requires
        valid_range(range),
        valid_mappings(mappings@),
    ensures
        resolves(range, mappings@, mappings@.len() as int, out@),
{
    let mut cur: VecDeque<(u64, u64)> = VecDeque::new();
    cur.push_back(range);
    proof {
        assert(cur@ =~= seq![range]);
        assert(cur@.drop_last() =~= Seq::empty());
        assert(total_length(cur@.drop_last()) == 0);
        assert forall|v: int| in_range(range, v) implies covered(
            cur@,
            #[trigger] location_after(mappings@, 0, v),
        ) by {
            assert(in_range(cur@[0], v));
        }
        assert forall|w: int| #[trigger] covered(cur@, w) implies origin_exists(
            range,
            mappings@,
            0,
            w,
        ) by {
            assert(location_after(mappings@, 0, w) == w);
        }
    }
    let mut s: usize = 0;
    while s < mappings.len()
        invariant
            s <= mappings.len(),
            valid_mappings(mappings@),
            resolves(range, mappings@, s as int, cur@),
        decreases mappings.len() - s,
    {
        let ghost before = cur@;
        let ghost stage = mappings@[s as int]@;
        assert(valid_rules(mappings@[s as int]@));
        cur = remap_ranges(cur, &mappings[s]);
        proof {
            assert forall|v: int| in_range(range, v) implies covered(
                cur@,
                #[trigger] location_after(mappings@, s as int + 1, v),
            ) by {
                let u = location_after(mappings@, s as int, v);
                assert(covered(before, u));
                assert(covered(cur@, apply_stage(stage, u)));
            }
            assert forall|w: int| #[trigger] covered(cur@, w) implies origin_exists(
                range,
                mappings@,
                s as int + 1,
                w,
            ) by {
                assert(reached(before, stage, w));
                let u = choose|u: int| covered(before, u) && #[trigger] apply_stage(stage, u) == w;
                assert(origin_exists(range, mappings@, s as int, u));
                let v = choose|v: int|
                    in_range(range, v) && #[trigger] location_after(mappings@, s as int, v) == u;
                assert(location_after(mappings@, s as int + 1, v) == w);
            }
        }
        s += 1;
    }
    cur
}

/// The least start among the intervals of a list that is not empty.
pub fn lowest_start(ranges: &VecDeque<(u64, u64)>) -> (res: u64)
    requires
        ranges@.len() > 0,
    ensures
        is_lowest_start(ranges@, res),
{
    let mut res: u64 = ranges[0].0;
    let mut i: usize = 1;
    while i < ranges.len()
        invariant
            1 <= i <= ranges@.len(),
            exists|j: int| 0 <= j < i && (#[trigger] ranges@[j]).0 == res,
            forall|j: int| 0 <= j < i ==> res <= (#[trigger] ranges@[j]).0,
        decreases ranges@.len() - i,
    {
        if ranges[i].0 < res {
            res = ranges[i].0;
        }
        i += 1;
    }
    res
}

/// The least location that the pipeline gives to a value of `range`.
pub fn lowest_location(range: (u64, u64), mappings: &Vec<Vec<Mapping>>) -> (res: u64)
    requires
        valid_range(range),
        valid_mappings(mappings@),
    ensures
        is_lowest_location(seq![range], mappings@, res),
{
    let out = range_locations(range, mappings);
    let res = lowest_start(&out);
    proof {
        lemma_lowest_of_resolved(range, mappings@, out@, res);
    }
    res
}

/// The least start of what the whole pipeline makes of an interval is the
/// least location of the interval's values.
pub proof fn lemma_lowest_of_resolved(
    range: (u64, u64),
    mappings: Seq<Vec<Mapping>>,
    out: Seq<(u64, u64)>,
    res: u64,
)
    requires
        valid_range(range),
        resolves(range, mappings, mappings.len() as int, out),
        is_lowest_start(out, res),
    ensures
        is_lowest_location(seq![range], mappings, res),
{
    let one = seq![range];
    let n = mappings.len() as int;
    assert forall|v: int| #[trigger] covered(one, v) implies res <= location(mappings, v) by {
        let w = location_after(mappings, n, v);
        assert(covered(out, w));
        let i = choose|i: int| 0 <= i < out.len() && in_range(#[trigger] out[i], w);
        assert(res <= out[i].0);
    }
    let j = choose|j: int| 0 <= j < out.len() && (#[trigger] out[j]).0 == res;
    assert(valid_range(out[j]));
    assert(in_range(out[j], res as int));
    assert(covered(out, res as int));
    assert(origin_exists(range, mappings, n, res as int));
    let v = choose|v: int| in_range(range, v) && #[trigger] location_after(mappings, n, v) == res;
    assert(in_range(one[0], v));
    assert(covered(one, v) && location(mappings, v) == res);
}

/// Of a single value, the pipeline for intervals makes a single interval of
/// one value, which starts where the pipeline for values sends that value.
pub proof fn lemma_single_value(v: u64, mappings: Seq<Vec<Mapping>>, out: Seq<(u64, u64)>)
    requires
        resolves((v, 1u64), mappings, mappings.len() as int, out),
    ensures
        out.len() == 1,
        out[0].0 == location(mappings, v as int),
        out[0].1 == 1,
{
    lemma_total_at_least_len(out);
    if out.len() == 1 {
        assert(out.drop_last().len() == 0);
        assert(total_length(out.drop_last()) == 0);
        assert(valid_range(out[0]));
        let w = location_after(mappings, mappings.len() as int, v as int);
        assert(in_range((v, 1u64), v as int));
        assert(covered(out, w));
    }
}

/// The least location over the range that holds the single value `v` is the
/// location of `v`.
pub proof fn lemma_single_value_lowest(v: u64, mappings: Seq<Vec<Mapping>>, res: u64)
    requires
        is_lowest_location(seq![(v, 1u64)], mappings, res),
    ensures
        res == location(mappings, v as int),
{
    let one = seq![(v, 1u64)];
    let u = choose|u: int| covered(one, u) && #[trigger] location(mappings, u) == res;
    let i = choose|i: int| 0 <= i < one.len() && in_range(#[trigger] one[i], u);
    assert(u == v);
}

} // verus!
