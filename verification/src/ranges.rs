//! Mapped-range enumeration: readable mappings inside a query window,
//! normalised, merged across small gaps and clipped to the window.
use crate::coalesce::{
    carries, coalesce, coalesce_onto, keeps_head, lemma_coalesce_carries, lemma_coalesce_idempotent,
    lemma_filter_skip,
};
use crate::mapping::RawMapping;
use crate::region::{clip, normalize, normalized, NormalizedRegion};
use vstd::prelude::*;

verus! {

/// Two adjacent regions merge when the gap tolerance is not negative, both
/// carry the same flags, and the second starts at or after the base of the
/// first and no further than `gap` past its end. The joined region runs from
/// the base of the first to the end of the second and keeps the flags of the
/// first. A negative tolerance never merges anything.
pub open spec fn joined_ranges(first: NormalizedRegion, second: NormalizedRegion, gap: i64) -> Option<
    NormalizedRegion,
> {
    if gap >= 0 && first.flags == second.flags && first.base <= second.base && second.base
        <= first.end() + gap {
        Some(
            NormalizedRegion {
                base: first.base,
                size: (second.end() - first.base) as u64,
                flags: first.flags,
            },
        )
    } else {
        None
    }
}

/// The merge rule of mapped-range coalescing under the gap tolerance `gap`.
pub open spec fn range_rule(gap: i64) -> spec_fn(NormalizedRegion, NormalizedRegion) -> Option<
    NormalizedRegion,
> {
    |first: NormalizedRegion, second: NormalizedRegion| joined_ranges(first, second, gap)
}

/// The regions that one coalescing pass over `regions` produces.
pub open spec fn coalesced_ranges(regions: Seq<NormalizedRegion>, gap: i64) -> Seq<NormalizedRegion> {
    coalesce(regions, range_rule(gap))
}

/// Joins two adjacent regions under the gap tolerance `gap`, or hands both
/// back unchanged.
pub fn merge_ranges(first: NormalizedRegion, second: NormalizedRegion, gap: i64) -> (r: Result<
    NormalizedRegion,
    (NormalizedRegion, NormalizedRegion),
>)
    requires
        first.wf(),
        second.wf(),
    ensures
        r == match joined_ranges(first, second, gap) {
            Some(joined) => Ok::<NormalizedRegion, (NormalizedRegion, NormalizedRegion)>(joined),
            None => Err::<NormalizedRegion, (NormalizedRegion, NormalizedRegion)>((first, second)),
        },
        r matches Ok(joined) ==> joined.wf() && joined.base == first.base && joined.end()
            == second.end() && joined.flags == first.flags,
{
    if gap >= 0 && first.flags == second.flags && first.base <= second.base && second.base as u128
        <= first.base as u128 + first.size as u128 + gap as u128 {
        Ok(
            NormalizedRegion {
                base: first.base,
                size: second.base - first.base + second.size,
                flags: first.flags,
            },
        )
    } else {
        Err((first, second))
    }
}

/// Whether every region of `regions` is well formed.
pub open spec fn all_wf(regions: Seq<NormalizedRegion>) -> bool {
    forall|i: int| 0 <= i < regions.len() ==> (#[trigger] regions[i]).wf()
}

/// What a pass that holds `pending` and has read the first `read` of
/// `regions` will still emit.
pub open spec fn ranges_to_come(
    pending: Option<NormalizedRegion>,
    regions: Seq<NormalizedRegion>,
    read: int,
    gap: i64,
) -> Seq<NormalizedRegion> {
    match pending {
        Some(acc) => coalesce_onto(acc, regions.skip(read), range_rule(gap)),
        None => coalesce(regions.skip(read), range_rule(gap)),
    }
}

/// Merges each run of adjacent regions of `regions` in one pass.
pub fn coalesce_ranges(regions: &Vec<NormalizedRegion>, gap: i64) -> (out: Vec<NormalizedRegion>)
    requires
        all_wf(regions@),
    ensures
        out@ == coalesced_ranges(regions@, gap),
        all_wf(out@),
{
    let mut out: Vec<NormalizedRegion> = Vec::new();
    let mut pending: Option<NormalizedRegion> = None;
    let mut i: usize = 0;
    assert(regions@.skip(0) =~= regions@);
    while i < regions.len()
        invariant
            i <= regions.len(),
            all_wf(regions@),
            all_wf(out@),
            pending matches Some(acc) ==> acc.wf(),
            out@ + ranges_to_come(pending, regions@, i as int, gap) == coalesced_ranges(
                regions@,
                gap,
            ),
        decreases regions.len() - i,
    {
        let next = regions[i];
        let ghost later = regions@.skip(i + 1);
        assert(regions@.skip(i as int).drop_first() =~= later);
        assert(regions@[i as int].wf());
        match pending {
            None => {
                pending = Some(next);
            },
            Some(acc) => {
                match merge_ranges(acc, next, gap) {
                    Ok(joined) => {
                        pending = Some(joined);
                    },
                    Err((done, fresh)) => {
                        assert(out@.push(done) + coalesce_onto(fresh, later, range_rule(gap))
                            =~= out@ + (seq![done] + coalesce_onto(fresh, later, range_rule(gap))));
                        out.push(done);
                        pending = Some(fresh);
                    },
                }
            },
        }
        i = i + 1;
    }
    assert(regions@.skip(i as int) =~= Seq::<NormalizedRegion>::empty());
    match pending {
        Some(last) => {
            assert(out@.push(last) =~= out@ + seq![last]);
            out.push(last);
        },
        None => {
            assert(out@ + Seq::<NormalizedRegion>::empty() =~= out@);
        },
    }
    out
}

/// Joining two regions keeps the base and the flags of the first, which is
/// all that decides a merge from the left.
pub proof fn lemma_range_rule_keeps_head(gap: i64)
    ensures
        keeps_head(range_rule(gap)),
{
    assert forall|a: NormalizedRegion, b: NormalizedRegion, c: NormalizedRegion|
        #![trigger range_rule(gap)(a, b), range_rule(gap)(b, c)]
        range_rule(gap)(b, c) is Some implies (range_rule(gap)(a, range_rule(gap)(b, c).unwrap())
        is Some <==> range_rule(gap)(a, b) is Some) by {}
}

/// Mapped-range coalescing is idempotent: a second pass over what a pass
/// produced, under the same gap tolerance, produces it again unchanged.
pub proof fn lemma_coalesced_ranges_idempotent(regions: Seq<NormalizedRegion>, gap: i64)
    ensures
        coalesced_ranges(coalesced_ranges(regions, gap), gap) == coalesced_ranges(regions, gap),
{
    lemma_range_rule_keeps_head(gap);
    lemma_coalesce_idempotent(regions, range_rule(gap));
}

/// Two regions in address order with the same flags, the second starting no
/// further than the tolerance past the end of the first, become one region
/// that runs from the base of the first to the end of the second.
pub proof fn lemma_ranges_within_gap_merge(first: NormalizedRegion, second: NormalizedRegion, gap: i64)
    requires
        first.wf(),
        second.wf(),
        first.flags == second.flags,
        first.base <= second.base,
        0 <= gap,
        second.base - first.end() <= gap,
    ensures
        coalesced_ranges(seq![first, second], gap) == seq![
            NormalizedRegion {
                base: first.base,
                size: (second.end() - first.base) as u64,
                flags: first.flags,
            },
        ],
{
    let pair = seq![first, second];
    let joined = joined_ranges(first, second, gap).unwrap();
    assert(pair.drop_first() =~= seq![second]);
    assert(seq![second].drop_first() =~= Seq::<NormalizedRegion>::empty());
    assert(coalesce_onto(joined, Seq::<NormalizedRegion>::empty(), range_rule(gap)) =~= seq![joined]);
    assert(coalesce_onto(first, seq![second], range_rule(gap)) == coalesce_onto(
        joined,
        seq![second].drop_first(),
        range_rule(gap),
    ));
}

/// Two regions stay separate, in the order given, when the second starts
/// more than the tolerance past the end of the first, when their flags
/// differ, when the tolerance is negative, or when the second starts before
/// the first.
pub proof fn lemma_ranges_beyond_gap_stay(first: NormalizedRegion, second: NormalizedRegion, gap: i64)
    requires
        second.base - first.end() > gap || first.flags != second.flags || gap < 0 || second.base
            < first.base,
    ensures
        coalesced_ranges(seq![first, second], gap) == seq![first, second],
{
    let pair = seq![first, second];
    assert(pair.drop_first() =~= seq![second]);
    assert(seq![second].drop_first() =~= Seq::<NormalizedRegion>::empty());
    assert(coalesce_onto(second, Seq::<NormalizedRegion>::empty(), range_rule(gap)) =~= seq![second]);
    assert(coalesce_onto(first, seq![second], range_rule(gap)) == seq![first] + coalesce_onto(
        second,
        seq![second].drop_first(),
        range_rule(gap),
    ));
    assert(seq![first] + seq![second] =~= pair);
}

} // verus!
