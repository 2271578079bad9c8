//! What an enumeration of mapped ranges lists: the readable mappings inside
//! a query window, normalised, merged across small gaps and clipped to the
//! window.
use crate::coalesce::{
    carries, coalesce, coalesce_onto, lemma_coalesce_carries, lemma_coalesce_idempotent,
    lemma_coalesce_len, lemma_coalesce_push, lemma_filter_skip,
};
use crate::mapping::RawMapping;
use crate::ranges::{coalesced_ranges, joined_ranges, lemma_range_rule_keeps_head, range_rule};
use crate::region::{normalize, normalized, NormalizedRegion};
use vstd::prelude::*;

verus! {

/// The region a raw mapping stands for: its address range with its
/// permissions normalised.
pub open spec fn region_of(m: RawMapping) -> NormalizedRegion {
    NormalizedRegion { base: m.start, size: (m.end - m.start) as u64, flags: normalized(m.perms) }
}

/// Whether a raw mapping takes part in the enumeration of the window
/// `[start, end)`: it must be readable and share at least one address with
/// the window. A mapping that ends where the window starts, or starts where
/// it ends, shares none.
pub open spec fn listed_in(m: RawMapping, start: u64, end: u64) -> bool {
    &&& normalized(m.perms).readable
    &&& m.start < m.end
    &&& start < end
    &&& start < m.end
    &&& m.start < end
}

/// `listed_in` as a filter.
pub open spec fn eligible(start: u64, end: u64) -> spec_fn(RawMapping) -> bool {
    |m: RawMapping| listed_in(m, start, end)
}

/// `region_of` as a map.
pub open spec fn as_region() -> spec_fn(RawMapping) -> NormalizedRegion {
    |m: RawMapping| region_of(m)
}

/// Clipping to the window `[start, end)` as a map.
pub open spec fn clip_to(start: u64, end: u64) -> spec_fn(NormalizedRegion) -> NormalizedRegion {
    |r: NormalizedRegion| r.clipped(start, end)
}

/// The regions of `maps` that take part in the enumeration of the window,
/// before any merging.
pub open spec fn candidates(maps: Seq<RawMapping>, start: u64, end: u64) -> Seq<NormalizedRegion> {
    maps.filter(eligible(start, end)).map_values(as_region())
}

/// The mapped ranges of a process whose mappings are `maps`, inside the
/// window `[start, end)` and under the gap tolerance `gap`: the readable
/// mappings that overlap the window are normalised, adjacent ones are merged,
/// and each merged region is clipped to the window.
pub open spec fn mapped_ranges(maps: Seq<RawMapping>, gap: i64, start: u64, end: u64) -> Seq<
    NormalizedRegion,
> {
    merged(maps, gap, start, end).map_values(clip_to(start, end))
}

/// The candidates of `maps`, merged under the gap tolerance `gap` and not
/// yet clipped.
pub open spec fn merged(maps: Seq<RawMapping>, gap: i64, start: u64, end: u64) -> Seq<
    NormalizedRegion,
> {
    coalesce(candidates(maps, start, end), range_rule(gap))
}

/// How many mapped ranges begin within the first `read` mappings of `maps`.
pub open spec fn begun(maps: Seq<RawMapping>, gap: i64, start: u64, end: u64, read: int) -> nat {
    mapped_ranges(maps.take(read), gap, start, end).len()
}

/// The property that the enumeration keeps of every region it handles: it is
/// well formed, readable, and overlaps the window.
pub open spec fn in_window(start: u64, end: u64) -> spec_fn(NormalizedRegion) -> bool {
    |r: NormalizedRegion| r.wf() && r.flags.readable && r.overlaps(start, end)
}

/// Normalises a raw mapping if it takes part in the enumeration of the
/// window `[start, end)`.
pub fn candidate(m: &RawMapping, start: u64, end: u64) -> (r: Option<NormalizedRegion>)
    ensures
        r is Some <==> listed_in(*m, start, end),
        r matches Some(region) ==> region == region_of(*m) && in_window(start, end)(region),
{
    if m.start < m.end && start < end && start < m.end && m.start < end {
        let flags = normalize(m.perms);
        if flags.readable {
            return Some(NormalizedRegion { base: m.start, size: m.end - m.start, flags });
        }
    }
    None
}

/// What remains of the candidates after the first `read` mappings is the
/// candidate at `read`, if there is one, followed by what remains after it.
pub proof fn lemma_candidates_skip(maps: Seq<RawMapping>, read: int, start: u64, end: u64)
    requires
        0 <= read < maps.len(),
    ensures
        candidates(maps.skip(read), start, end) == (if listed_in(maps[read], start, end) {
            seq![region_of(maps[read])]
        } else {
            Seq::empty()
        }) + candidates(maps.skip(read + 1), start, end),
{
    lemma_filter_skip(maps, read, eligible(start, end));
    assert(candidates(maps.skip(read), start, end) =~= (if listed_in(maps[read], start, end) {
        seq![region_of(maps[read])]
    } else {
        Seq::empty()
    }) + candidates(maps.skip(read + 1), start, end));
}

/// What the mapping at `read` does to the ranges merged from the mappings
/// before it: nothing if it is no candidate; otherwise it joins the last of
/// them or begins a new one.
pub proof fn lemma_merged_take_step(maps: Seq<RawMapping>, read: int, gap: i64, start: u64, end: u64)
    requires
        0 <= read < maps.len(),
    ensures
        !listed_in(maps[read], start, end) ==> merged(maps.take(read + 1), gap, start, end)
            == merged(maps.take(read), gap, start, end),
        listed_in(maps[read], start, end) && merged(maps.take(read), gap, start, end).len() == 0
            ==> merged(maps.take(read + 1), gap, start, end) == seq![region_of(maps[read])],
        listed_in(maps[read], start, end) && merged(maps.take(read), gap, start, end).len() > 0
            ==> merged(maps.take(read + 1), gap, start, end) == (match joined_ranges(
            merged(maps.take(read), gap, start, end).last(),
            region_of(maps[read]),
            gap,
        ) {
            Some(joined) => merged(maps.take(read), gap, start, end).drop_last().push(joined),
            None => merged(maps.take(read), gap, start, end).push(region_of(maps[read])),
        }),
{
    let before = maps.take(read);
    assert(maps.take(read + 1) =~= before.push(maps[read]));
    Seq::lemma_filter_push(before, maps[read], eligible(start, end));
    if listed_in(maps[read], start, end) {
        let known = candidates(before, start, end);
        assert(candidates(maps.take(read + 1), start, end) =~= known.push(region_of(maps[read])));
        lemma_coalesce_push(known, region_of(maps[read]), range_rule(gap));
        lemma_coalesce_len(known, range_rule(gap));
    }
}

/// Every candidate is well formed, readable and overlaps the window.
pub proof fn lemma_candidates_in_window(maps: Seq<RawMapping>, start: u64, end: u64)
    ensures
        forall|i: int|
            0 <= i < candidates(maps, start, end).len() ==> #[trigger] in_window(start, end)(
                candidates(maps, start, end)[i],
            ),
{
    let kept = maps.filter(eligible(start, end));
    assert forall|i: int| 0 <= i < candidates(maps, start, end).len() implies #[trigger] in_window(
        start,
        end,
    )(candidates(maps, start, end)[i]) by {
        maps.lemma_filter_pred(eligible(start, end), i);
        assert(eligible(start, end)(kept[i]));
    }
}

/// Merging keeps regions well formed, readable and overlapping the window.
proof fn lemma_range_rule_carries_window(gap: i64, start: u64, end: u64)
    ensures
        carries(range_rule(gap), in_window(start, end)),
{
    assert forall|a: NormalizedRegion, b: NormalizedRegion|
        #![trigger range_rule(gap)(a, b)]
        in_window(start, end)(a) && in_window(start, end)(b) && range_rule(gap)(a, b)
            is Some implies in_window(start, end)(range_rule(gap)(a, b).unwrap()) by {}
}

/// Every mapped range is well formed, lies inside the window, and is
/// readable: a mapping that cannot be read is never listed, whatever else
/// it grants.
pub proof fn lemma_mapped_ranges_readable(maps: Seq<RawMapping>, gap: i64, start: u64, end: u64)
    ensures
        forall|i: int|
            0 <= i < mapped_ranges(maps, gap, start, end).len() ==> {
                let r = #[trigger] mapped_ranges(maps, gap, start, end)[i];
                &&& r.flags.readable
                &&& r.wf()
                &&& start <= r.base
                &&& r.end() <= end
            },
{
    let merged = coalesce(candidates(maps, start, end), range_rule(gap));
    lemma_candidates_in_window(maps, start, end);
    lemma_range_rule_carries_window(gap, start, end);
    lemma_coalesce_carries(candidates(maps, start, end), range_rule(gap), in_window(start, end));
    assert forall|i: int| 0 <= i < mapped_ranges(maps, gap, start, end).len() implies {
        let r = #[trigger] mapped_ranges(maps, gap, start, end)[i];
        &&& r.flags.readable
        &&& r.wf()
        &&& start <= r.base
        &&& r.end() <= end
    } by {
        assert(in_window(start, end)(merged[i]));
        assert(mapped_ranges(maps, gap, start, end)[i] == merged[i].clipped(start, end));
    }
}

/// The mappings that grant reading.
pub open spec fn readable() -> spec_fn(RawMapping) -> bool {
    |m: RawMapping| normalized(m.perms).readable
}

/// A mapping without the read bit changes nothing in the enumeration: the
/// mapped ranges of `maps` are those of its readable mappings alone.
pub proof fn lemma_unreadable_mappings_ignored(maps: Seq<RawMapping>, gap: i64, start: u64, end: u64)
    ensures
        mapped_ranges(maps, gap, start, end) == mapped_ranges(
            maps.filter(readable()),
            gap,
            start,
            end,
        ),
{
    lemma_filter_twice(maps, readable(), eligible(start, end));
}

/// An enumeration lists no more ranges than the snapshot has mappings.
pub proof fn lemma_mapped_ranges_len(maps: Seq<RawMapping>, gap: i64, start: u64, end: u64)
    ensures
        mapped_ranges(maps, gap, start, end).len() <= maps.len(),
{
    lemma_coalesce_len(candidates(maps, start, end), range_rule(gap));
    maps.lemma_filter_len(eligible(start, end));
}

/// Filtering by `outer` and then by `inner` is filtering by `inner` alone
/// when `inner` admits only what `outer` admits.
proof fn lemma_filter_twice(
    maps: Seq<RawMapping>,
    outer: spec_fn(RawMapping) -> bool,
    inner: spec_fn(RawMapping) -> bool,
)
    requires
        forall|m: RawMapping| #[trigger] inner(m) ==> outer(m),
    ensures
        maps.filter(outer).filter(inner) == maps.filter(inner),
    decreases maps.len(),
{
    reveal(Seq::filter);
    if maps.len() > 0 {
        let front = maps.drop_last();
        lemma_filter_twice(front, outer, inner);
        if outer(maps.last()) {
            Seq::lemma_filter_push(front.filter(outer), maps.last(), inner);
        }
    }
}

/// Whether the mappings come in ascending order of their start address, as
/// an operating system lists them.
pub open spec fn ascending(maps: Seq<RawMapping>) -> bool {
    forall|i: int, j: int| 0 <= i <= j < maps.len() ==> maps[i].start <= maps[j].start
}

/// Whether the regions come in ascending order of their base address.
pub open spec fn ascending_regions(regions: Seq<NormalizedRegion>) -> bool {
    forall|i: int, j: int| 0 <= i <= j < regions.len() ==> regions[i].base <= regions[j].base
}

/// The candidates of mappings in ascending order are in ascending order.
proof fn lemma_candidates_ascending(maps: Seq<RawMapping>, start: u64, end: u64)
    requires
        ascending(maps),
    ensures
        ascending_regions(candidates(maps, start, end)),
        forall|i: int|
            0 <= i < candidates(maps, start, end).len() ==> exists|k: int|
                0 <= k < maps.len() && (#[trigger] candidates(maps, start, end)[i]).base
                    == maps[k].start,
    decreases maps.len(),
{
    reveal(Seq::filter);
    let keep = eligible(start, end);
    if maps.len() > 0 {
        let front = maps.drop_last();
        let last = maps.last();
        assert forall|i: int, j: int| 0 <= i <= j < front.len() implies front[i].start
            <= front[j].start by {
            assert(front[i] == maps[i] && front[j] == maps[j]);
        }
        lemma_candidates_ascending(front, start, end);
        let before = candidates(front, start, end);
        let all = candidates(maps, start, end);
        if keep(last) {
            assert(all =~= before.push(region_of(last)));
        } else {
            assert(all =~= before);
        }
        assert forall|i: int| 0 <= i < all.len() implies exists|k: int|
            0 <= k < maps.len() && (#[trigger] all[i]).base == maps[k].start by {
            if i < before.len() {
                let k = choose|k: int| 0 <= k < front.len() && before[i].base == front[k].start;
                assert(front[k] == maps[k]);
            } else {
                assert(all[i].base == maps[maps.len() - 1].start);
            }
        }
        assert forall|i: int, j: int| 0 <= i <= j < all.len() implies all[i].base
            <= all[j].base by {
            if j < before.len() {
                assert(before[i].base <= before[j].base);
            } else if i < before.len() {
                let k = choose|k: int| 0 <= k < front.len() && before[i].base == front[k].start;
                assert(front[k] == maps[k]);
                assert(maps[k].start <= maps[maps.len() - 1].start);
            }
        }
    }
}

/// Clipping commutes with one pass of merging, when the pass starts from a
/// region in the window and reads regions in the window in ascending order.
proof fn lemma_clipping_commutes_onto(
    acc: NormalizedRegion,
    rest: Seq<NormalizedRegion>,
    gap: i64,
    start: u64,
    end: u64,
)
    requires
        in_window(start, end)(acc),
        forall|i: int| 0 <= i < rest.len() ==> #[trigger] in_window(start, end)(rest[i]),
        forall|i: int| 0 <= i < rest.len() ==> acc.base <= (#[trigger] rest[i]).base,
        ascending_regions(rest),
    ensures
        coalesce_onto(
            acc.clipped(start, end),
            rest.map_values(clip_to(start, end)),
            range_rule(gap),
        ) == coalesce_onto(acc, rest, range_rule(gap)).map_values(clip_to(start, end)),
    decreases rest.len(),
{
    let clipping = clip_to(start, end);
    let rule = range_rule(gap);
    let clipped_rest = rest.map_values(clipping);
    if rest.len() == 0 {
        assert(coalesce_onto(acc, rest, rule).map_values(clipping) =~= seq![acc.clipped(start, end)]);
    } else {
        let next = rest[0];
        let tail = rest.drop_first();
        assert(in_window(start, end)(next));
        assert(acc.base <= next.base);
        assert(clipped_rest.drop_first() =~= tail.map_values(clipping));
        assert(clipped_rest[0] == next.clipped(start, end));
        assert forall|i: int| 0 <= i < tail.len() implies #[trigger] in_window(start, end)(
            tail[i],
        ) by {
            assert(tail[i] == rest[i + 1]);
        }
        assert forall|i: int, j: int| 0 <= i <= j < tail.len() implies tail[i].base
            <= tail[j].base by {
            assert(tail[i] == rest[i + 1] && tail[j] == rest[j + 1]);
        }
        match joined_ranges(acc, next, gap) {
            Some(joined) => {
                assert forall|i: int| 0 <= i < tail.len() implies joined.base <= (
                #[trigger] tail[i]).base by {
                    assert(tail[i] == rest[i + 1]);
                }
                assert(joined_ranges(acc.clipped(start, end), next.clipped(start, end), gap)
                    == Some(joined.clipped(start, end)));
                lemma_clipping_commutes_onto(joined, tail, gap, start, end);
            },
            None => {
                assert forall|i: int| 0 <= i < tail.len() implies next.base <= (
                #[trigger] tail[i]).base by {
                    assert(tail[i] == rest[i + 1]);
                    assert(rest[0].base <= rest[i + 1].base);
                }
                assert(joined_ranges(acc.clipped(start, end), next.clipped(start, end), gap)
                    is None);
                lemma_clipping_commutes_onto(next, tail, gap, start, end);
                assert((seq![acc] + coalesce_onto(next, tail, rule)).map_values(clipping)
                    =~= seq![acc.clipped(start, end)] + coalesce_onto(next, tail, rule).map_values(
                    clipping,
                ));
            },
        }
    }
}

/// For mappings in ascending order it makes no difference whether regions
/// are clipped to the window before they are merged or after.
pub proof fn lemma_clipping_commutes_with_merging(
    maps: Seq<RawMapping>,
    gap: i64,
    start: u64,
    end: u64,
)
    requires
        ascending(maps),
    ensures
        coalesce(candidates(maps, start, end).map_values(clip_to(start, end)), range_rule(gap))
            == mapped_ranges(maps, gap, start, end),
{
    let found = candidates(maps, start, end);
    let clipping = clip_to(start, end);
    lemma_candidates_in_window(maps, start, end);
    lemma_candidates_ascending(maps, start, end);
    if found.len() > 0 {
        let tail = found.drop_first();
        assert(found.map_values(clipping).drop_first() =~= tail.map_values(clipping));
        assert forall|i: int| 0 <= i < tail.len() implies #[trigger] in_window(start, end)(
            tail[i],
        ) by {
            assert(tail[i] == found[i + 1]);
        }
        assert forall|i: int| 0 <= i < tail.len() implies found[0].base <= (
        #[trigger] tail[i]).base by {
            assert(tail[i] == found[i + 1]);
        }
        assert forall|i: int, j: int| 0 <= i <= j < tail.len() implies tail[i].base
            <= tail[j].base by {
            assert(tail[i] == found[i + 1] && tail[j] == found[j + 1]);
        }
        lemma_clipping_commutes_onto(found[0], tail, gap, start, end);
    } else {
        assert(mapped_ranges(maps, gap, start, end) =~= Seq::<NormalizedRegion>::empty());
        assert(found.map_values(clipping) =~= Seq::<NormalizedRegion>::empty());
    }
}

/// A pass that starts from a region no later than all it reads, and reads
/// regions in ascending order, emits regions in ascending order, the first
/// of them with the base it started from.
proof fn lemma_merging_keeps_order(acc: NormalizedRegion, rest: Seq<NormalizedRegion>, gap: i64)
    requires
        forall|i: int| 0 <= i < rest.len() ==> acc.base <= (#[trigger] rest[i]).base,
        ascending_regions(rest),
    ensures
        coalesce_onto(acc, rest, range_rule(gap)).len() > 0,
        coalesce_onto(acc, rest, range_rule(gap))[0].base == acc.base,
        ascending_regions(coalesce_onto(acc, rest, range_rule(gap))),
    decreases rest.len(),
{
    let rule = range_rule(gap);
    let out = coalesce_onto(acc, rest, rule);
    if rest.len() > 0 {
        let next = rest[0];
        let tail = rest.drop_first();
        assert(acc.base <= next.base);
        assert forall|i: int, j: int| 0 <= i <= j < tail.len() implies tail[i].base
            <= tail[j].base by {
            assert(tail[i] == rest[i + 1] && tail[j] == rest[j + 1]);
        }
        match joined_ranges(acc, next, gap) {
            Some(joined) => {
                assert forall|i: int| 0 <= i < tail.len() implies joined.base <= (
                #[trigger] tail[i]).base by {
                    assert(tail[i] == rest[i + 1]);
                }
                lemma_merging_keeps_order(joined, tail, gap);
            },
            None => {
                let later = coalesce_onto(next, tail, rule);
                assert forall|i: int| 0 <= i < tail.len() implies next.base <= (
                #[trigger] tail[i]).base by {
                    assert(tail[i] == rest[i + 1]);
                    assert(rest[0].base <= rest[i + 1].base);
                }
                lemma_merging_keeps_order(next, tail, gap);
                assert(out == seq![acc] + later);
                assert forall|i: int, j: int| 0 <= i <= j < out.len() implies out[i].base
                    <= out[j].base by {
                    if i > 0 {
                        assert(out[i] == later[i - 1] && out[j] == later[j - 1]);
                    } else if j > 0 {
                        assert(out[j] == later[j - 1]);
                        assert(later[0].base <= later[j - 1].base);
                    }
                }
            },
        }
    }
}

/// What an enumeration lists is fully merged: for mappings in ascending
/// order, one more merging pass over the mapped ranges, under the same gap
/// tolerance, changes nothing.
pub proof fn lemma_mapped_ranges_stay_merged(maps: Seq<RawMapping>, gap: i64, start: u64, end: u64)
    requires
        ascending(maps),
    ensures
        coalesced_ranges(mapped_ranges(maps, gap, start, end), gap) == mapped_ranges(
            maps,
            gap,
            start,
            end,
        ),
{
    let found = candidates(maps, start, end);
    let rule = range_rule(gap);
    let once = merged(maps, gap, start, end);
    let clipping = clip_to(start, end);
    lemma_candidates_in_window(maps, start, end);
    lemma_candidates_ascending(maps, start, end);
    lemma_range_rule_carries_window(gap, start, end);
    lemma_coalesce_carries(found, rule, in_window(start, end));
    lemma_range_rule_keeps_head(gap);
    lemma_coalesce_idempotent(found, rule);
    if found.len() > 0 {
        let tail = found.drop_first();
        assert forall|i: int| 0 <= i < tail.len() implies found[0].base <= (
        #[trigger] tail[i]).base by {
            assert(tail[i] == found[i + 1]);
        }
        assert forall|i: int, j: int| 0 <= i <= j < tail.len() implies tail[i].base
            <= tail[j].base by {
            assert(tail[i] == found[i + 1] && tail[j] == found[j + 1]);
        }
        lemma_merging_keeps_order(found[0], tail, gap);
        let rest = once.drop_first();
        assert(in_window(start, end)(once[0]));
        assert forall|i: int| 0 <= i < rest.len() implies #[trigger] in_window(start, end)(
            rest[i],
        ) by {
            assert(rest[i] == once[i + 1]);
            assert(in_window(start, end)(once[i + 1]));
        }
        assert forall|i: int| 0 <= i < rest.len() implies once[0].base <= (
        #[trigger] rest[i]).base by {
            assert(rest[i] == once[i + 1]);
        }
        assert forall|i: int, j: int| 0 <= i <= j < rest.len() implies rest[i].base
            <= rest[j].base by {
            assert(rest[i] == once[i + 1] && rest[j] == once[j + 1]);
        }
        lemma_clipping_commutes_onto(once[0], rest, gap, start, end);
        assert(once.map_values(clipping).drop_first() =~= rest.map_values(clipping));
    } else {
        assert(mapped_ranges(maps, gap, start, end) =~= Seq::<NormalizedRegion>::empty());
    }
}

} // verus!
