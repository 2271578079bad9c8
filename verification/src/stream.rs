//! The lazy enumeration of mapped ranges: a pull-based stream that reads raw
//! mappings only as far as it must to confirm the next range.
use crate::coalesce::{coalesce, coalesce_onto, lemma_coalesce_len, lemma_coalesce_onto_split};
use crate::feed::Source;
use crate::mapping::RawMapping;
use crate::pipeline::{
    begun, candidate, candidates, clip_to, eligible, in_window, lemma_candidates_skip,
    lemma_merged_take_step, mapped_ranges, merged,
};
use crate::ranges::{merge_ranges, range_rule};
use crate::region::{clip, NormalizedRegion};
use vstd::prelude::*;

verus! {

/// A stream over the mapped ranges of one snapshot of a process's mappings.
/// Each call of `next` reads raw mappings only until the range it returns is
/// confirmed: a merged range is final once a mapping that cannot join it has
/// been read, or the input has ended.
pub struct RangeStream<'a> {
    maps: &'a Vec<RawMapping>,
    gap: i64,
    start: u64,
    end: u64,
    read: usize,
    pending: Option<NormalizedRegion>,
}

/// What a pass over the candidates of `maps` will still emit, before
/// clipping, when it holds `pending` and has read the first `read` mappings.
pub open spec fn merged_to_come(
    pending: Option<NormalizedRegion>,
    maps: Seq<RawMapping>,
    read: int,
    gap: i64,
    start: u64,
    end: u64,
) -> Seq<NormalizedRegion> {
    match pending {
        Some(acc) => coalesce_onto(acc, candidates(maps.skip(read), start, end), range_rule(gap)),
        None => coalesce(candidates(maps.skip(read), start, end), range_rule(gap)),
    }
}

impl<'a> RangeStream<'a> {
    /// The snapshot the stream reads.
    pub closed spec fn source(&self) -> Seq<RawMapping> {
        self.maps@
    }

    /// The gap tolerance of the enumeration.
    pub closed spec fn gap_tolerance(&self) -> i64 {
        self.gap
    }

    /// The query window of the enumeration.
    pub closed spec fn window(&self) -> (u64, u64) {
        (self.start, self.end)
    }

    /// How many raw mappings the stream has read so far.
    pub closed spec fn consumed(&self) -> nat {
        self.read as nat
    }

    /// How many ranges the stream has yielded so far.
    pub closed spec fn yielded(&self) -> nat {
        let known = merged(self.maps@.take(self.read as int), self.gap, self.start, self.end);
        match self.pending {
            Some(_) => (known.len() - 1) as nat,
            None => known.len(),
        }
    }

    /// The ranges the stream has yet to yield, in order.
    pub closed spec fn remaining(&self) -> Seq<NormalizedRegion> {
        merged_to_come(
            self.pending,
            self.maps@,
            self.read as int,
            self.gap,
            self.start,
            self.end,
        ).map_values(clip_to(self.start, self.end))
    }

    /// The invariant of the stream: the accumulator it holds is the last
    /// range that the mappings read so far have begun, and the mapping read
    /// last is the one that began it.
    pub closed spec fn wf(&self) -> bool {
        let known = merged(self.maps@.take(self.read as int), self.gap, self.start, self.end);
        &&& self.read <= self.maps.len()
        &&& match self.pending {
            Some(acc) => {
                &&& in_window(self.start, self.end)(acc)
                &&& self.read > 0
                &&& known.len() > 0
                &&& known.last() == acc
                &&& merged(self.maps@.take(self.read - 1), self.gap, self.start, self.end).len()
                    == known.len() - 1
            },
            None => self.read == 0 || self.read == self.maps.len(),
        }
    }

    /// Whether the stream has read no further than it had to: nothing at all
    /// before the first range is asked for; afterwards up to the mapping that
    /// begins the range after the last one yielded, which is what confirms
    /// that range, and to the end of the snapshot only when no such mapping
    /// exists.
    pub open spec fn reads_lazily(&self) -> bool {
        let maps = self.source();
        let gap = self.gap_tolerance();
        let (start, end) = self.window();
        ||| self.consumed() == 0 && self.yielded() == 0
        ||| {
            &&& self.consumed() > 0
            &&& begun(maps, gap, start, end, self.consumed() - 1) == self.yielded()
            &&& begun(maps, gap, start, end, self.consumed() as int) == self.yielded() + 1
        }
        ||| {
            &&& self.consumed() == maps.len()
            &&& begun(maps, gap, start, end, self.consumed() as int) == self.yielded()
        }
    }

    /// A stream in a valid state has read no further than it had to.
    pub proof fn lemma_reads_lazily(&self)
        requires
            self.wf(),
        ensures
            self.reads_lazily(),
            self.consumed() <= self.source().len(),
    {
        if self.pending is None && self.read == 0 {
            assert(self.maps@.take(0) =~= Seq::<RawMapping>::empty());
            assert(candidates(Seq::<RawMapping>::empty(), self.start, self.end).len() == 0) by {
                Seq::<RawMapping>::empty().lemma_filter_len(eligible(self.start, self.end));
            }
        }
    }

    /// What the stream has yielded and what it has yet to yield add up to
    /// the mapped ranges of its snapshot.
    pub proof fn lemma_yielded_and_remaining(&self)
        requires
            self.wf(),
        ensures
            self.yielded() + self.remaining().len() == mapped_ranges(
                self.source(),
                self.gap_tolerance(),
                self.window().0,
                self.window().1,
            ).len(),
    {
        let read = self.read as int;
        let before = self.maps@.take(read);
        let after = self.maps@.skip(read);
        let rule = range_rule(self.gap);
        assert(self.maps@ =~= before + after);
        Seq::filter_distributes_over_add(before, after, eligible(self.start, self.end));
        let known = candidates(before, self.start, self.end);
        let coming = candidates(after, self.start, self.end);
        assert(candidates(self.maps@, self.start, self.end) =~= known + coming);
        match self.pending {
            Some(acc) => {
                lemma_coalesce_len(known, rule);
                assert((known + coming).drop_first() =~= known.drop_first() + coming);
                lemma_coalesce_onto_split(known[0], known.drop_first(), coming, rule);
            },
            None => {
                if self.read == 0 {
                    assert(before =~= Seq::<RawMapping>::empty());
                    assert(known.len() == 0) by {
                        before.lemma_filter_len(eligible(self.start, self.end));
                    }
                    assert(known + coming =~= coming);
                } else {
                    assert(after =~= Seq::<RawMapping>::empty());
                    assert(coming.len() == 0) by {
                        after.lemma_filter_len(eligible(self.start, self.end));
                    }
                    assert(before =~= self.maps@);
                }
            },
        }
    }

    /// Starts an enumeration of `maps` inside the window `[start, end)` under
    /// the gap tolerance `gap`. Nothing is read yet.
    pub fn new(maps: &'a Vec<RawMapping>, gap: i64, start: u64, end: u64) -> (stream: Self)
        ensures
            stream.wf(),
            stream.source() == maps@,
            stream.gap_tolerance() == gap,
            stream.window() == (start, end),
            stream.consumed() == 0,
            stream.yielded() == 0,
            stream.remaining() == mapped_ranges(maps@, gap, start, end),
    {
        proof {
            assert(maps@.skip(0) =~= maps@);
            assert(maps@.take(0) =~= Seq::<RawMapping>::empty());
            assert(candidates(Seq::<RawMapping>::empty(), start, end).len() == 0) by {
                Seq::<RawMapping>::empty().lemma_filter_len(eligible(start, end));
            }
        }
        RangeStream { maps, gap, start, end, read: 0, pending: None }
    }

    /// How many raw mappings the stream has read so far.
    pub fn position(&self) -> (n: usize)
        ensures
            n == self.consumed(),
    {
        self.read
    }

    /// Yields the next mapped range, or `None` when there is none left.
    ///
    /// A range is final only once a mapping that cannot join it has been
    /// read, or the snapshot has ended; the stream reads exactly that far and
    /// keeps the mapping that ended the range as the start of the next.
    pub fn next(&mut self) -> (r: Option<NormalizedRegion>)
        requires
            old(self).wf(),
        ensures
            final(self).wf(),
            final(self).reads_lazily(),
            final(self).source() == old(self).source(),
            final(self).gap_tolerance() == old(self).gap_tolerance(),
            final(self).window() == old(self).window(),
            old(self).consumed() <= final(self).consumed() <= old(self).source().len(),
            match r {
                Some(range) => {
                    &&& old(self).remaining().len() > 0
                    &&& range == old(self).remaining()[0]
                    &&& final(self).remaining() == old(self).remaining().drop_first()
                    &&& final(self).yielded() == old(self).yielded() + 1
                },
                None => {
                    &&& old(self).remaining().len() == 0
                    &&& final(self).remaining().len() == 0
                    &&& final(self).consumed() == old(self).source().len()
                    &&& final(self).yielded() == old(self).yielded()
                },
            },
    {
        let ghost target = merged_to_come(
            self.pending,
            self.maps@,
            self.read as int,
            self.gap,
            self.start,
            self.end,
        );
        let ghost yielded_before = self.yielded();
        proof {
            if self.pending is None && self.read == 0 {
                assert(self.maps@.take(0) =~= Seq::<RawMapping>::empty());
                assert(candidates(Seq::<RawMapping>::empty(), self.start, self.end).len() == 0) by {
                    Seq::<RawMapping>::empty().lemma_filter_len(eligible(self.start, self.end));
                }
            }
        }
        let mut confirmed: Option<NormalizedRegion> = None;
        while confirmed.is_none() && self.read < self.maps.len()
            invariant
                self.maps == old(self).maps,
                self.gap == old(self).gap,
                self.start == old(self).start,
                self.end == old(self).end,
                old(self).read <= self.read <= self.maps.len(),
                target == (match confirmed {
                    Some(done) => seq![done],
                    None => Seq::<NormalizedRegion>::empty(),
                }) + merged_to_come(
                    self.pending,
                    self.maps@,
                    self.read as int,
                    self.gap,
                    self.start,
                    self.end,
                ),
                self.pending is None && self.read < self.maps.len() ==> yielded_before == 0,
                confirmed is None ==> (match self.pending {
                    Some(acc) => {
                        &&& in_window(self.start, self.end)(acc)
                        &&& merged(
                            self.maps@.take(self.read as int),
                            self.gap,
                            self.start,
                            self.end,
                        ).len() == yielded_before + 1
                        &&& merged(
                            self.maps@.take(self.read as int),
                            self.gap,
                            self.start,
                            self.end,
                        ).last() == acc
                    },
                    None => merged(
                        self.maps@.take(self.read as int),
                        self.gap,
                        self.start,
                        self.end,
                    ).len() == yielded_before,
                }),
                confirmed matches Some(done) ==> {
                    &&& in_window(self.start, self.end)(done)
                    &&& self.wf()
                    &&& self.pending is Some
                    &&& self.yielded() == yielded_before + 1
                },
            decreases self.maps.len() - self.read,
        {
            proof {
                lemma_candidates_skip(self.maps@, self.read as int, self.start, self.end);
                lemma_merged_take_step(self.maps@, self.read as int, self.gap, self.start, self.end);
            }
            let ghost later = candidates(self.maps@.skip(self.read + 1), self.start, self.end);
            let found = candidate(&self.maps[self.read], self.start, self.end);
            self.read = self.read + 1;
            match found {
                Some(next) => {
                    assert((seq![next] + later).drop_first() =~= later);
                    match self.pending {
                        None => {
                            self.pending = Some(next);
                        },
                        Some(acc) => {
                            match merge_ranges(acc, next, self.gap) {
                                Ok(joined) => {
                                    self.pending = Some(joined);
                                },
                                Err((done, fresh)) => {
                                    confirmed = Some(done);
                                    self.pending = Some(fresh);
                                },
                            }
                        },
                    }
                },
                None => {
                    assert(Seq::<NormalizedRegion>::empty() + later =~= later);
                },
            }
        }
        if confirmed.is_none() {
            assert(self.maps@.skip(self.read as int) =~= Seq::<RawMapping>::empty());
            assert(candidates(self.maps@.skip(self.read as int), self.start, self.end).len() == 0)
                by {
                self.maps@.skip(self.read as int).lemma_filter_len(eligible(self.start, self.end));
            }
            confirmed = self.pending;
            self.pending = None;
        }
        proof {
            self.lemma_reads_lazily();
        }
        match confirmed {
            Some(done) => {
                let ghost rest = merged_to_come(
                    self.pending,
                    self.maps@,
                    self.read as int,
                    self.gap,
                    self.start,
                    self.end,
                );
                assert(target =~= seq![done] + rest);
                assert(target.map_values(clip_to(self.start, self.end)).drop_first()
                    =~= rest.map_values(clip_to(self.start, self.end)));
                clip(done, self.start, self.end)
            },
            None => None,
        }
    }
}

impl<'a> Source<NormalizedRegion> for RangeStream<'a> {
    open spec fn sound(&self) -> bool {
        self.wf()
    }

    open spec fn to_come(&self) -> Seq<NormalizedRegion> {
        self.remaining()
    }

    fn pull(&mut self) -> (item: Option<NormalizedRegion>) {
        self.next()
    }
}

} // verus!
