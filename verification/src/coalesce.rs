//! The map coalescer: one left-to-right pass that merges each run of adjacent
//! records into a single logical record.
use vstd::prelude::*;

verus! {

/// The records that come out of a pass which holds `acc` as its current
/// accumulator and still has `rest` to read. Each next record is offered to
/// the accumulator: when `merge` joins the two, the joined record becomes the
/// accumulator; when it does not, the accumulator is emitted and the record
/// starts a new one. The last accumulator is emitted at the end of input.
pub open spec fn coalesce_onto<T>(acc: T, rest: Seq<T>, merge: spec_fn(T, T) -> Option<T>) -> Seq<T>
    decreases rest.len(),
{
    if rest.len() == 0 {
        seq![acc]
    } else {
        match merge(acc, rest[0]) {
            Some(joined) => coalesce_onto(joined, rest.drop_first(), merge),
            None => seq![acc] + coalesce_onto(rest[0], rest.drop_first(), merge),
        }
    }
}

/// The records that one pass over `items` produces under `merge`.
pub open spec fn coalesce<T>(items: Seq<T>, merge: spec_fn(T, T) -> Option<T>) -> Seq<T> {
    if items.len() == 0 {
        Seq::empty()
    } else {
        coalesce_onto(items[0], items.drop_first(), merge)
    }
}

/// Whether a record can be joined to `merge(b, c)` exactly when it can be
/// joined to `b`: joining keeps what decides a merge from the left.
pub open spec fn keeps_head<T>(merge: spec_fn(T, T) -> Option<T>) -> bool {
    forall|a: T, b: T, c: T|
        #![trigger merge(a, b), merge(b, c)]
        merge(b, c) is Some ==> (merge(a, merge(b, c).unwrap()) is Some <==> merge(a, b) is Some)
}

/// Whether `merge` carries the property `holds` from the two records it joins
/// to the joined record.
pub open spec fn carries<T>(merge: spec_fn(T, T) -> Option<T>, holds: spec_fn(T) -> bool) -> bool {
    forall|a: T, b: T|
        #![trigger merge(a, b)]
        holds(a) && holds(b) && merge(a, b) is Some ==> holds(merge(a, b).unwrap())
}

/// A pass emits at least one record and never more than it read.
pub proof fn lemma_coalesce_onto_len<T>(acc: T, rest: Seq<T>, merge: spec_fn(T, T) -> Option<T>)
    ensures
        1 <= coalesce_onto(acc, rest, merge).len() <= rest.len() + 1,
    decreases rest.len(),
{
    if rest.len() > 0 {
        match merge(acc, rest[0]) {
            Some(joined) => lemma_coalesce_onto_len(joined, rest.drop_first(), merge),
            None => lemma_coalesce_onto_len(rest[0], rest.drop_first(), merge),
        }
    }
}

/// A pass over `items` emits no more records than it read, and one at least
/// when there is anything to read.
pub proof fn lemma_coalesce_len<T>(items: Seq<T>, merge: spec_fn(T, T) -> Option<T>)
    ensures
        coalesce(items, merge).len() <= items.len(),
        items.len() > 0 ==> coalesce(items, merge).len() >= 1,
{
    if items.len() > 0 {
        lemma_coalesce_onto_len(items[0], items.drop_first(), merge);
    }
}

/// A property that holds of every record read and that merging carries holds
/// of every record emitted.
pub proof fn lemma_coalesce_onto_carries<T>(
    acc: T,
    rest: Seq<T>,
    merge: spec_fn(T, T) -> Option<T>,
    holds: spec_fn(T) -> bool,
)
    requires
        carries(merge, holds),
        holds(acc),
        forall|i: int| 0 <= i < rest.len() ==> #[trigger] holds(rest[i]),
    ensures
        forall|i: int|
            0 <= i < coalesce_onto(acc, rest, merge).len() ==> #[trigger] holds(
                coalesce_onto(acc, rest, merge)[i],
            ),
    decreases rest.len(),
{
    if rest.len() > 0 {
        let tail = rest.drop_first();
        assert(holds(rest[0]));
        assert forall|i: int| 0 <= i < tail.len() implies #[trigger] holds(tail[i]) by {
            assert(tail[i] == rest[i + 1]);
        }
        let out = coalesce_onto(acc, rest, merge);
        match merge(acc, rest[0]) {
            Some(joined) => {
                assert(holds(joined));
                lemma_coalesce_onto_carries(joined, tail, merge, holds);
                assert(out == coalesce_onto(joined, tail, merge));
            },
            None => {
                let later = coalesce_onto(rest[0], tail, merge);
                lemma_coalesce_onto_carries(rest[0], tail, merge, holds);
                assert forall|i: int| 0 <= i < out.len() implies #[trigger] holds(out[i]) by {
                    if i > 0 {
                        assert(out[i] == later[i - 1]);
                    }
                }
            },
        }
    } else {
        assert(coalesce_onto(acc, rest, merge) =~= seq![acc]);
    }
}

/// A property that holds of every record of `items` and that merging carries
/// holds of every record the pass emits.
pub proof fn lemma_coalesce_carries<T>(
    items: Seq<T>,
    merge: spec_fn(T, T) -> Option<T>,
    holds: spec_fn(T) -> bool,
)
    requires
        carries(merge, holds),
        forall|i: int| 0 <= i < items.len() ==> #[trigger] holds(items[i]),
    ensures
        forall|i: int|
            0 <= i < coalesce(items, merge).len() ==> #[trigger] holds(coalesce(items, merge)[i]),
{
    if items.len() > 0 {
        let tail = items.drop_first();
        assert(holds(items[0]));
        assert forall|i: int| 0 <= i < tail.len() implies #[trigger] holds(tail[i]) by {
            assert(tail[i] == items[i + 1]);
        }
        lemma_coalesce_onto_carries(items[0], tail, merge, holds);
    }
}

/// The first record a pass emits can be joined from the left exactly when
/// the accumulator it started from can.
proof fn lemma_first_emitted_keeps_head<T>(
    left: T,
    acc: T,
    rest: Seq<T>,
    merge: spec_fn(T, T) -> Option<T>,
)
    requires
        keeps_head(merge),
    ensures
        coalesce_onto(acc, rest, merge).len() > 0,
        merge(left, coalesce_onto(acc, rest, merge)[0]) is Some <==> merge(left, acc) is Some,
    decreases rest.len(),
{
    if rest.len() > 0 {
        match merge(acc, rest[0]) {
            Some(joined) => {
                lemma_first_emitted_keeps_head(left, joined, rest.drop_first(), merge);
                assert(merge(left, joined) is Some <==> merge(left, acc) is Some);
            },
            None => {},
        }
    }
}

/// A second pass over what a pass emitted, started from its first record,
/// emits the same records again.
proof fn lemma_coalesce_onto_idempotent<T>(acc: T, rest: Seq<T>, merge: spec_fn(T, T) -> Option<T>)
    requires
        keeps_head(merge),
    ensures
        coalesce_onto(acc, rest, merge).len() > 0,
        coalesce_onto(
            coalesce_onto(acc, rest, merge)[0],
            coalesce_onto(acc, rest, merge).drop_first(),
            merge,
        ) == coalesce_onto(acc, rest, merge),
    decreases rest.len(),
{
    let out = coalesce_onto(acc, rest, merge);
    if rest.len() == 0 {
        assert(out.drop_first() =~= Seq::<T>::empty());
    } else {
        match merge(acc, rest[0]) {
            Some(joined) => {
                lemma_coalesce_onto_idempotent(joined, rest.drop_first(), merge);
            },
            None => {
                let later = coalesce_onto(rest[0], rest.drop_first(), merge);
                lemma_coalesce_onto_idempotent(rest[0], rest.drop_first(), merge);
                lemma_first_emitted_keeps_head(acc, rest[0], rest.drop_first(), merge);
                assert(out[0] == acc);
                assert(out.drop_first() =~= later);
                assert(merge(acc, later[0]) is None);
            },
        }
    }
}

/// Coalescing what has been coalesced changes nothing, for every merge rule
/// under which joining keeps what decides a merge from the left.
pub proof fn lemma_coalesce_idempotent<T>(items: Seq<T>, merge: spec_fn(T, T) -> Option<T>)
    requires
        keeps_head(merge),
    ensures
        coalesce(coalesce(items, merge), merge) == coalesce(items, merge),
{
    if items.len() > 0 {
        lemma_coalesce_onto_idempotent(items[0], items.drop_first(), merge);
    }
}

/// A pass over two stretches of input is a pass over the first, followed by
/// a pass over the second that starts from the last record the first pass
/// would have emitted: what a pass has emitted before its last record never
/// changes as more input arrives.
pub proof fn lemma_coalesce_onto_split<T>(
    acc: T,
    first: Seq<T>,
    second: Seq<T>,
    merge: spec_fn(T, T) -> Option<T>,
)
    ensures
        coalesce_onto(acc, first, merge).len() > 0,
        coalesce_onto(acc, first + second, merge) == coalesce_onto(acc, first, merge).drop_last()
            + coalesce_onto(coalesce_onto(acc, first, merge).last(), second, merge),
    decreases first.len(),
{
    let whole = first + second;
    let head = coalesce_onto(acc, first, merge);
    lemma_coalesce_onto_len(acc, first, merge);
    if first.len() == 0 {
        assert(whole =~= second);
        assert(head.drop_last() + coalesce_onto(acc, second, merge) =~= coalesce_onto(
            acc,
            second,
            merge,
        ));
    } else {
        let tail = first.drop_first();
        assert(whole.drop_first() =~= tail + second);
        assert(whole[0] == first[0]);
        match merge(acc, first[0]) {
            Some(joined) => {
                lemma_coalesce_onto_split(joined, tail, second, merge);
            },
            None => {
                let later = coalesce_onto(first[0], tail, merge);
                lemma_coalesce_onto_split(first[0], tail, second, merge);
                lemma_coalesce_onto_len(first[0], tail, merge);
                assert(head == seq![acc] + later);
                assert(head.drop_last() =~= seq![acc] + later.drop_last());
                assert(head.last() == later.last());
                assert(seq![acc] + (later.drop_last() + coalesce_onto(later.last(), second, merge))
                    =~= (seq![acc] + later.drop_last()) + coalesce_onto(
                    later.last(),
                    second,
                    merge,
                ));
            },
        }
    }
}

/// What one more record does to the output of a pass: it joins the last
/// record emitted so far, or it is emitted after it. Nothing before the last
/// record changes.
pub proof fn lemma_coalesce_push<T>(items: Seq<T>, next: T, merge: spec_fn(T, T) -> Option<T>)
    ensures
        items.len() == 0 ==> coalesce(items.push(next), merge) == seq![next],
        items.len() > 0 ==> coalesce(items, merge).len() > 0 && coalesce(items.push(next), merge) == (
        match merge(coalesce(items, merge).last(), next) {
            Some(joined) => coalesce(items, merge).drop_last().push(joined),
            None => coalesce(items, merge).push(next),
        }),
{
    let more = items.push(next);
    if items.len() == 0 {
        assert(more.drop_first() =~= Seq::<T>::empty());
        assert(coalesce_onto(next, Seq::<T>::empty(), merge) =~= seq![next]);
    } else {
        let out = coalesce(items, merge);
        assert(more.drop_first() =~= items.drop_first() + seq![next]);
        assert(more[0] == items[0]);
        lemma_coalesce_onto_split(items[0], items.drop_first(), seq![next], merge);
        assert(seq![next].drop_first() =~= Seq::<T>::empty());
        match merge(out.last(), next) {
            Some(joined) => {
                assert(coalesce_onto(joined, Seq::<T>::empty(), merge) =~= seq![joined]);
                assert(coalesce_onto(out.last(), seq![next], merge) == seq![joined]);
                assert(out.drop_last() + seq![joined] =~= out.drop_last().push(joined));
            },
            None => {
                assert(coalesce_onto(next, Seq::<T>::empty(), merge) =~= seq![next]);
                assert(coalesce_onto(out.last(), seq![next], merge) == seq![out.last()] + seq![
                    next,
                ]);
                assert(out.drop_last() + (seq![out.last()] + seq![next]) =~= out.push(next));
            },
        }
    }
}

/// What remains of `items` after the first `i` is the record at `i`, if
/// `keep` admits it, followed by what remains after it.
pub proof fn lemma_filter_skip<T>(items: Seq<T>, i: int, keep: spec_fn(T) -> bool)
    requires
        0 <= i < items.len(),
    ensures
        items.skip(i).filter(keep) == (if keep(items[i]) {
            seq![items[i]]
        } else {
            Seq::empty()
        }) + items.skip(i + 1).filter(keep),
{
    assert(items.skip(i) =~= seq![items[i]] + items.skip(i + 1));
    items.skip(i + 1).lemma_filter_prepend(items[i], keep);
}

/// Filtering a sequence whose records all pass the filter changes nothing.
pub proof fn lemma_filter_all<T>(items: Seq<T>, keep: spec_fn(T) -> bool)
    requires
        forall|i: int| 0 <= i < items.len() ==> #[trigger] keep(items[i]),
    ensures
        items.filter(keep) == items,
    decreases items.len(),
{
    reveal(Seq::filter);
    if items.len() > 0 {
        let front = items.drop_last();
        assert forall|i: int| 0 <= i < front.len() implies #[trigger] keep(front[i]) by {
            assert(front[i] == items[i]);
        }
        lemma_filter_all(front, keep);
        assert(keep(items[items.len() - 1]));
        assert(front.push(items.last()) =~= items);
    }
}

} // verus!
