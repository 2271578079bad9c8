//! The callback-feed protocol: results are pushed to a sink one by one, in
//! order, until the sink asks for no more.
use vstd::prelude::*;

verus! {

/// What takes the results of an enumeration. A sink records what it was
/// handed and what it answered, so that a producer's contract can say which
/// calls it made.
pub trait Sink<T> {
    /// Every item the sink was handed so far, in order.
    spec fn taken(&self) -> Seq<T>;

    /// What the sink answered to each of them: `true` for "go on", `false`
    /// for "stop".
    spec fn answers(&self) -> Seq<bool>;

    /// Whether the sink can be handed an item, whatever the item.
    spec fn ready(&self) -> bool;

    /// Hands one item to the sink. The answer says whether more are wanted.
    fn accepts(&mut self, item: T) -> (go: bool)
        requires
            old(self).ready(),
        ensures
            final(self).ready(),
            final(self).taken() == old(self).taken().push(item),
            final(self).answers() == old(self).answers().push(go),
    ;
}

/// What yields the results of an enumeration one at a time.
pub trait Source<T> {
    /// The invariant of the source.
    spec fn sound(&self) -> bool;

    /// The items the source has yet to yield, in order.
    spec fn to_come(&self) -> Seq<T>;

    /// Yields the next item, or `None` when there is none left.
    fn pull(&mut self) -> (item: Option<T>)
        requires
            old(self).sound(),
        ensures
            final(self).sound(),
            match item {
                Some(next) => {
                    &&& old(self).to_come().len() > 0
                    &&& next == old(self).to_come()[0]
                    &&& final(self).to_come() == old(self).to_come().drop_first()
                },
                None => old(self).to_come().len() == 0 && final(self).to_come().len() == 0,
            },
    ;
}

/// Whether a sink that was in the state `before` and is in the state `after`
/// was handed, in between, exactly the first `delivered` of `items`, each
/// once and in order, and nothing else; every one of them but the last was
/// answered with "go on", and the last was answered with "stop" unless it is
/// the last item there is. Nothing is handed over only when there is nothing
/// to hand over.
pub open spec fn fed<T, S: Sink<T>>(before: S, after: S, items: Seq<T>, delivered: nat) -> bool {
    let asked = before.answers().len();
    &&& delivered <= items.len()
    &&& items.len() > 0 ==> delivered > 0
    &&& after.taken() == before.taken() + items.take(delivered as int)
    &&& after.answers().len() == asked + delivered
    &&& after.answers().take(asked as int) == before.answers()
    &&& forall|k: int| asked <= k < asked + delivered - 1 ==> #[trigger] after.answers()[k]
    &&& 0 < delivered < items.len() ==> !after.answers().last()
}

/// A sink that answers "stop" to the first item it is handed is handed that
/// item and no other.
pub proof fn lemma_stop_after_first<T, S: Sink<T>>(before: S, after: S, items: Seq<T>, delivered: nat)
    requires
        fed(before, after, items, delivered),
        items.len() > 0,
        !after.answers()[before.answers().len() as int],
    ensures
        delivered == 1,
        after.taken() == before.taken().push(items[0]),
{
    assert(items.take(1) =~= seq![items[0]]);
}

/// A sink that never answers "stop" is handed every item, once and in order.
pub proof fn lemma_never_stopped_gets_all<T, S: Sink<T>>(
    before: S,
    after: S,
    items: Seq<T>,
    delivered: nat,
)
    requires
        fed(before, after, items, delivered),
        forall|k: int| before.answers().len() <= k < after.answers().len() ==> after.answers()[k],
    ensures
        delivered == items.len(),
        after.taken() == before.taken() + items,
{
    assert(items.take(items.len() as int) =~= items);
}

/// Hands the items of `source` to `sink` in order, one call for each, and
/// stops after the first that `sink` answers with `false`. The source is
/// asked for an item only when the sink wants one. Returns how many items
/// were handed over.
pub fn feed<T, P: Source<T>, S: Sink<T>>(source: &mut P, sink: &mut S) -> (delivered: usize)
    requires
        old(source).sound(),
        old(source).to_come().len() <= usize::MAX,
        old(sink).ready(),
    ensures
        final(source).sound(),
        final(sink).ready(),
        final(source).to_come() == old(source).to_come().skip(delivered as int),
        fed(*old(sink), *final(sink), old(source).to_come(), delivered as nat),
{
    let ghost items = source.to_come();
    let ghost asked = sink.answers().len();
    let mut go: bool = true;
    let mut exhausted: bool = false;
    let mut delivered: usize = 0;
    assert(items.skip(0) =~= items);
    assert(sink.taken() + items.take(0) =~= sink.taken());
    assert(sink.answers().take(asked as int) =~= sink.answers());
    while go && !exhausted
        invariant
            source.sound(),
            sink.ready(),
            delivered <= items.len() <= usize::MAX,
            source.to_come() == items.skip(delivered as int),
            exhausted ==> delivered == items.len(),
            asked == old(sink).answers().len(),
            sink.taken() == old(sink).taken() + items.take(delivered as int),
            sink.answers().len() == asked + delivered,
            sink.answers().take(asked as int) == old(sink).answers(),
            forall|k: int| asked <= k < asked + delivered - 1 ==> #[trigger] sink.answers()[k],
            delivered > 0 ==> sink.answers().last() == go,
            delivered == 0 ==> go,
        decreases items.len() - delivered, if exhausted { 0int } else { 1int },
    {
        let ghost taken = sink.taken();
        let ghost answers = sink.answers();
        match source.pull() {
            Some(item) => {
                go = sink.accepts(item);
                proof {
                    assert(items.skip(delivered as int).drop_first() =~= items.skip(delivered + 1));
                    assert(items.take(delivered + 1) =~= items.take(delivered as int).push(item));
                    assert(taken.push(item) =~= old(sink).taken() + items.take(delivered + 1));
                    assert(answers.push(go).take(asked as int) =~= answers.take(asked as int));
                }
                delivered = delivered + 1;
            },
            None => {
                exhausted = true;
            },
        }
    }
    assert(exhausted ==> source.to_come() =~= items.skip(delivered as int));
    delivered
}

/// A source that yields the items of a vector from first to last.
pub struct Cursor<'a, T> {
    items: &'a Vec<T>,
    at: usize,
}

impl<'a, T: Copy> Cursor<'a, T> {
    /// A cursor at the start of `items`.
    pub fn new(items: &'a Vec<T>) -> (cursor: Self)
        ensures
            cursor.sound(),
            cursor.to_come() == items@,
    {
        assert(items@.skip(0) =~= items@);
        Cursor { items, at: 0 }
    }
}

impl<'a, T: Copy> Source<T> for Cursor<'a, T> {
    closed spec fn sound(&self) -> bool {
        self.at <= self.items.len()
    }

    closed spec fn to_come(&self) -> Seq<T> {
        self.items@.skip(self.at as int)
    }

    fn pull(&mut self) -> (item: Option<T>) {
        if self.at < self.items.len() {
            let next = self.items[self.at];
            assert(self.items@.skip(self.at as int).drop_first() =~= self.items@.skip(self.at + 1));
            self.at = self.at + 1;
            Some(next)
        } else {
            None
        }
    }
}

/// Hands the items of `items` to `sink` in order, one call for each, and
/// stops after the first that `sink` answers with `false`. Returns how many
/// items were handed over.
pub fn feed_into<T: Copy, S: Sink<T>>(items: &Vec<T>, sink: &mut S) -> (delivered: usize)
    requires
        old(sink).ready(),
    ensures
        final(sink).ready(),
        fed(*old(sink), *final(sink), items@, delivered as nat),
{
    let mut cursor = Cursor::new(items);
    feed(&mut cursor, sink)
}

/// A sink that keeps every item it is handed and always asks for more.
pub struct Collector<T> {
    items: Vec<T>,
}

impl<T> Collector<T> {
    /// A collector that holds nothing yet.
    pub fn new() -> (collector: Self)
        ensures
            collector.ready(),
            collector.taken() == Seq::<T>::empty(),
            collector.answers() == Seq::<bool>::empty(),
    {
        let collector = Collector { items: Vec::new() };
        assert(collector.answers() =~= Seq::<bool>::empty());
        collector
    }

    /// What the collector was handed, in order.
    pub fn items(&self) -> (items: &Vec<T>)
        ensures
            items@ == self.taken(),
    {
        &self.items
    }

    /// Gives up what the collector was handed, in order.
    pub fn into_items(self) -> (items: Vec<T>)
        ensures
            items@ == self.taken(),
    {
        self.items
    }
}

impl<T> Sink<T> for Collector<T> {
    open spec fn ready(&self) -> bool {
        true
    }

    closed spec fn taken(&self) -> Seq<T> {
        self.items@
    }

    open spec fn answers(&self) -> Seq<bool> {
        Seq::new(self.taken().len(), |i: int| true)
    }

    fn accepts(&mut self, item: T) -> (go: bool) {
        self.items.push(item);
        assert(self.answers() =~= old(self).answers().push(true));
        true
    }
}

/// A sink that keeps what it is handed and answers "stop" every time: it
/// wants the first item only.
pub struct First<T> {
    items: Vec<T>,
}

impl<T> First<T> {
    /// A sink that holds nothing yet.
    pub fn new() -> (sink: Self)
        ensures
            sink.ready(),
            sink.taken() == Seq::<T>::empty(),
            sink.answers() == Seq::<bool>::empty(),
    {
        let sink = First { items: Vec::new() };
        assert(sink.answers() =~= Seq::<bool>::empty());
        sink
    }

    /// What the sink was handed, in order.
    pub fn items(&self) -> (items: &Vec<T>)
        ensures
            items@ == self.taken(),
    {
        &self.items
    }
}

impl<T> Sink<T> for First<T> {
    open spec fn ready(&self) -> bool {
        true
    }

    closed spec fn taken(&self) -> Seq<T> {
        self.items@
    }

    open spec fn answers(&self) -> Seq<bool> {
        Seq::new(self.taken().len(), |i: int| false)
    }

    fn accepts(&mut self, item: T) -> (go: bool) {
        self.items.push(item);
        assert(self.answers() =~= old(self).answers().push(false));
        false
    }
}

/// A sink around a callback: each item is handed to the callback, and the
/// callback's answer is the sink's.
pub struct CallbackSink<T, F: FnMut(T) -> bool> {
    callback: F,
    taken: Ghost<Seq<T>>,
    answers: Ghost<Seq<bool>>,
}

impl<T, F: FnMut(T) -> bool> CallbackSink<T, F> {
    /// A sink that has been handed nothing yet.
    pub fn new(callback: F) -> (sink: Self)
        requires
            forall|item: T| call_requires(callback, (item,)),
        ensures
            sink.ready(),
            sink.taken() == Seq::<T>::empty(),
            sink.answers() == Seq::<bool>::empty(),
    {
        CallbackSink { callback, taken: Ghost(Seq::empty()), answers: Ghost(Seq::empty()) }
    }
}

impl<T, F: FnMut(T) -> bool> Sink<T> for CallbackSink<T, F> {
    closed spec fn ready(&self) -> bool {
        forall|item: T| call_requires(self.callback, (item,))
    }

    closed spec fn taken(&self) -> Seq<T> {
        self.taken@
    }

    closed spec fn answers(&self) -> Seq<bool> {
        self.answers@
    }

    fn accepts(&mut self, item: T) -> (go: bool) {
        broadcast use vstd::function::group_function_axioms;

        let ghost handed = item;
        let go = (self.callback)(item);
        proof {
            self.taken@ = self.taken@.push(handed);
            self.answers@ = self.answers@.push(go);
        }
        go
    }
}

} // verus!
