//! What the sum is, stated over streams; the values that can be summed; the
//! work done on one chunk; and the aggregator, which adds up the partial
//! sums of the chunks in the order in which they arrive.

use vstd::prelude::*;
use crate::applied::{accepts, answers, computes, lemma_answered_agree};
use crate::dispatch::Chunk;
use crate::stream::Stream;

verus! {

/// A value that can be summed: it stands for a natural number, has an
/// identity, and is combined by adding what the two values stand for, which
/// is commutative and associative.
pub trait Aggregate: Sized {
    /// The number that the value stands for.
    spec fn amount(self) -> nat;

    /// The largest number that a value of the type can stand for.
    spec fn ceiling() -> nat;

    /// The identity: combined with any other value it leaves that value's
    /// amount as it is.
    fn identity() -> (z: Self)
        ensures
            z.amount() == 0,
    ;

    /// The combination of two values. It is owed where the sum of the two
    /// amounts can be held.
    fn combine(self, other: Self) -> (r: Self)
        requires
            self.amount() + other.amount() <= Self::ceiling(),
        ensures
            r.amount() == self.amount() + other.amount(),
    ;
}

impl Aggregate for u64 {
    open spec fn amount(self) -> nat {
        self as nat
    }

    open spec fn ceiling() -> nat {
        u64::MAX as nat
    }

    fn identity() -> (z: u64) {
        0
    }

    fn combine(self, other: u64) -> (r: u64) {
        self + other
    }
}

impl Aggregate for u32 {
    open spec fn amount(self) -> nat {
        self as nat
    }

    open spec fn ceiling() -> nat {
        u32::MAX as nat
    }

    fn identity() -> (z: u32) {
        0
    }

    fn combine(self, other: u32) -> (r: u32) {
        self + other
    }
}

impl Aggregate for usize {
    open spec fn amount(self) -> nat {
        self as nat
    }

    open spec fn ceiling() -> nat {
        usize::MAX as nat
    }

    fn identity() -> (z: usize) {
        0
    }

    fn combine(self, other: usize) -> (r: usize) {
        self + other
    }
}

/// The sum of the amounts of `g` over the first `n` items of `s`, added
/// from the front.
pub open spec fn total_upto<T, O: Aggregate>(s: Stream<T>, g: spec_fn(T) -> O, n: nat) -> nat
    decreases n,
{
    if n == 0 {
        0
    } else {
        total_upto(s, g, (n - 1) as nat) + g(s.at((n - 1) as nat)).amount()
    }
}

/// The sum of the amounts of `g` over all items of a stream that ends: what
/// a pass over `s` from its front adds up.
pub open spec fn total<T, O: Aggregate>(s: Stream<T>, g: spec_fn(T) -> O) -> nat
    recommends
        s.len is Some,
{
    total_upto(s, g, s.len->0)
}

/// A sum over more items is not smaller.
pub proof fn lemma_total_grows<T, O: Aggregate>(s: Stream<T>, g: spec_fn(T) -> O, a: nat, b: nat)
    requires
        a <= b,
    ensures
        total_upto(s, g, a) <= total_upto(s, g, b),
    decreases b,
{
    if a < b {
        lemma_total_grows(s, g, a, (b - 1) as nat);
    }
}

/// Two functions that agree on the first `n` items of `s` have the same sum
/// over them.
pub proof fn lemma_total_agrees<T, O: Aggregate>(
    s: Stream<T>,
    g: spec_fn(T) -> O,
    h: spec_fn(T) -> O,
    n: nat,
)
    requires
        forall|i: nat| i < n ==> g(#[trigger] s.at(i)) == h(s.at(i)),
    ensures
        total_upto(s, g, n) == total_upto(s, h, n),
    decreases n,
{
    if n > 0 {
        lemma_total_agrees(s, g, h, (n - 1) as nat);
    }
}

/// The sum over the `n` items of `s` from place `from` on is what they add
/// to the sum of the items before them.
pub proof fn lemma_total_window<T, O: Aggregate>(
    s: Stream<T>,
    g: spec_fn(T) -> O,
    from: nat,
    n: nat,
)
    ensures
        total_upto(s, g, from) + total(Stream::of(s.window(from, n)), g) == total_upto(
            s,
            g,
            from + n,
        ),
    decreases n,
{
    let part = Stream::of(s.window(from, n));
    if n > 0 {
        let m = (n - 1) as nat;
        let less = Stream::of(s.window(from, m));
        lemma_total_window(s, g, from, m);
        assert forall|i: nat| i < m implies #[trigger] part.at(i) == less.at(i) by {}
        lemma_total_same_items(part, less, g, m);
    }
}

/// Two streams with the same first `n` items have the same sum over them.
pub proof fn lemma_total_same_items<T, O: Aggregate>(
    s: Stream<T>,
    t: Stream<T>,
    g: spec_fn(T) -> O,
    n: nat,
)
    requires
        forall|i: nat| i < n ==> #[trigger] s.at(i) == t.at(i),
    ensures
        total_upto(s, g, n) == total_upto(t, g, n),
    decreases n,
{
    if n > 0 {
        lemma_total_same_items(s, t, g, (n - 1) as nat);
    }
}

/// The sum of the results of `map` on the items, added from the first on.
pub fn tally<T, O: Aggregate, F: Fn(T) -> O>(items: Vec<T>, map: &F) -> (r: O)
    requires
        accepts(*map, Stream::of(items@)),
        exists|g: spec_fn(T) -> O|
            computes(*map, g) && total(Stream::of(items@), g) <= O::ceiling(),
    ensures
        forall|i: nat| i < items@.len() ==> answers(*map, #[trigger] Stream::of(items@).at(i)),
        forall|g: spec_fn(T) -> O| #[trigger]
            computes(*map, g) ==> r.amount() == total(Stream::of(items@), g),
{
    let ghost s = Stream::of(items@);
    let ghost g0 = choose|g: spec_fn(T) -> O| computes(*map, g) && total(s, g) <= O::ceiling();
    let n = items.len();
    let mut sum = O::identity();
    let mut i: usize = 0;
    for x in it: items.into_iter()
        invariant
            i == it.index(),
            it.seq() == items@,
            items@.len() == n,
            s == Stream::of(items@),
            accepts(*map, s),
            computes(*map, g0),
            total(s, g0) <= O::ceiling(),
            sum.amount() == total_upto(s, g0, i as nat),
            forall|j: nat| j < i ==> answers(*map, #[trigger] s.at(j)),
    {
        assert(s.has(i as nat) && s.at(i as nat) == x);
        let y = map(x);
        proof {
            lemma_total_grows(s, g0, (i + 1) as nat, n as nat);
        }
        sum = sum.combine(y);
        i = i + 1;
    }
    proof {
        assert forall|g: spec_fn(T) -> O| #[trigger] computes(*map, g) implies sum.amount()
            == total(s, g) by {
            lemma_answered_agree(s, *map, g, g0, n as nat);
            lemma_total_agrees(s, g, g0, n as nat);
        }
    }
    sum
}

impl<T> Chunk<T> {
    /// The work on one chunk: the sum of the results of `map` on its items.
    pub fn tally<O: Aggregate, F: Fn(T) -> O>(self, map: &F) -> (r: O)
        requires
            accepts(*map, Stream::of(self.items())),
            exists|g: spec_fn(T) -> O|
                computes(*map, g) && total(Stream::of(self.items()), g) <= O::ceiling(),
        ensures
            forall|i: nat|
                i < self.items().len() ==> answers(
                    *map,
                    #[trigger] Stream::of(self.items()).at(i),
                ),
            forall|g: spec_fn(T) -> O| #[trigger]
                computes(*map, g) ==> r.amount() == total(Stream::of(self.items()), g),
    {
        let (_, _, items) = self.into_parts();
        tally(items, map)
    }
}

/// The sum of the numbers in `parts`.
pub open spec fn sum_of(parts: Seq<nat>) -> nat
    decreases parts.len(),
{
    if parts.len() == 0 {
        0
    } else {
        sum_of(parts.drop_last()) + parts.last()
    }
}

/// The state of a sum as its contracts see it.
pub struct ReduceView {
    /// The largest number of chunks that may be in flight.
    pub cap: nat,
    /// The number of chunks dispatched that have not reported yet.
    pub in_flight: nat,
    /// The amount of the running total.
    pub sum: nat,
    /// The source has ended.
    pub stopped: bool,
    /// The amounts of the partial sums that came in, in the order of their
    /// arrival.
    pub received: Seq<nat>,
}

impl ReduceView {
    /// The sum is done once the source has ended and nothing is in flight.
    pub open spec fn done(self) -> bool {
        self.stopped && self.in_flight == 0
    }
}

/// Takes the partial sums of the chunks as they arrive, in any order, adds
/// them to a running total, and counts the chunks in flight.
pub struct ReduceAggregator<O: Aggregate> {
    cap: usize,
    in_flight: usize,
    sum: O,
    stopped: bool,
    received: Ghost<Seq<nat>>,
}

impl<O: Aggregate> View for ReduceAggregator<O> {
    type V = ReduceView;

    closed spec fn view(&self) -> ReduceView {
        ReduceView {
            cap: self.cap as nat,
            in_flight: self.in_flight as nat,
            sum: self.sum.amount(),
            stopped: self.stopped,
            received: self.received@,
        }
    }
}

impl<O: Aggregate> ReduceAggregator<O> {
    /// The aggregator's invariant: no more chunks are in flight than the
    /// cap allows, and the running total is the sum of what was received.
    pub open spec fn wf(&self) -> bool {
        &&& self@.cap > 0
        &&& self@.in_flight <= self@.cap
        &&& self@.sum == sum_of(self@.received)
    }

    /// The state after priming: `primed` chunks are in flight and the total
    /// is the identity. Fewer than `num_threads` of them means that the
    /// source ended while priming.
    pub fn after_prime(num_threads: usize, primed: usize) -> (a: Self)
        requires
            0 < num_threads,
            primed <= num_threads,
        ensures
            a.wf(),
            a@ == (ReduceView {
                cap: num_threads as nat,
                in_flight: primed as nat,
                sum: 0,
                stopped: primed < num_threads,
                received: Seq::empty(),
            }),
    {
        ReduceAggregator {
            cap: num_threads,
            in_flight: primed,
            sum: O::identity(),
            stopped: primed < num_threads,
            received: Ghost(Seq::empty()),
        }
    }

    /// Whether a chunk is to be dispatched now: the source has not ended
    /// and the cap leaves room for one.
    pub fn wants_chunk(&self) -> (b: bool)
        ensures
            b == (!self@.stopped && self@.in_flight < self@.cap),
    {
        !self.stopped && self.in_flight < self.cap
    }

    /// Notes that one more chunk was dispatched.
    pub fn dispatched(&mut self)
        requires
            old(self).wf(),
            !old(self)@.stopped,
            old(self)@.in_flight < old(self)@.cap,
        ensures
            final(self).wf(),
            final(self)@ == (ReduceView { in_flight: old(self)@.in_flight + 1, ..old(self)@ }),
    {
        self.in_flight = self.in_flight + 1;
    }

    /// Notes that the source has ended: no chunk is dispatched from now on.
    pub fn exhausted(&mut self)
        requires
            old(self).wf(),
        ensures
            final(self).wf(),
            final(self)@ == (ReduceView { stopped: true, ..old(self)@ }),
    {
        self.stopped = true;
    }

    /// Takes the partial sum of one chunk in flight and adds it to the
    /// running total.
    pub fn accept(&mut self, part: O)
        requires
            old(self).wf(),
            old(self)@.in_flight > 0,
            old(self)@.sum + part.amount() <= O::ceiling(),
        ensures
            final(self).wf(),
            final(self)@ == (ReduceView {
                in_flight: (old(self)@.in_flight - 1) as nat,
                sum: old(self)@.sum + part.amount(),
                received: old(self)@.received.push(part.amount()),
                ..old(self)@
            }),
    {
        self.in_flight = self.in_flight - 1;
        let mut held = O::identity();
        core::mem::swap(&mut self.sum, &mut held);
        self.sum = held.combine(part);
        proof {
            let before = self.received@;
            self.received@ = before.push(part.amount());
            assert(self.received@.drop_last() =~= before);
        }
    }

    /// The number of chunks in flight.
    pub fn in_flight(&self) -> (n: usize)
        ensures
            n == self@.in_flight,
    {
        self.in_flight
    }

    /// Whether every chunk has reported and none is to come.
    pub fn is_done(&self) -> (b: bool)
        ensures
            b == self@.done(),
    {
        self.stopped && self.in_flight == 0
    }

    /// The running total: the result of the sum once it is done.
    pub fn into_total(self) -> (r: O)
        ensures
            r.amount() == self@.sum,
    {
        self.sum
    }
}

} // verus!
