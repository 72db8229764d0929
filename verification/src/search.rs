//! What the search is for, stated over streams; the work done on one chunk;
//! and the aggregator, which takes the results of the chunks in the order in
//! which they arrive and decides what is done next.

use vstd::prelude::*;
use crate::applied::{accepts, computes};
use crate::dispatch::Chunk;
use crate::stream::Stream;

verus! {

/// The item at place `i` of `s` meets the condition `p`.
pub open spec fn matches_at<T>(s: Stream<T>, p: spec_fn(T) -> bool, i: nat) -> bool {
    s.has(i) && p(s.at(i))
}

/// Place `i` is the first of `s` whose item meets `p`.
pub open spec fn is_first_match<T>(s: Stream<T>, p: spec_fn(T) -> bool, i: nat) -> bool {
    &&& matches_at(s, p, i)
    &&& forall|j: nat| j < i ==> !matches_at(s, p, j)
}

/// The first place of `s` whose item meets `p`: what a pass over `s` from
/// its front finds. `None` where no item meets `p`.
pub open spec fn first_match<T>(s: Stream<T>, p: spec_fn(T) -> bool) -> Option<nat> {
    if exists|i: nat| is_first_match(s, p, i) {
        Some(choose|i: nat| is_first_match(s, p, i))
    } else {
        None
    }
}

/// A stream has one first match at most.
pub proof fn lemma_first_match_is<T>(s: Stream<T>, p: spec_fn(T) -> bool, i: nat)
    requires
        is_first_match(s, p, i),
    ensures
        first_match(s, p) == Some(i),
{
    let k = choose|k: nat| is_first_match(s, p, k);
}

/// Where an item meets `p`, there is a first one that does, at or before it.
pub proof fn lemma_first_match_exists<T>(s: Stream<T>, p: spec_fn(T) -> bool, i: nat)
    requires
        matches_at(s, p, i),
    ensures
        first_match(s, p) matches Some(k) && k <= i && is_first_match(s, p, k),
    decreases i,
{
    if exists|j: nat| j < i && matches_at(s, p, j) {
        let j = choose|j: nat| j < i && matches_at(s, p, j);
        lemma_first_match_exists(s, p, j);
    } else {
        lemma_first_match_is(s, p, i);
    }
}

/// A position as a place in a stream.
pub open spec fn place(r: Option<usize>) -> Option<nat> {
    match r {
        Some(i) => Some(i as nat),
        None => None,
    }
}

/// The answers of `f` on the items of `s` that make `r` the result of a
/// search: at the place `r` names `f` returned `true` and at every place
/// before it `false`; for `None`, `f` returned `false` at every place.
pub open spec fn answered<T, F: Fn(T) -> bool>(s: Stream<T>, f: F, r: Option<nat>) -> bool {
    match r {
        Some(i) => {
            &&& s.has(i)
            &&& call_ensures(f, (s.at(i),), true)
            &&& forall|j: nat| j < i ==> call_ensures(f, (#[trigger] s.at(j),), false)
        },
        None => forall|i: nat| s.has(i) ==> call_ensures(f, (#[trigger] s.at(i),), false),
    }
}

/// Answers that make `r` the result make it the first match of every
/// condition that `f` computes.
pub proof fn lemma_answered_first_match<T, F: Fn(T) -> bool>(
    s: Stream<T>,
    f: F,
    p: spec_fn(T) -> bool,
    r: Option<nat>,
)
    requires
        answered(s, f, r),
        computes(f, p),
    ensures
        r == first_match(s, p),
{
    match r {
        Some(i) => {
            assert forall|j: nat| j < i implies !matches_at(s, p, j) by {}
            lemma_first_match_is(s, p, i);
        },
        None => {
            assert forall|i: nat| !is_first_match(s, p, i) by {}
        },
    }
}

/// The local offset of the first of `items` that meets `condition`, or
/// `None` where none does. The items after a match are not looked at.
pub fn position<T, F: Fn(T) -> bool>(items: Vec<T>, condition: &F) -> (r: Option<usize>)
    requires
        accepts(*condition, Stream::of(items@)),
    ensures
        answered(Stream::of(items@), *condition, place(r)),
        forall|p: spec_fn(T) -> bool| #[trigger]
            computes(*condition, p) ==> place(r) == first_match(Stream::of(items@), p),
{
    let ghost s = Stream::of(items@);
    let n = items.len();
    let mut i: usize = 0;
    for x in it: items.into_iter()
        invariant
            i == it.index(),
            it.seq() == items@,
            items@.len() == n,
            s == Stream::of(items@),
            accepts(*condition, s),
            forall|j: nat| j < i ==> call_ensures(*condition, (#[trigger] s.at(j),), false),
    {
        assert(s.has(i as nat) && s.at(i as nat) == x);
        if condition(x) {
            proof {
                assert forall|p: spec_fn(T) -> bool| #[trigger]
                    computes(*condition, p) implies Some(i as nat) == first_match(s, p) by {
                    lemma_answered_first_match(s, *condition, p, Some(i as nat));
                }
            }
            return Some(i);
        }
        i = i + 1;
    }
    proof {
        assert forall|p: spec_fn(T) -> bool| #[trigger] computes(*condition, p) implies None::<nat>
            == first_match(s, p) by {
            lemma_answered_first_match(s, *condition, p, None);
        }
    }
    None
}

impl<T> Chunk<T> {
    /// The place in the source that belongs to a place within the chunk.
    pub open spec fn global(self, local: Option<nat>) -> Option<nat> {
        match local {
            Some(i) => Some(self.start() + i),
            None => None,
        }
    }

    /// The place within the chunk that belongs to a place in the source at
    /// or after the chunk's start.
    pub open spec fn local(self, global: Option<nat>) -> Option<nat> {
        match global {
            Some(g) => Some((g - self.start()) as nat),
            None => None,
        }
    }

    /// The work on one chunk: looks for the first item that meets
    /// `condition` and gives its position in the source, which is the
    /// chunk's start plus the offset within the chunk. The items after a
    /// match are not looked at.
    pub fn search<F: Fn(T) -> bool>(self, condition: &F) -> (r: Option<usize>)
        requires
            accepts(*condition, Stream::of(self.items())),
        ensures
            r matches Some(g) ==> self.start() <= g,
            answered(Stream::of(self.items()), *condition, self.local(place(r))),
            forall|p: spec_fn(T) -> bool| #[trigger]
                computes(*condition, p) ==> place(r) == self.global(
                    first_match(Stream::of(self.items()), p),
                ),
    {
        let (index, stride, items) = self.into_parts();
        let start = index * stride;
        let found = position(items, condition);
        let r = match found {
            Some(local) => Some(start + local),
            None => None,
        };
        assert(self.local(place(r)) == place(found));
        r
    }
}

/// The smaller of two candidates for the result. One that is missing gives
/// way to the other.
pub open spec fn least(a: Option<usize>, b: Option<usize>) -> Option<usize> {
    match (a, b) {
        (Some(x), Some(y)) => Some(
            if y < x {
                y
            } else {
                x
            },
        ),
        (Some(x), None) => Some(x),
        (None, _) => b,
    }
}

/// The smallest position among `outcomes`, or `None` where all are `None`.
pub open spec fn least_of(outcomes: Seq<Option<usize>>) -> Option<usize>
    decreases outcomes.len(),
{
    if outcomes.len() == 0 {
        None
    } else {
        least(least_of(outcomes.drop_last()), outcomes.last())
    }
}

/// Where a search stands.
#[derive(Clone, Copy, PartialEq, Eq, Debug, Structural)]
pub enum Phase {
    /// No match has been seen and the source has not ended: a chunk that
    /// reports is replaced by a new one.
    Dispatching,
    /// No new chunk is dispatched; results of chunks in flight are still
    /// to come.
    Draining,
    /// Every chunk that was dispatched has reported.
    Done,
}

/// The state of a search as its contracts see it.
pub struct SearchView {
    /// The largest number of chunks that may be in flight.
    pub cap: nat,
    /// The number of chunks dispatched that have not reported yet.
    pub in_flight: nat,
    /// The smallest position reported so far.
    pub best: Option<usize>,
    /// A match was reported, or the source has ended.
    pub stopped: bool,
    /// The results that came in, in the order of their arrival.
    pub received: Seq<Option<usize>>,
}

impl SearchView {
    pub open spec fn phase(self) -> Phase {
        if !self.stopped {
            Phase::Dispatching
        } else if self.in_flight > 0 {
            Phase::Draining
        } else {
            Phase::Done
        }
    }
}

/// Takes the results of the chunks as they arrive, in any order, keeps the
/// smallest position among them, and counts the chunks in flight.
pub struct SearchAggregator {
    cap: usize,
    in_flight: usize,
    best: Option<usize>,
    stopped: bool,
    received: Ghost<Seq<Option<usize>>>,
}

impl View for SearchAggregator {
    type V = SearchView;

    closed spec fn view(&self) -> SearchView {
        SearchView {
            cap: self.cap as nat,
            in_flight: self.in_flight as nat,
            best: self.best,
            stopped: self.stopped,
            received: self.received@,
        }
    }
}

impl SearchAggregator {
    /// The aggregator's invariant: no more chunks are in flight than the
    /// cap allows, the best position is the smallest that was received, and
    /// while chunks are still dispatched none has reported a match.
    pub open spec fn wf(&self) -> bool {
        &&& self@.cap > 0
        &&& self@.in_flight <= self@.cap
        &&& self@.best == least_of(self@.received)
        &&& !self@.stopped ==> self@.best is None
    }

    /// The state after priming: `primed` chunks are in flight. Fewer than
    /// `num_threads` of them means that the source ended while priming.
    pub fn after_prime(num_threads: usize, primed: usize) -> (a: Self)
        requires
            0 < num_threads,
            primed <= num_threads,
        ensures
            a.wf(),
            a@ == (SearchView {
                cap: num_threads as nat,
                in_flight: primed as nat,
                best: None,
                stopped: primed < num_threads,
                received: Seq::empty(),
            }),
    {
        SearchAggregator {
            cap: num_threads,
            in_flight: primed,
            best: None,
            stopped: primed < num_threads,
            received: Ghost(Seq::empty()),
        }
    }

    /// Whether a chunk is to be dispatched now: chunks are still
    /// dispatched and the cap leaves room for one.
    pub fn wants_chunk(&self) -> (b: bool)
        ensures
            b == (!self@.stopped && self@.in_flight < self@.cap),
    {
        !self.stopped && self.in_flight < self.cap
    }

    /// Notes that one more chunk was dispatched.
    pub fn dispatched(&mut self)
        requires
            old(self).wf(),
            !old(self)@.stopped,
            old(self)@.in_flight < old(self)@.cap,
        ensures
            final(self).wf(),
            final(self)@ == (SearchView { in_flight: old(self)@.in_flight + 1, ..old(self)@ }),
    {
        self.in_flight = self.in_flight + 1;
    }

    /// Notes that the source has ended: no chunk is dispatched from now on.
    pub fn exhausted(&mut self)
        requires
            old(self).wf(),
        ensures
            final(self).wf(),
            final(self)@ == (SearchView { stopped: true, ..old(self)@ }),
    {
        self.stopped = true;
    }

    /// Takes the result of one chunk in flight. A match ends the
    /// dispatching; the best position is the smaller of the one held and
    /// the one that came.
    pub fn accept(&mut self, outcome: Option<usize>)
        requires
            old(self).wf(),
            old(self)@.in_flight > 0,
        ensures
            final(self).wf(),
            final(self)@ == (SearchView {
                in_flight: (old(self)@.in_flight - 1) as nat,
                best: least(old(self)@.best, outcome),
                stopped: old(self)@.stopped || outcome is Some,
                received: old(self)@.received.push(outcome),
                ..old(self)@
            }),
    {
        self.in_flight = self.in_flight - 1;
        match outcome {
            Some(pos) => {
                self.stopped = true;
                match self.best {
                    None => {
                        self.best = Some(pos);
                    },
                    Some(held) => {
                        if pos < held {
                            self.best = Some(pos);
                        }
                    },
                }
            },
            None => {},
        }
        proof {
            let before = self.received@;
            self.received@ = before.push(outcome);
            assert(self.received@.drop_last() =~= before);
        }
    }

    /// The number of chunks in flight.
    pub fn in_flight(&self) -> (n: usize)
        ensures
            n == self@.in_flight,
    {
        self.in_flight
    }

    /// Where the search stands.
    pub fn phase(&self) -> (p: Phase)
        ensures
            p == self@.phase(),
    {
        if !self.stopped {
            Phase::Dispatching
        } else if self.in_flight > 0 {
            Phase::Draining
        } else {
            Phase::Done
        }
    }

    /// The smallest position reported so far: the result of the search
    /// once it is done.
    pub fn result(&self) -> (r: Option<usize>)
        ensures
            r == self@.best,
    {
        self.best
    }
}

} // verus!
