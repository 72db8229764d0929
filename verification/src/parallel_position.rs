//! The position of the first item of a source that meets a condition.

use std::collections::VecDeque;
use vstd::prelude::*;
use crate::applied::{accepts, computes, lemma_accepts_take, lemma_chunk_accepted};
use crate::config::{check_config, valid_config, ConfigError};
use crate::dispatch::{reach, Chunk, Dispatcher};
use crate::search::{answered, first_match, lemma_answered_first_match, place, SearchAggregator};
use crate::stream::{stream_of, Source, Stream};

verus! {

/// What a chunk cut from `s` was answered is what `f` answered on the
/// items of `s` between the chunk's start and its end.
pub proof fn lemma_answered_in_stream<T, F: Fn(T) -> bool>(
    c: Chunk<T>,
    s: Stream<T>,
    f: F,
    local: Option<nat>,
)
    requires
        c.cut_from(s),
        answered(Stream::of(c.items()), f, local),
    ensures
        match local {
            Some(l) => {
                &&& l < c.items().len()
                &&& s.has(c.start() + l)
                &&& call_ensures(f, (s.at(c.start() + l),), true)
                &&& forall|i: nat|
                    c.start() <= i < c.start() + l ==> call_ensures(f, (#[trigger] s.at(i),), false)
            },
            None => forall|i: nat|
                c.start() <= i < c.start() + c.items().len() ==> call_ensures(
                    f,
                    (#[trigger] s.at(i),),
                    false,
                ),
        },
{
    let part = Stream::of(c.items());
    let n = c.items().len();
    let upto = match local {
        Some(l) => l,
        None => n,
    };
    c.lemma_cut(s);
    assert forall|t: nat| t < n implies s.has(c.start() + t) && #[trigger] part.at(t) == s.at(
        c.start() + t,
    ) by {}
    assert forall|i: nat| c.start() <= i < c.start() + upto implies call_ensures(
        f,
        (#[trigger] s.at(i),),
        false,
    ) by {
        let t = (i - c.start()) as nat;
        assert(call_ensures(f, (part.at(t),), false));
    }
}

/// The search for the first item of a source that meets a condition, done
/// chunk by chunk.
pub struct ParallelPosition;

impl ParallelPosition {
    /// The position of the first item of `source` that meets `condition`,
    /// or `None` where no item within reach does.
    ///
    /// The source is cut into chunks of `chunk_size` items, of which up to
    /// `num_threads` are in flight at a time. A chunk that reports no match
    /// is replaced by the next one; the first match ends the dispatching,
    /// and the smallest position among the chunks still in flight is the
    /// result. Neither `num_threads` nor `chunk_size` has a part in it.
    pub fn find<S: Source, F: Fn(S::Item) -> bool>(
        source: S,
        condition: F,
        num_threads: usize,
        chunk_size: usize,
    ) -> (r: Option<usize>)
        requires
            valid_config(num_threads, chunk_size),
            accepts(condition, stream_of(&source)),
        ensures
            answered(stream_of(&source).take(reach()), condition, place(r)),
            forall|p: spec_fn(S::Item) -> bool| #[trigger]
                computes(condition, p) ==> place(r) == first_match(
                    stream_of(&source).take(reach()),
                    p,
                ),
    {
        let ghost s = stream_of(&source).take(reach());
        let mut dispatcher = Dispatcher::new(source, chunk_size);
        let mut queue: VecDeque<Chunk<S::Item>> = dispatcher.prime(num_threads);
        let mut aggregator = SearchAggregator::after_prime(num_threads, queue.len());
        // The chunks before `done` have reported; those in the queue are in
        // flight, oldest first.
        let ghost mut done: nat = 0;
        proof {
            dispatcher.lemma_wf();
            lemma_accepts_take(condition, stream_of(&source), reach());
        }
        while queue.len() > 0
            invariant
                dispatcher.wf(),
                dispatcher.origin() == s,
                dispatcher.stride() == chunk_size,
                chunk_size > 0,
                s.len is Some,
                aggregator.wf(),
                aggregator@.cap == num_threads,
                aggregator@.in_flight == queue@.len(),
                !aggregator@.stopped ==> queue@.len() == num_threads,
                done + queue@.len() == dispatcher.issued(),
                forall|j: int|
                    0 <= j < queue@.len() ==> {
                        &&& (#[trigger] queue@[j]).index() == done + j
                        &&& queue@[j].stride() == chunk_size
                        &&& queue@[j].cut_from(s)
                    },
                accepts(condition, s),
                match aggregator@.best {
                    Some(g) => g < done * chunk_size && answered(s, condition, Some(g as nat)),
                    None => forall|i: nat|
                        i < done * chunk_size && s.has(i) ==> call_ensures(
                            condition,
                            (#[trigger] s.at(i),),
                            false,
                        ),
                },
                aggregator@.stopped && aggregator@.best is None ==> dispatcher.pending().is_empty(),
            decreases s.len->0 - dispatcher.handed() + queue@.len(),
        {
            let chunk = queue.pop_front().unwrap();
            proof {
                chunk.lemma_cut(s);
                lemma_chunk_accepted(chunk, s, condition);
                assert((done + 1) * chunk_size == done * chunk_size + chunk_size)
                    by (nonlinear_arith);
                dispatcher.lemma_wf();
            }
            let ghost held = aggregator@.best;
            let outcome = chunk.search(&condition);
            aggregator.accept(outcome);
            proof {
                lemma_answered_in_stream(chunk, s, condition, chunk.local(place(outcome)));
                if held is None && outcome is None {
                    assert forall|i: nat|
                        i < (done + 1) * chunk_size && s.has(i) implies call_ensures(
                        condition,
                        (#[trigger] s.at(i),),
                        false,
                    ) by {}
                }
                done = done + 1;
            }
            if aggregator.wants_chunk() {
                let ghost issued = dispatcher.issued();
                match dispatcher.refill_one() {
                    Some(next) => {
                        queue.push_back(next);
                        aggregator.dispatched();
                        proof {
                            dispatcher.lemma_wf();
                            next.lemma_cut(s);
                            assert((issued + 1) * chunk_size == issued * chunk_size + chunk_size)
                                by (nonlinear_arith);
                        }
                    },
                    None => {
                        aggregator.exhausted();
                    },
                }
            }
        }
        let r = aggregator.result();
        proof {
            if r is None {
                assert forall|i: nat| s.has(i) implies i < done * chunk_size by {}
            }
            assert forall|p: spec_fn(S::Item) -> bool| #[trigger]
                computes(condition, p) implies place(r) == first_match(s, p) by {
                lemma_answered_first_match(s, condition, p, place(r));
            }
        }
        r
    }

    /// As [`ParallelPosition::find`], for numbers that were not checked: a
    /// thread cap or a chunk size of zero is refused before anything is
    /// taken from the source.
    pub fn try_find<S: Source, F: Fn(S::Item) -> bool>(
        source: S,
        condition: F,
        num_threads: usize,
        chunk_size: usize,
    ) -> (r: Result<Option<usize>, ConfigError>)
        requires
            accepts(condition, stream_of(&source)),
        ensures
            r == Err::<Option<usize>, ConfigError>(ConfigError::ZeroThreads) <==> num_threads == 0,
            r == Err::<Option<usize>, ConfigError>(ConfigError::ZeroChunkSize) <==> num_threads != 0
                && chunk_size == 0,
            r matches Ok(found) ==> {
                &&& answered(stream_of(&source).take(reach()), condition, place(found))
                &&& forall|p: spec_fn(S::Item) -> bool| #[trigger]
                    computes(condition, p) ==> place(found) == first_match(
                        stream_of(&source).take(reach()),
                        p,
                    )
            },
    {
        match check_config(num_threads, chunk_size) {
            Err(e) => Err(e),
            Ok(()) => Ok(Self::find(source, condition, num_threads, chunk_size)),
        }
    }
}

} // verus!
