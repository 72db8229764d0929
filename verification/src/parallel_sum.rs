//! The sum of a transform over the items of a source.

use std::collections::VecDeque;
use vstd::prelude::*;
use crate::config::{check_config, valid_config, ConfigError};
use crate::applied::{accepts, answers, computes, lemma_answered_agree, lemma_chunk_accepted};
use crate::dispatch::{covered, reach, Chunk, Dispatcher};
use crate::reduce::{
    lemma_total_agrees, lemma_total_grows, lemma_total_window, total, total_upto, Aggregate,
    ReduceAggregator,
};
use crate::stream::{stream_of, Source, Stream};

verus! {

/// The sum of a transform over the items of a source, done chunk by chunk.
pub struct ParallelSum;

impl ParallelSum {
    /// The sum of the results of `map` on the items of `source`.
    ///
    /// The source is cut into chunks of `chunk_size` items, of which up to
    /// `num_threads` are in flight at a time. Each chunk gives the sum over
    /// its items, and the sums of the chunks are added up as they report.
    /// Neither `num_threads` nor `chunk_size` has a part in the result.
    ///
    /// The source has to end, within the number of items that a `usize` can
    /// count, `map` has to compute a function, and the sum has to be one
    /// that the result type can hold.
    pub fn map_sum<S: Source, O: Aggregate, F: Fn(S::Item) -> O>(
        source: S,
        map: F,
        num_threads: usize,
        chunk_size: usize,
    ) -> (r: O)
        requires
            valid_config(num_threads, chunk_size),
            accepts(map, stream_of(&source)),
            stream_of(&source).len matches Some(n) && n <= reach(),
            exists|g: spec_fn(S::Item) -> O|
                computes(map, g) && total(stream_of(&source), g) <= O::ceiling(),
        ensures
            forall|i: nat|
                stream_of(&source).has(i) ==> answers(map, #[trigger] stream_of(&source).at(i)),
            forall|g: spec_fn(S::Item) -> O| #[trigger]
                computes(map, g) ==> r.amount() == total(stream_of(&source), g),
    {
        let ghost s = stream_of(&source);
        let ghost g0 = choose|g: spec_fn(S::Item) -> O|
            computes(map, g) && total(s, g) <= O::ceiling();
        let ghost len = s.len->0;
        assert(s.take(reach()) =~= s);
        let mut dispatcher = Dispatcher::new(source, chunk_size);
        let mut queue: VecDeque<Chunk<S::Item>> = dispatcher.prime(num_threads);
        let mut aggregator = ReduceAggregator::<O>::after_prime(num_threads, queue.len());
        // The chunks before `done` have reported; those in the queue are in
        // flight, oldest first.
        let ghost mut done: nat = 0;
        proof {
            dispatcher.lemma_wf();
        }
        while queue.len() > 0
            invariant
                dispatcher.wf(),
                dispatcher.origin() == s,
                dispatcher.stride() == chunk_size,
                chunk_size > 0,
                s.len == Some(len),
                aggregator.wf(),
                aggregator@.cap == num_threads,
                aggregator@.in_flight == queue@.len(),
                !aggregator@.stopped ==> queue@.len() == num_threads,
                aggregator@.stopped ==> dispatcher.pending().is_empty(),
                done + queue@.len() == dispatcher.issued(),
                forall|j: int|
                    0 <= j < queue@.len() ==> {
                        &&& (#[trigger] queue@[j]).index() == done + j
                        &&& queue@[j].stride() == chunk_size
                        &&& queue@[j].cut_from(s)
                    },
                accepts(map, s),
                computes(map, g0),
                total(s, g0) <= O::ceiling(),
                aggregator@.sum == total_upto(s, g0, covered(done, chunk_size as nat, len)),
                forall|i: nat|
                    i < covered(done, chunk_size as nat, len) ==> answers(map, #[trigger] s.at(i)),
            decreases len - dispatcher.handed() + queue@.len(),
        {
            let chunk = queue.pop_front().unwrap();
            let ghost n = chunk.items().len();
            let ghost part_stream = Stream::of(chunk.items());
            proof {
                chunk.lemma_cut(s);
                lemma_chunk_accepted(chunk, s, map);
                assert((done + 1) * chunk_size == done * chunk_size + chunk_size)
                    by (nonlinear_arith);
                dispatcher.lemma_wf();
                lemma_total_window(s, g0, chunk.start(), n);
                lemma_total_grows(s, g0, chunk.start() + n, len);
            }
            let part = chunk.tally(&map);
            aggregator.accept(part);
            proof {
                assert forall|i: nat| i < chunk.start() + n implies answers(
                    map,
                    #[trigger] s.at(i),
                ) by {
                    if i >= chunk.start() {
                        let t = (i - chunk.start()) as nat;
                        assert(part_stream.at(t) == s.at(i));
                    }
                }
                done = done + 1;
            }
            if aggregator.wants_chunk() {
                let ghost issued = dispatcher.issued();
                match dispatcher.refill_one() {
                    Some(next) => {
                        queue.push_back(next);
                        aggregator.dispatched();
                        proof {
                            dispatcher.lemma_wf();
                            next.lemma_cut(s);
                            assert((issued + 1) * chunk_size == issued * chunk_size + chunk_size)
                                by (nonlinear_arith);
                        }
                    },
                    None => {
                        aggregator.exhausted();
                    },
                }
            }
        }
        let r = aggregator.into_total();
        proof {
            assert forall|g: spec_fn(S::Item) -> O| #[trigger] computes(map, g) implies r.amount()
                == total(s, g) by {
                lemma_answered_agree(s, map, g, g0, len);
                lemma_total_agrees(s, g, g0, len);
            }
        }
        r
    }

    /// As [`ParallelSum::map_sum`], for numbers that were not checked: a
    /// thread cap or a chunk size of zero is refused before anything is
    /// taken from the source.
    pub fn try_map_sum<S: Source, O: Aggregate, F: Fn(S::Item) -> O>(
        source: S,
        map: F,
        num_threads: usize,
        chunk_size: usize,
    ) -> (r: Result<O, ConfigError>)
        requires
            accepts(map, stream_of(&source)),
            stream_of(&source).len matches Some(n) && n <= reach(),
            exists|g: spec_fn(S::Item) -> O|
                computes(map, g) && total(stream_of(&source), g) <= O::ceiling(),
        ensures
            r is Err <==> !valid_config(num_threads, chunk_size),
            r matches Err(e) ==> (e == ConfigError::ZeroThreads <==> num_threads == 0),
            r matches Ok(sum) ==> forall|g: spec_fn(S::Item) -> O| #[trigger]
                computes(map, g) ==> sum.amount() == total(stream_of(&source), g),
    {
        match check_config(num_threads, chunk_size) {
            Err(e) => Err(e),
            Ok(()) => Ok(Self::map_sum(source, map, num_threads, chunk_size)),
        }
    }
}

} // verus!
