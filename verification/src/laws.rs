//! What holds of a traversal whatever the chunk size, the thread cap and the
//! order in which the chunks report.

use vstd::prelude::*;
use crate::applied::computes;
use crate::config::valid_config;
use crate::dispatch::{chunk_of, covered, reach, Chunk};
use crate::reduce::{lemma_total_same_items, sum_of, total, total_upto, Aggregate};
use crate::search::{
    answered, first_match, is_first_match, least_of, lemma_answered_first_match,
    lemma_first_match_exists, lemma_first_match_is, matches_at, place,
};
use crate::stream::Stream;

verus! {

/// What a pass over `items` from the front finds: the offset of the first
/// item that meets `p`, looked for one item after the other.
pub open spec fn scan<T>(items: Seq<T>, p: spec_fn(T) -> bool) -> Option<nat>
    decreases items.len(),
{
    if items.len() == 0 {
        None
    } else if p(items[0]) {
        Some(0nat)
    } else {
        match scan(items.drop_first(), p) {
            Some(i) => Some(i + 1),
            None => None,
        }
    }
}

/// The first match of a sequence is what a pass from its front finds.
pub proof fn law_first_match_is_scan<T>(items: Seq<T>, p: spec_fn(T) -> bool)
    ensures
        first_match(Stream::of(items), p) == scan(items, p),
    decreases items.len(),
{
    let s = Stream::of(items);
    if items.len() == 0 {
        assert(first_match(s, p) is None);
    } else if p(items[0]) {
        lemma_first_match_is(s, p, 0);
    } else {
        let rest = items.drop_first();
        let t = Stream::of(rest);
        law_first_match_is_scan(rest, p);
        assert forall|i: nat| matches_at(t, p, i) == matches_at(s, p, i + 1) by {}
        assert(!matches_at(s, p, 0));
        match first_match(t, p) {
            Some(i) => {
                assert forall|j: nat| j < i + 1 implies !matches_at(s, p, j) by {
                    if j > 0 {
                        assert(matches_at(t, p, (j - 1) as nat) == matches_at(s, p, j));
                    }
                }
                lemma_first_match_is(s, p, i + 1);
            },
            None => {
                assert forall|j: nat| !matches_at(s, p, j) by {
                    if j > 0 && matches_at(s, p, j) {
                        lemma_first_match_exists(t, p, (j - 1) as nat);
                    }
                }
            },
        }
    }
}

/// Over a sequence that a `usize` can index, the search is for what a pass
/// from the front finds: the bound on the positions takes nothing away.
pub proof fn law_search_is_scan<T>(items: Seq<T>, p: spec_fn(T) -> bool)
    requires
        items.len() <= reach(),
    ensures
        first_match(Stream::of(items).take(reach()), p) == scan(items, p),
{
    assert(Stream::of(items).take(reach()) =~= Stream::of(items));
    law_first_match_is_scan(items, p);
}

/// What the chunk number `k` of `s`, cut by `stride`, reports to a search
/// for `p`: the place in `s` of the first of its items that meets `p`.
pub open spec fn chunk_found<T>(
    s: Stream<T>,
    p: spec_fn(T) -> bool,
    stride: nat,
    k: nat,
) -> Option<nat> {
    match first_match(chunk_of(s, stride, k), p) {
        Some(local) => Some(k * stride + local),
        None => None,
    }
}

/// What a chunk that a dispatcher cut from `s` reports, to a search and to
/// a sum, is what the laws below take the chunk with its number to report.
pub proof fn law_chunk_reports<T, O: Aggregate>(
    c: Chunk<T>,
    s: Stream<T>,
    p: spec_fn(T) -> bool,
    g: spec_fn(T) -> O,
)
    requires
        c.cut_from(s),
    ensures
        c.global(first_match(Stream::of(c.items()), p)) == chunk_found(
            s,
            p,
            c.stride(),
            c.index(),
        ),
        total(Stream::of(c.items()), g) == chunk_total(s, g, c.stride(), c.index()),
{
}

/// The smallest of the received positions is one of them and no larger
/// than any of them; it is missing only where all of them are.
pub proof fn lemma_least_of(received: Seq<Option<usize>>)
    ensures
        match least_of(received) {
            Some(m) => {
                &&& exists|j: int| 0 <= j < received.len() && received[j] == Some(m)
                &&& forall|j: int|
                    0 <= j < received.len() ==> (#[trigger] received[j] matches Some(x) ==> m <= x)
            },
            None => forall|j: int| 0 <= j < received.len() ==> #[trigger] received[j] is None,
        },
    decreases received.len(),
{
    if received.len() > 0 {
        let front = received.drop_last();
        lemma_least_of(front);
        let last = (received.len() - 1) as int;
        assert forall|j: int| 0 <= j < last implies front[j] == received[j] by {}
        match least_of(received) {
            Some(m) => {
                if received[last] != Some(m) {
                    let j = choose|j: int| 0 <= j < front.len() && front[j] == Some(m);
                    assert(received[j] == Some(m));
                }
                assert forall|j: int| 0 <= j < received.len() implies (
                #[trigger] received[j] matches Some(x) ==> m <= x) by {}
            },
            None => {
                assert forall|j: int| 0 <= j < received.len() implies #[trigger] received[j]
                    is None by {}
            },
        }
    }
}

/// What a chunk reports is what `s` holds between the chunk's start and its
/// end: the first match there, or none.
pub proof fn lemma_chunk_found<T>(s: Stream<T>, p: spec_fn(T) -> bool, stride: nat, k: nat)
    requires
        stride > 0,
    ensures
        match chunk_found(s, p, stride, k) {
            Some(g) => {
                &&& k * stride <= g < k * stride + stride
                &&& matches_at(s, p, g)
                &&& forall|i: nat| k * stride <= i < g ==> !matches_at(s, p, i)
            },
            None => forall|i: nat| k * stride <= i < k * stride + stride ==> !matches_at(s, p, i),
        },
{
    let part = chunk_of(s, stride, k);
    let start = k * stride;
    assert forall|t: nat| t < stride implies (matches_at(part, p, t) <==> matches_at(
        s,
        p,
        start + t,
    )) by {}
    match first_match(part, p) {
        Some(local) => {
            assert forall|i: nat| start <= i < start + local implies !matches_at(s, p, i) by {
                let t = (i - start) as nat;
                assert(!matches_at(part, p, t));
            }
        },
        None => {
            assert forall|i: nat| start <= i < start + stride implies !matches_at(s, p, i) by {
                let t = (i - start) as nat;
                if matches_at(part, p, t) {
                    lemma_first_match_exists(part, p, t);
                }
            }
        },
    }
}

/// The number of the chunk that holds place `i`.
pub proof fn lemma_chunk_number(i: nat, stride: nat) -> (k: nat)
    requires
        stride > 0,
    ensures
        k * stride <= i < k * stride + stride,
{
    let k = i / stride;
    assert(k * stride <= i < k * stride + stride) by (nonlinear_arith)
        requires
            k == i / stride,
            stride > 0,
    ;
    k
}

/// The search gives the result of a pass from the front in whatever order
/// the chunks report, for every chunk size and for every number of chunks
/// dispatched.
///
/// The chunks with the numbers below `dispatched` have reported, each once
/// or more, in the order `arrivals`, and `received` holds what they
/// reported. Dispatching ended because a match was reported or because the
/// source ended within the chunks dispatched. Then the smallest position
/// received is the first match of the source.
pub proof fn law_search_any_order<T>(
    s: Stream<T>,
    p: spec_fn(T) -> bool,
    stride: nat,
    dispatched: nat,
    arrivals: Seq<nat>,
    received: Seq<Option<usize>>,
)
    requires
        stride > 0,
        forall|k: nat| k < dispatched ==> arrivals.contains(k),
        forall|j: int| 0 <= j < arrivals.len() ==> arrivals[j] < dispatched,
        received.len() == arrivals.len(),
        forall|j: int|
            0 <= j < arrivals.len() ==> place(#[trigger] received[j]) == chunk_found(
                s,
                p,
                stride,
                arrivals[j],
            ),
        least_of(received) is Some || (s.len matches Some(n) && n <= dispatched * stride),
    ensures
        place(least_of(received)) == first_match(s, p),
{
    lemma_least_of(received);
    match least_of(received) {
        Some(m) => {
            let j = choose|j: int| 0 <= j < received.len() && received[j] == Some(m);
            lemma_chunk_found(s, p, stride, arrivals[j]);
            lemma_first_match_exists(s, p, m as nat);
            let g = first_match(s, p)->0;
            let c = lemma_chunk_number(g, stride);
            assert(c <= arrivals[j]) by (nonlinear_arith)
                requires
                    c * stride <= g,
                    g <= m,
                    m < arrivals[j] * stride + stride,
                    stride > 0,
            ;
            assert(arrivals.contains(c));
            let at = choose|at: int| 0 <= at < arrivals.len() && arrivals[at] == c;
            lemma_chunk_found(s, p, stride, c);
            assert(received[at] matches Some(x) && x == g);
        },
        None => {
            assert forall|i: nat| !matches_at(s, p, i) by {
                if matches_at(s, p, i) {
                    let c = lemma_chunk_number(i, stride);
                    assert(c < dispatched) by (nonlinear_arith)
                        requires
                            c * stride <= i,
                            i < dispatched * stride,
                            stride > 0,
                    ;
                    assert(arrivals.contains(c));
                    let at = choose|at: int| 0 <= at < arrivals.len() && arrivals[at] == c;
                    lemma_chunk_found(s, p, stride, c);
                    assert(place(received[at]) == chunk_found(s, p, stride, c));
                }
            }
        },
    }
}

/// Two runs of a search over the same source with the same condition give
/// the same result, whatever thread cap and chunk size each was given:
/// nothing but the source and the condition has a part in the result.
pub proof fn law_find_invariant<T, F: Fn(T) -> bool>(
    s: Stream<T>,
    f: F,
    p: spec_fn(T) -> bool,
    threads_a: usize,
    chunk_a: usize,
    found_a: Option<usize>,
    threads_b: usize,
    chunk_b: usize,
    found_b: Option<usize>,
)
    requires
        computes(f, p),
        valid_config(threads_a, chunk_a),
        valid_config(threads_b, chunk_b),
        answered(s, f, place(found_a)),
        answered(s, f, place(found_b)),
    ensures
        found_a == found_b,
        place(found_a) == first_match(s, p),
{
    lemma_answered_first_match(s, f, p, place(found_a));
    lemma_answered_first_match(s, f, p, place(found_b));
}

/// The sum over a sequence is its fold from the left: each item's amount
/// is added to the sum of the items before it, from zero on.
pub proof fn law_total_is_fold<T, O: Aggregate>(items: Seq<T>, g: spec_fn(T) -> O)
    ensures
        total(Stream::of(items), g) == items.fold_left(
            0nat,
            |sum: nat, x: T| sum + g(x).amount(),
        ),
    decreases items.len(),
{
    if items.len() > 0 {
        let front = items.drop_last();
        law_total_is_fold(front, g);
        lemma_total_same_items(Stream::of(items), Stream::of(front), g, front.len());
    }
}

/// What the chunk number `k` of `s`, cut by `stride`, reports to a sum of
/// `g`: the sum over its items.
pub open spec fn chunk_total<T, O: Aggregate>(
    s: Stream<T>,
    g: spec_fn(T) -> O,
    stride: nat,
    k: nat,
) -> nat {
    total(chunk_of(s, stride, k), g)
}

/// A sum is the sum without one of its parts, and that part.
pub proof fn lemma_sum_remove(parts: Seq<nat>, j: int)
    requires
        0 <= j < parts.len(),
    ensures
        sum_of(parts) == sum_of(parts.remove(j)) + parts[j],
    decreases parts.len(),
{
    let last = (parts.len() - 1) as int;
    if j != last {
        lemma_sum_remove(parts.drop_last(), j);
        assert(parts.remove(j).drop_last() =~= parts.drop_last().remove(j));
    }
}

/// What a chunk adds to the sum over the chunks before it is the sum over
/// the chunks up to it.
pub proof fn lemma_chunk_total<T, O: Aggregate>(
    s: Stream<T>,
    g: spec_fn(T) -> O,
    stride: nat,
    k: nat,
)
    requires
        stride > 0,
        s.len is Some,
    ensures
        total_upto(s, g, covered(k, stride, s.len->0)) + chunk_total(s, g, stride, k)
            == total_upto(s, g, covered(k + 1, stride, s.len->0)),
{
    let len = s.len->0;
    let part = chunk_of(s, stride, k);
    let from = covered(k, stride, len);
    let n = part.len->0;
    assert((k + 1) * stride == k * stride + stride) by (nonlinear_arith);
    if n > 0 {
        assert(part =~= Stream::of(s.window(from, n)));
        crate::reduce::lemma_total_window(s, g, from, n);
    }
}

/// The sum gives the result of a pass from the front in whatever order the
/// chunks report, for every chunk size.
///
/// The source ends within the chunks dispatched, each of them has reported
/// once, in the order `arrivals`, and `received` holds the amounts that
/// they reported. Then what was received adds up to the sum over the
/// source.
pub proof fn law_sum_any_order<T, O: Aggregate>(
    s: Stream<T>,
    g: spec_fn(T) -> O,
    stride: nat,
    arrivals: Seq<nat>,
    received: Seq<nat>,
)
    requires
        stride > 0,
        s.len matches Some(n) && n <= arrivals.len() * stride,
        arrivals.no_duplicates(),
        forall|k: nat| k < arrivals.len() ==> arrivals.contains(k),
        received.len() == arrivals.len(),
        forall|j: int|
            0 <= j < arrivals.len() ==> #[trigger] received[j] == chunk_total(
                s,
                g,
                stride,
                arrivals[j],
            ),
    ensures
        sum_of(received) == total(s, g),
{
    lemma_sum_of_chunks(s, g, stride, arrivals, received);
}

/// The sums of the first chunks of a stream, received in any order, add up
/// to the sum over the items that the chunks cover.
pub proof fn lemma_sum_of_chunks<T, O: Aggregate>(
    s: Stream<T>,
    g: spec_fn(T) -> O,
    stride: nat,
    arrivals: Seq<nat>,
    received: Seq<nat>,
)
    requires
        stride > 0,
        s.len is Some,
        arrivals.no_duplicates(),
        forall|k: nat| k < arrivals.len() ==> arrivals.contains(k),
        received.len() == arrivals.len(),
        forall|j: int|
            0 <= j < arrivals.len() ==> #[trigger] received[j] == chunk_total(
                s,
                g,
                stride,
                arrivals[j],
            ),
    ensures
        sum_of(received) == total_upto(s, g, covered(arrivals.len(), stride, s.len->0)),
    decreases arrivals.len(),
{
    if arrivals.len() > 0 {
        let top = (arrivals.len() - 1) as nat;
        assert(arrivals.contains(top));
        let at = choose|at: int| 0 <= at < arrivals.len() && arrivals[at] == top;
        let fewer = arrivals.remove(at);
        let rest = received.remove(at);
        assert forall|k: nat| k < fewer.len() implies fewer.contains(k) by {
            assert(arrivals.contains(k));
            let j = choose|j: int| 0 <= j < arrivals.len() && arrivals[j] == k;
            if j < at {
                assert(fewer[j] == k);
            } else {
                assert(fewer[j - 1] == k);
            }
        }
        assert forall|j: int| 0 <= j < fewer.len() implies #[trigger] rest[j] == chunk_total(
            s,
            g,
            stride,
            fewer[j],
        ) by {}
        assert(fewer.no_duplicates());
        lemma_sum_of_chunks(s, g, stride, fewer, rest);
        lemma_sum_remove(received, at);
        lemma_chunk_total(s, g, stride, top);
    } else {
        assert(covered(0, stride, s.len->0) == 0);
    }
}

/// Two runs of a sum over the same source with the same transform give the
/// same amount, whatever thread cap and chunk size each was given: nothing
/// but the source and the transform has a part in the result.
pub proof fn law_map_sum_invariant<T, O: Aggregate, F: Fn(T) -> O>(
    s: Stream<T>,
    f: F,
    g: spec_fn(T) -> O,
    threads_a: usize,
    chunk_a: usize,
    sum_a: O,
    threads_b: usize,
    chunk_b: usize,
    sum_b: O,
)
    requires
        computes(f, g),
        valid_config(threads_a, chunk_a),
        valid_config(threads_b, chunk_b),
        forall|h: spec_fn(T) -> O| #[trigger] computes(f, h) ==> sum_a.amount() == total(s, h),
        forall|h: spec_fn(T) -> O| #[trigger] computes(f, h) ==> sum_b.amount() == total(s, h),
    ensures
        sum_a.amount() == sum_b.amount(),
        sum_a.amount() == total(s, g),
{
}

} // verus!
