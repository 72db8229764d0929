//! What is asked of a function that a traversal applies to the items of a
//! source, and what is known of it afterwards.
//!
//! A condition or a transform is handed over as a closure. Contracts speak
//! of it through the mathematical function that it computes: for the
//! closure `|x: u64| -> (b: bool) ensures b == (x == 3) { x == 3 }` that
//! is `|x: u64| x == 3`. A closure whose `ensures` leaves its result open
//! computes no function, and nothing is promised of a traversal with it
//! but the answers that it gave.

use vstd::prelude::*;
use crate::dispatch::Chunk;
use crate::stream::Stream;

verus! {

/// `f` computes `p`: whatever `f` returns for an argument is what `p` says
/// of it.
pub open spec fn computes<T, R, F: Fn(T) -> R>(f: F, p: spec_fn(T) -> R) -> bool {
    forall|x: T, y: R| #[trigger] call_ensures(f, (x,), y) ==> y == p(x)
}

/// `f` may be called on every item of `s`.
pub open spec fn accepts<T, R, F: Fn(T) -> R>(f: F, s: Stream<T>) -> bool {
    forall|i: nat| s.has(i) ==> call_requires(f, (#[trigger] s.at(i),))
}

/// `f` returned a result for the argument `x`.
pub open spec fn answers<T, R, F: Fn(T) -> R>(f: F, x: T) -> bool {
    exists|y: R| call_ensures(f, (x,), y)
}

/// A function that may be called on every item of a stream may be called on
/// every item of its first `k`.
pub proof fn lemma_accepts_take<T, R, F: Fn(T) -> R>(f: F, s: Stream<T>, k: nat)
    requires
        accepts(f, s),
    ensures
        accepts(f, s.take(k)),
{
    let part = s.take(k);
    assert forall|i: nat| part.has(i) implies call_requires(f, (#[trigger] part.at(i),)) by {
        assert(s.has(i) && part.at(i) == s.at(i));
    }
}

/// The items of a chunk cut from `s` are items of `s`: a function that may
/// be called on every item of `s` may be called on every item of the chunk.
pub proof fn lemma_chunk_accepted<T, R, F: Fn(T) -> R>(c: Chunk<T>, s: Stream<T>, f: F)
    requires
        c.cut_from(s),
        accepts(f, s),
    ensures
        accepts(f, Stream::of(c.items())),
{
    let part = Stream::of(c.items());
    c.lemma_cut(s);
    assert forall|i: nat| part.has(i) implies call_requires(f, (#[trigger] part.at(i),)) by {
        assert(part.at(i) == s.at(c.start() + i));
    }
}

/// Two functions that `f` computes agree wherever `f` returned a result.
pub proof fn lemma_answered_agree<T, R, F: Fn(T) -> R>(
    s: Stream<T>,
    f: F,
    g: spec_fn(T) -> R,
    h: spec_fn(T) -> R,
    n: nat,
)
    requires
        computes(f, g),
        computes(f, h),
        forall|i: nat| i < n ==> answers(f, #[trigger] s.at(i)),
    ensures
        forall|i: nat| i < n ==> g(#[trigger] s.at(i)) == h(s.at(i)),
{
    assert forall|i: nat| i < n implies g(#[trigger] s.at(i)) == h(s.at(i)) by {
        let y = choose|y: R| call_ensures(f, (s.at(i),), y);
        assert(y == g(s.at(i)) && y == h(s.at(i)));
    }
}

} // verus!
