//! The chunked dispatcher: it cuts a source into chunks of one size and hands
//! them out one by one, each tagged with its place in the order of dispatch.
//!
//! Positions are `usize`, so a dispatcher hands out no more than the first
//! `usize::MAX` items of its source: [`reach`] names that bound.

use std::collections::VecDeque;
use vstd::prelude::*;
use crate::stream::{stream_of, Source, Stream};

verus! {

/// The number of leading items of a source that a dispatcher hands out at
/// most: the items whose position a `usize` can hold.
pub open spec fn reach() -> nat {
    usize::MAX as nat
}

/// The smaller of a stream length and a chunk size.
pub open spec fn min_len(len: Option<nat>, stride: nat) -> nat {
    match len {
        Some(n) => if n < stride {
            n
        } else {
            stride
        },
        None => stride,
    }
}

/// The chunk number `k` of `s` cut by `stride`: the `stride` items from
/// place `k * stride` on, or those that `s` has left there.
pub open spec fn chunk_of<T>(s: Stream<T>, stride: nat, k: nat) -> Stream<T> {
    s.skip(k * stride).take(stride)
}

/// The number of items of a stream of `len` items that lie in its first
/// `chunks` chunks of `stride` items.
pub open spec fn covered(chunks: nat, stride: nat, len: nat) -> nat {
    if chunks * stride < len {
        chunks * stride
    } else {
        len
    }
}

/// A run of consecutive items of a source, owned by whoever works on it.
pub struct Chunk<T> {
    index: usize,
    stride: usize,
    items: Vec<T>,
}

impl<T> Chunk<T> {
    #[verifier::type_invariant]
    spec fn inv(self) -> bool {
        &&& self.items@.len() <= self.stride
        &&& self.index * self.stride + self.items@.len() <= usize::MAX
    }

    /// The chunk's number in the order of dispatch, from zero.
    pub closed spec fn index(self) -> nat {
        self.index as nat
    }

    /// The chunk size that its dispatcher cuts by.
    pub closed spec fn stride(self) -> nat {
        self.stride as nat
    }

    /// The items of the chunk, in source order.
    pub closed spec fn items(self) -> Seq<T> {
        self.items@
    }

    /// The position in the source of the chunk's first item.
    pub open spec fn start(self) -> nat {
        self.index() * self.stride()
    }

    /// Takes the chunk apart into its index, its stride and its items. No
    /// chunk holds more items than its stride, and every position in it
    /// fits a `usize`.
    pub fn into_parts(self) -> (parts: (usize, usize, Vec<T>))
        ensures
            parts.0 == self.index(),
            parts.1 == self.stride(),
            parts.2@ == self.items(),
            parts.2@.len() <= parts.1,
            parts.0 * parts.1 + parts.2@.len() <= usize::MAX,
    {
        proof {
            use_type_invariant(&self);
        }
        (self.index, self.stride, self.items)
    }

    /// The chunk is the one with its index in the cutting of `s` by its
    /// stride: it holds the items from its start on, a full stride of them
    /// or, at the end of `s`, those that are left, and at least one.
    pub open spec fn cut_from(self, s: Stream<T>) -> bool {
        &&& 0 < self.items().len()
        &&& Stream::of(self.items()) == chunk_of(s, self.stride(), self.index())
    }

    /// The items of a chunk cut from `s` are those that `s` holds from the
    /// chunk's start on.
    pub proof fn lemma_cut(self, s: Stream<T>)
        requires
            self.cut_from(s),
        ensures
            self.items().len() == min_len(s.skip(self.start()).len, self.stride()),
            self.items() == s.window(self.start(), self.items().len()),
            s.len matches Some(n) ==> self.start() + self.items().len() <= n,
    {
        let part = Stream::of(self.items());
        let n = self.items().len();
        assert forall|i: int| 0 <= i < n implies self.items()[i] == s.window(self.start(), n)[i] by {
            assert(part.at(i as nat) == self.items()[i]);
        }
    }
}

/// Cuts a source into chunks of one size. The last chunk holds what is left
/// and may be shorter.
pub struct Dispatcher<S: Source> {
    source: S,
    chunk_size: usize,
    issued: usize,
    handed: usize,
    closed: bool,
    origin: Ghost<Stream<S::Item>>,
}

impl<S: Source> Dispatcher<S> {
    /// The items that the dispatcher had within reach when it was made.
    pub closed spec fn origin(&self) -> Stream<S::Item> {
        self.origin@
    }

    /// The number of chunks handed out so far.
    pub closed spec fn issued(&self) -> nat {
        self.issued as nat
    }

    /// The chunk size.
    pub closed spec fn stride(&self) -> nat {
        self.chunk_size as nat
    }

    /// The number of items handed out so far: every chunk is full but the
    /// one that ends the source.
    pub open spec fn handed(&self) -> nat {
        let cut = self.issued() * self.stride();
        if cut < self.origin().len->0 {
            cut
        } else {
            self.origin().len->0
        }
    }

    /// The items not yet handed out.
    pub open spec fn pending(&self) -> Stream<S::Item> {
        self.origin().skip(self.handed())
    }

    /// The dispatcher's invariant.
    pub closed spec fn wf(&self) -> bool {
        &&& self.chunk_size > 0
        &&& self.origin@.len is Some
        &&& self.origin@.len->0 <= usize::MAX
        &&& self.handed <= self.origin@.len->0
        &&& self.issued <= self.handed
        &&& stream_of(&self.source).take((usize::MAX - self.handed) as nat) == self.origin@.skip(
            self.handed as nat,
        )
        &&& !self.closed ==> self.handed == self.issued * self.chunk_size
        &&& self.closed ==> self.handed == self.origin@.len->0 && self.origin@.len->0
            <= self.issued * self.chunk_size
    }

    /// The origin is finite and within reach, and the chunk size is not zero.
    pub proof fn lemma_wf(&self)
        requires
            self.wf(),
        ensures
            self.stride() > 0,
            self.origin().len is Some,
            self.origin().len->0 <= reach(),
            self.issued() <= self.handed(),
    {
    }

    /// A dispatcher over `source` that has handed out nothing yet.
    pub fn new(source: S, chunk_size: usize) -> (d: Self)
        requires
            chunk_size > 0,
        ensures
            d.wf(),
            d.origin() == stream_of(&source).take(reach()),
            d.issued() == 0,
            d.stride() == chunk_size,
    {
        let ghost origin = stream_of(&source).take(reach());
        assert(origin.skip(0) =~= origin);
        Dispatcher { source, chunk_size, issued: 0, handed: 0, closed: false, origin: Ghost(origin) }
    }

    /// Hands out the next chunk: the first `chunk_size` pending items, or
    /// all of them where fewer are left. `None` says that nothing is
    /// pending, and comes only then.
    pub fn refill_one(&mut self) -> (r: Option<Chunk<S::Item>>)
        requires
            old(self).wf(),
        ensures
            final(self).wf(),
            final(self).origin() == old(self).origin(),
            final(self).stride() == old(self).stride(),
            r is None <==> old(self).pending().is_empty(),
            match r {
                Some(c) => {
                    &&& c.index() == old(self).issued()
                    &&& c.stride() == old(self).stride()
                    &&& c.cut_from(old(self).origin())
                    &&& final(self).issued() == old(self).issued() + 1
                },
                None => final(self).issued() == old(self).issued(),
            },
    {
        if self.closed {
            return None;
        }
        let room = usize::MAX - self.handed;
        let want = if self.chunk_size < room {
            self.chunk_size
        } else {
            room
        };
        let ghost before = stream_of(&self.source);
        let mut items: Vec<S::Item> = Vec::new();
        let mut ended = false;
        while items.len() < want && !ended
            invariant
                items@.len() <= want,
                stream_of(&self.source) == before.skip(items@.len()),
                forall|i: nat| i < items@.len() ==> before.has(i),
                items@ == before.window(0, items@.len()),
                ended ==> stream_of(&self.source).is_empty(),
                self.chunk_size == old(self).chunk_size,
                self.issued == old(self).issued,
                self.handed == old(self).handed,
                self.closed == old(self).closed,
                self.origin == old(self).origin,
            decreases want - items@.len() + (if ended { 0int } else { 1int }),
        {
            let ghost now = stream_of(&self.source);
            let ghost got = items@;
            match self.source.pull() {
                Some(x) => {
                    items.push(x);
                    proof {
                        Stream::lemma_skip_skip(before, got.len(), 1);
                        assert(now.has(0) && now.at(0) == x);
                    }
                },
                None => {
                    ended = true;
                },
            }
        }

        let n = items.len();
        let ghost origin = self.origin@;
        let ghost done = self.handed as nat;
        proof {
            Stream::lemma_take_skip(before, room as nat, n as nat);
            Stream::lemma_skip_skip(origin, done, n as nat);
            if n > 0 {
                assert(before.has((n - 1) as nat));
            }
            assert((self.issued + 1) * self.chunk_size == self.issued * self.chunk_size
                + self.chunk_size) by (nonlinear_arith);
            assert(Stream::of(items@) =~= chunk_of(
                origin,
                self.chunk_size as nat,
                self.issued as nat,
            ));
        }
        if n == 0 {
            self.closed = true;
            return None;
        }
        if n < self.chunk_size {
            self.closed = true;
        }
        let index = self.issued;
        self.issued = self.issued + 1;
        self.handed = self.handed + n;
        Some(Chunk { index, stride: self.chunk_size, items })
    }

    /// Hands out the first chunks, up to `num_threads` of them: fewer where
    /// the source ends before.
    pub fn prime(&mut self, num_threads: usize) -> (chunks: VecDeque<Chunk<S::Item>>)
        requires
            old(self).wf(),
        ensures
            final(self).wf(),
            final(self).origin() == old(self).origin(),
            final(self).stride() == old(self).stride(),
            chunks@.len() <= num_threads,
            final(self).issued() == old(self).issued() + chunks@.len(),
            forall|j: int|
                0 <= j < chunks@.len() ==> {
                    &&& (#[trigger] chunks@[j]).index() == old(self).issued() + j
                    &&& chunks@[j].stride() == old(self).stride()
                    &&& chunks@[j].cut_from(old(self).origin())
                },
            chunks@.len() < num_threads ==> final(self).pending().is_empty(),
    {
        let mut chunks: VecDeque<Chunk<S::Item>> = VecDeque::new();
        let mut ended = false;
        while chunks.len() < num_threads && !ended
            invariant
                self.wf(),
                self.origin() == old(self).origin(),
                self.stride() == old(self).stride(),
                chunks@.len() <= num_threads,
                self.issued() == old(self).issued() + chunks@.len(),
                forall|j: int|
                    0 <= j < chunks@.len() ==> {
                        &&& (#[trigger] chunks@[j]).index() == old(self).issued() + j
                        &&& chunks@[j].stride() == old(self).stride()
                        &&& chunks@[j].cut_from(old(self).origin())
                    },
                ended ==> self.pending().is_empty(),
            decreases num_threads - chunks@.len() + (if ended { 0int } else { 1int }),
        {
            match self.refill_one() {
                Some(c) => {
                    chunks.push_back(c);
                },
                None => {
                    ended = true;
                },
            }
        }
        chunks
    }
}

} // verus!
