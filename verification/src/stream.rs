//! Sources and their model.
//!
//! A [`Source`] is read by pulling one item at a time. What a source has yet
//! to yield is modelled by a [`Stream`]: a count of the items left, absent
//! for a run that never ends, and the item at each place.

use vstd::prelude::*;

verus! {

/// The items a source has yet to yield, in order.
#[verifier::ext_equal]
pub struct Stream<T> {
    /// How many items are left; `None` for a run that never ends.
    pub len: Option<nat>,
    /// The item `i` places from the front.
    pub item: spec_fn(nat) -> T,
}

/// Place `i` lies within a run of `len` items.
pub open spec fn within(len: Option<nat>, i: nat) -> bool {
    match len {
        Some(n) => i < n,
        None => true,
    }
}

impl<T> Stream<T> {
    /// The stream of `len` items whose item at place `i` is `f(i)`. Beyond the
    /// last place every such stream holds the same filler, so that two
    /// streams with the same items are equal.
    pub open spec fn new(len: Option<nat>, f: spec_fn(nat) -> T) -> Stream<T> {
        Stream {
            len,
            item: |i: nat|
                if within(len, i) {
                    f(i)
                } else {
                    arbitrary()
                },
        }
    }

    /// Place `i` lies within the stream.
    pub open spec fn has(self, i: nat) -> bool {
        within(self.len, i)
    }

    /// The stream holds no item.
    pub open spec fn is_empty(self) -> bool {
        self.len == Some(0nat)
    }

    /// The item at place `i`.
    pub open spec fn at(self, i: nat) -> T {
        (self.item)(i)
    }

    /// The stream without its first `k` items.
    pub open spec fn skip(self, k: nat) -> Stream<T> {
        Stream::new(
            match self.len {
                Some(n) => Some(
                    if k <= n {
                        (n - k) as nat
                    } else {
                        0nat
                    },
                ),
                None => None,
            },
            |i: nat| (self.item)(i + k),
        )
    }

    /// The first `k` items of the stream, or all of it where it is shorter.
    pub open spec fn take(self, k: nat) -> Stream<T> {
        Stream::new(
            match self.len {
                Some(n) => Some(
                    if n <= k {
                        n
                    } else {
                        k
                    },
                ),
                None => Some(k),
            },
            self.item,
        )
    }

    /// The stream that yields the items of `s` and then ends.
    pub open spec fn of(s: Seq<T>) -> Stream<T> {
        Stream::new(Some(s.len()), |i: nat| s[i as int])
    }

    /// The `n` items from place `from` on, as a sequence.
    pub open spec fn window(self, from: nat, n: nat) -> Seq<T> {
        Seq::new(n, |i: int| (self.item)((from + i) as nat))
    }

    /// Skipping twice skips the sum.
    pub proof fn lemma_skip_skip(s: Stream<T>, a: nat, b: nat)
        ensures
            s.skip(a).skip(b) == s.skip(a + b),
    {
    }

    /// The first `k` items without their first `n` are the first `k - n`
    /// items of what follows the first `n`.
    pub proof fn lemma_take_skip(s: Stream<T>, k: nat, n: nat)
        requires
            n <= k,
        ensures
            s.take(k).skip(n) == s.skip(n).take((k - n) as nat),
    {
    }
}

/// An ordered run of items that is consumed front to back, one pull at a
/// time, and never read again.
pub trait Source: Sized {
    type Item;

    /// How many items are still to come; `None` for a source that never ends.
    spec fn left(&self) -> Option<nat>;

    /// The item that the pull after `i` more pulls hands out.
    spec fn upcoming(&self, i: nat) -> Self::Item;

    /// Takes the next item off the source: what is still to come afterwards
    /// is what was to come before, without its first item. `None` says that
    /// the source has ended; it then stays ended.
    fn pull(&mut self) -> (r: Option<Self::Item>)
        ensures
            ({
                let before = Stream::new(old(self).left(), |i: nat| old(self).upcoming(i));
                let after = Stream::new(final(self).left(), |i: nat| final(self).upcoming(i));
                match r {
                    Some(x) => !before.is_empty() && x == before.at(0) && after == before.skip(1),
                    None => before.is_empty() && after == before,
                }
            }),
    ;
}

/// The items that `source` has yet to yield.
pub open spec fn stream_of<S: Source>(source: &S) -> Stream<S::Item> {
    Stream::new(source.left(), |i: nat| source.upcoming(i))
}

/// The numbers from a start on, each one more than the last, without end:
/// after the largest `u64` the count goes on from zero.
pub struct Counter {
    next: u64,
}

/// The number `i` steps after `start`, counting past the largest `u64` to zero.
pub open spec fn step_from(start: u64, i: nat) -> u64 {
    ((start + i) % 0x1_0000_0000_0000_0000) as u64
}

impl Counter {
    /// The counter whose first number is `start`.
    pub fn from(start: u64) -> (c: Counter)
        ensures
            stream_of(&c) == Stream::new(None, |i: nat| step_from(start, i)),
    {
        Counter { next: start }
    }
}

impl Source for Counter {
    type Item = u64;

    open spec fn left(&self) -> Option<nat> {
        None
    }

    closed spec fn upcoming(&self, i: nat) -> u64 {
        step_from(self.next, i)
    }

    fn pull(&mut self) -> (r: Option<u64>) {
        let x = self.next;
        self.next = if x == u64::MAX {
            0
        } else {
            x + 1
        };
        assert(Stream::new(self.left(), |i: nat| self.upcoming(i)) =~= Stream::new(
            old(self).left(),
            |i: nat| old(self).upcoming(i),
        ).skip(1));
        Some(x)
    }
}

/// The numbers of a range with both ends given, ascending by one.
pub struct Span {
    next: u64,
    last: u64,
    live: bool,
}

impl Span {
    #[verifier::type_invariant]
    spec fn inv(self) -> bool {
        self.live ==> self.next <= self.last
    }

    /// The numbers `lo`, `lo + 1`, ... up to but not including `hi`; none
    /// where `hi <= lo`.
    pub open spec fn below(lo: u64, hi: u64) -> Stream<u64> {
        Stream::new(
            Some(
                if lo < hi {
                    (hi - lo) as nat
                } else {
                    0nat
                },
            ),
            |i: nat| step_from(lo, i),
        )
    }

    /// The numbers `lo`, `lo + 1`, ... up to and including `hi`; none where
    /// `hi < lo`.
    pub open spec fn up_to(lo: u64, hi: u64) -> Stream<u64> {
        Stream::new(
            Some(
                if lo <= hi {
                    (hi - lo + 1) as nat
                } else {
                    0nat
                },
            ),
            |i: nat| step_from(lo, i),
        )
    }

    /// The source of the numbers from `lo` up to but not including `hi`.
    pub fn new(lo: u64, hi: u64) -> (s: Span)
        ensures
            stream_of(&s) == Span::below(lo, hi),
    {
        if lo < hi {
            Span { next: lo, last: hi - 1, live: true }
        } else {
            Span { next: lo, last: lo, live: false }
        }
    }

    /// The source of the numbers from `lo` up to and including `hi`.
    pub fn through(lo: u64, hi: u64) -> (s: Span)
        ensures
            stream_of(&s) == Span::up_to(lo, hi),
    {
        Span { next: lo, last: hi, live: lo <= hi }
    }
}

impl Source for Span {
    type Item = u64;

    closed spec fn left(&self) -> Option<nat> {
        Some(
            if self.live && self.next <= self.last {
                (self.last - self.next + 1) as nat
            } else {
                0nat
            },
        )
    }

    closed spec fn upcoming(&self, i: nat) -> u64 {
        step_from(self.next, i)
    }

    fn pull(&mut self) -> (r: Option<u64>) {
        proof {
            use_type_invariant(&*self);
        }
        if self.live {
            let x = self.next;
            if x == self.last {
                self.live = false;
            }
            self.next = if x == u64::MAX {
                0
            } else {
                x + 1
            };
            assert(Stream::new(self.left(), |i: nat| self.upcoming(i)) =~= Stream::new(
            old(self).left(),
            |i: nat| old(self).upcoming(i),
        ).skip(1));
            Some(x)
        } else {
            None
        }
    }
}

/// The items of a vector, handed out from its first to its last.
pub struct Items<T> {
    /// The items still to come, the next one last.
    stack: Vec<T>,
}

impl<T> Items<T> {
    /// The source that yields the items of `items` in order.
    pub fn new(items: Vec<T>) -> (s: Items<T>)
        ensures
            stream_of(&s) == Stream::of(items@),
    {
        let ghost all = items@;
        let mut items = items;
        let mut stack: Vec<T> = Vec::new();
        while items.len() > 0
            invariant
                items@.len() + stack@.len() == all.len(),
                forall|i: int| 0 <= i < items@.len() ==> items@[i] == all[i],
                forall|i: int| 0 <= i < stack@.len() ==> stack@[i] == all[all.len() - 1 - i],
            decreases items@.len(),
        {
            let x = items.pop().unwrap();
            stack.push(x);
        }
        Items { stack }
    }
}

impl<T> Source for Items<T> {
    type Item = T;

    closed spec fn left(&self) -> Option<nat> {
        Some(self.stack@.len())
    }

    closed spec fn upcoming(&self, i: nat) -> T {
        self.stack@[self.stack@.len() - 1 - i]
    }

    fn pull(&mut self) -> (r: Option<T>) {
        let r = self.stack.pop();
        assert(r is Some ==> Stream::new(self.left(), |i: nat| self.upcoming(i)) =~= Stream::new(
            old(self).left(),
            |i: nat| old(self).upcoming(i),
        ).skip(1));
        r
    }
}

} // verus!
