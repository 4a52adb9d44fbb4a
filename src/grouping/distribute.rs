use std::rc::Rc;

use vstd::arithmetic::div_mod::lemma_fundamental_div_mod_converse;
use vstd::prelude::*;

use crate::error::{overflow_error, Error, Kind};
use crate::sequence::{Sequence, SequenceVector};

verus! {

/// The index that bucket `b` of `n` reads at its `k`-th pull.
pub open spec fn bucket_index(b: int, n: int, k: int) -> int {
    b + k * n
}

/// With `n` buckets, the buckets split the indices between them: index `i` is read
/// by bucket `i % n`, at its pull `i / n`, and by no other bucket at no other pull.
pub proof fn lemma_round_robin_partition(n: int, i: int)
    requires
        n > 0,
        i >= 0,
    ensures
        0 <= i % n < n,
        i / n >= 0,
        bucket_index(i % n, n, i / n) == i,
        forall|b: int, k: int|
            0 <= b < n && k >= 0 && #[trigger] bucket_index(b, n, k) == i ==> b == i % n && k
                == i / n,
{
    assert(bucket_index(i % n, n, i / n) == i) by (nonlinear_arith)
        requires
            n > 0,
            i >= 0,
    ;
    assert(i / n >= 0) by (nonlinear_arith)
        requires
            n > 0,
            i >= 0,
    ;
    assert forall|b: int, k: int|
        0 <= b < n && k >= 0 && #[trigger] bucket_index(b, n, k) == i implies b == i % n && k == i
            / n by {
        lemma_fundamental_div_mod_converse(i, n, k, b);
    }
}

struct DistributeInner<T> {
    buf: SequenceVector<T>,
    bucket_count: usize,
}

/// A sequence read round-robin by any number of independent cursors.
pub struct Distribute<T> {
    inner: Rc<DistributeInner<T>>,
}

/// One bucket of a distribution: reads every `step`-th element from its start.
pub struct Cursor<T> {
    dist_inner: Rc<DistributeInner<T>>,
    cur: usize,
    step: usize,
    start: Ghost<nat>,
    pulled: Ghost<nat>,
    overflowed: bool,
}

impl<T: Copy + PartialEq> Distribute<T> {
    /// The elements distributed.
    pub closed spec fn elements(&self) -> Seq<T> {
        self.inner.buf.seq_view()
    }

    /// The number of buckets.
    pub closed spec fn bucket_count(&self) -> nat {
        self.inner.bucket_count as nat
    }

    pub fn new(buf: SequenceVector<T>, bucket_count: usize) -> (r: Self)
        ensures
            r.elements() == buf.seq_view(),
            r.bucket_count() == bucket_count,
    {
        Distribute { inner: Rc::new(DistributeInner { buf, bucket_count }) }
    }

    /// A cursor over bucket `bucket_no`: indices `bucket_no`, `bucket_no + n`, and so on.
    pub fn iter(&self, bucket_no: usize) -> (r: Cursor<T>)
        ensures
            r.wf(),
            r.elements() == self.elements(),
            r.step() == self.bucket_count(),
            r.start() == bucket_no,
            r.pulled() == 0,
            !r.overflowed(),
    {
        Cursor {
            dist_inner: Rc::clone(&self.inner),
            cur: bucket_no,
            step: self.inner.bucket_count,
            start: Ghost(bucket_no as nat),
            pulled: Ghost(0),
            overflowed: false,
        }
    }
}

impl<T: Copy + PartialEq> Cursor<T> {
    /// The elements distributed.
    pub closed spec fn elements(&self) -> Seq<T> {
        self.dist_inner.buf.seq_view()
    }

    /// The distance between two indices this cursor reads.
    pub closed spec fn step(&self) -> nat {
        self.step as nat
    }

    /// The first index this cursor reads.
    pub closed spec fn start(&self) -> nat {
        self.start@
    }

    /// How many elements this cursor has produced.
    pub closed spec fn pulled(&self) -> nat {
        self.pulled@
    }

    /// Whether advancing this cursor has once gone past what a `usize` holds.
    pub closed spec fn overflowed(&self) -> bool {
        self.overflowed
    }

    /// The index of the next element to read.
    pub open spec fn index(&self) -> int {
        bucket_index(self.start() as int, self.step() as int, self.pulled() as int)
    }

    /// Whether no further element will be produced.
    pub open spec fn exhausted(&self) -> bool {
        self.overflowed() || self.index() >= self.elements().len()
    }

    pub closed spec fn wf(&self) -> bool {
        self.cur == bucket_index(self.start@ as int, self.step as int, self.pulled@ as int)
    }

    /// Produces the element at the cursor's index and advances by the step; nothing
    /// once the index is past the end. When the next index would not fit in a `usize`,
    /// it reports an `OverflowError` once and is exhausted from then on.
    pub fn next(&mut self) -> (r: Option<Result<T, Error>>)
        requires
            old(self).wf(),
        ensures
            final(self).wf(),
            final(self).elements() == old(self).elements(),
            final(self).step() == old(self).step(),
            final(self).start() == old(self).start(),
            old(self).exhausted() ==> r is None && final(self).pulled() == old(self).pulled()
                && final(self).exhausted(),
            !old(self).exhausted() && old(self).index() + old(self).step() > usize::MAX ==> {
                &&& (r matches Option::Some(Result::Err(e)) && e@.0 == Kind::OverflowError)
                &&& final(self).pulled() == old(self).pulled()
                &&& final(self).exhausted()
            },
            !old(self).exhausted() && old(self).index() + old(self).step() <= usize::MAX ==> {
                &&& r == Option::Some(
                    Result::<T, Error>::Ok(old(self).elements()[old(self).index()]),
                )
                &&& final(self).pulled() == old(self).pulled() + 1
                &&& !final(self).overflowed()
            },
    {
        if self.overflowed || self.cur >= self.dist_inner.buf.len() {
            return Option::None;
        }
        match self.cur.checked_add(self.step) {
            Option::None => {
                self.overflowed = true;
                Option::Some(Result::Err(overflow_error("cursor overflow".to_string())))
            },
            Option::Some(next) => {
                let v = *self.dist_inner.buf.get(self.cur).unwrap();
                self.cur = next;
                assert(bucket_index(self.start@ as int, self.step as int, self.pulled@ + 1 as int)
                    == bucket_index(self.start@ as int, self.step as int, self.pulled@ as int)
                    + self.step) by (nonlinear_arith);
                self.pulled = Ghost(self.pulled@ + 1);
                Option::Some(Result::Ok(v))
            },
        }
    }
}

/// Distributes the elements of `buf` round-robin over `bucket_cnt` buckets.
pub fn distribute<T: Copy + PartialEq>(buf: SequenceVector<T>, bucket_cnt: usize) -> (r: Distribute<T>)
    ensures
        r.elements() == buf.seq_view(),
        r.bucket_count() == bucket_cnt,
{
    Distribute::new(buf, bucket_cnt)
}

} // verus!
