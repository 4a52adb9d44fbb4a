use vstd::prelude::*;

use crate::windowing::windowed::pull;

verus! {

/// The sum of the first `i` requested sizes.
pub open spec fn prefix_sum(sizes: Seq<usize>, i: int) -> int
    decreases i,
{
    if i <= 0 {
        0
    } else {
        prefix_sum(sizes, i - 1) + sizes[i - 1]
    }
}

/// `x`, but no more than `len`.
pub open spec fn clamp(x: int, len: int) -> int {
    if x < len {
        x
    } else {
        len
    }
}

/// Group `k`: the elements of `s` that the `k`-th requested size covers, cut short
/// where `s` ends.
pub open spec fn chunk_at<T>(s: Seq<T>, sizes: Seq<usize>, k: int) -> Seq<T> {
    s.subrange(clamp(prefix_sum(sizes, k), s.len() as int), clamp(prefix_sum(sizes, k + 1), s.len() as int))
}

/// Later groups start no earlier than earlier ones.
pub proof fn lemma_prefix_sum_monotone(sizes: Seq<usize>, i: int, j: int)
    requires
        0 <= i <= j,
    ensures
        prefix_sum(sizes, i) <= prefix_sum(sizes, j),
    decreases j - i,
{
    if i < j {
        lemma_prefix_sum_monotone(sizes, i, j - 1);
    }
}

/// Consecutive groups of a source, of the lengths requested in order.
pub struct SplitInto<T> {
    source: Vec<T>,
    pos: usize,
    sizes: Vec<usize>,
    head: usize,
    filling: Vec<T>,
    iter_finished: bool,
}

impl<T: Copy> SplitInto<T> {
    /// The elements being split.
    pub closed spec fn source_seq(&self) -> Seq<T> {
        self.source@
    }

    /// The requested group lengths.
    pub closed spec fn sizes_seq(&self) -> Seq<usize> {
        self.sizes@
    }

    /// How many groups have been produced so far.
    pub closed spec fn emitted(&self) -> nat {
        self.head as nat
    }

    /// Whether every requested group has been produced.
    pub open spec fn exhausted(&self) -> bool {
        self.emitted() == self.sizes_seq().len()
    }

    pub closed spec fn wf(&self) -> bool {
        let s = self.source@;
        let sizes = self.sizes@;
        let k = self.head as int;
        &&& k <= sizes.len()
        &&& self.pos <= s.len()
        &&& k == sizes.len() ==> self.filling@.len() == 0
        &&& (!self.iter_finished && k < sizes.len()) ==> {
            &&& prefix_sum(sizes, k) + self.filling@.len() == self.pos
            &&& self.filling@.len() <= sizes[k]
            &&& self.filling@ == s.subrange(prefix_sum(sizes, k), self.pos as int)
        }
        &&& self.iter_finished ==> {
            &&& self.pos == s.len()
            &&& k < sizes.len() ==> self.filling@ == chunk_at(s, sizes, k)
            &&& forall|j: int| k < j <= sizes.len() ==> prefix_sum(sizes, j) >= s.len()
        }
    }

    fn take_head(&mut self) -> (r: Vec<T>)
        ensures
            r@ == old(self).filling@,
            final(self).filling@.len() == 0,
            final(self).source == old(self).source,
            final(self).pos == old(self).pos,
            final(self).sizes == old(self).sizes,
            final(self).head == old(self).head,
            final(self).iter_finished == old(self).iter_finished,
    {
        let mut out: Vec<T> = Vec::new();
        std::mem::swap(&mut out, &mut self.filling);
        out
    }

    /// Produces the next group: group `k` while `k` is below the number of requested
    /// sizes, then nothing, on every later call.
    pub fn next(&mut self) -> (r: Option<Vec<T>>)
        requires
            old(self).wf(),
        ensures
            final(self).wf(),
            final(self).source_seq() == old(self).source_seq(),
            final(self).sizes_seq() == old(self).sizes_seq(),
            old(self).emitted() < old(self).sizes_seq().len() ==> {
                &&& (r matches Option::Some(v) && v@ == chunk_at(
                    old(self).source_seq(),
                    old(self).sizes_seq(),
                    old(self).emitted() as int,
                ))
                &&& final(self).emitted() == old(self).emitted() + 1
            },
            old(self).exhausted() ==> r is None && final(self).exhausted(),
            final(self).emitted() <= final(self).sizes_seq().len(),
            r is None ==> final(self).exhausted(),
    {
        loop
            invariant
                self.wf(),
                self.source == old(self).source,
                self.sizes == old(self).sizes,
                self.head == old(self).head,
            decreases self.source@.len() - self.pos, if self.iter_finished {
                0int
            } else {
                1int
            },
        {
            let ghost s = self.source@;
            let ghost sizes = self.sizes@;
            let ghost k = self.head as int;
            if self.iter_finished {
                if self.head < self.sizes.len() {
                    let out = self.take_head();
                    self.head = self.head + 1;
                    assert(prefix_sum(sizes, k + 1) >= s.len());
                    assert forall|j: int| k + 1 < j <= sizes.len() implies prefix_sum(sizes, j)
                        >= s.len() by {}
                    proof {
                        if k + 1 < sizes.len() {
                            assert(prefix_sum(sizes, k + 2) >= s.len());
                            assert(self.filling@ =~= chunk_at(s, sizes, k + 1));
                        }
                    }
                    return Option::Some(out);
                } else {
                    return Option::None;
                }
            }
            if self.head < self.sizes.len() {
                if self.filling.len() == self.sizes[self.head] {
                    let out = self.take_head();
                    self.head = self.head + 1;
                    assert(self.filling@ =~= s.subrange(prefix_sum(sizes, k + 1), self.pos as int));
                    return Option::Some(out);
                }
            }
            match pull(&self.source, &mut self.pos) {
                Option::None => {
                    self.iter_finished = true;
                    proof {
                        if k < sizes.len() {
                            assert(self.filling@ =~= chunk_at(s, sizes, k));
                            assert forall|j: int| k < j <= sizes.len() implies prefix_sum(
                                sizes,
                                j,
                            ) >= s.len() by {
                                lemma_prefix_sum_monotone(sizes, k + 1, j);
                            }
                        }
                    }
                },
                Option::Some(v) => {
                    if self.head < self.sizes.len() {
                        self.filling.push(v);
                        proof {
                            lemma_prefix_sum_monotone(sizes, 0, k);
                        }
                        assert(self.filling@ =~= s.subrange(prefix_sum(sizes, k), self.pos as int));
                    }
                },
            }
        }
    }
}

impl<T: Copy> SplitInto<T> {
    /// Every group not produced yet, in order.
    pub fn collect(self) -> (r: Vec<Vec<T>>)
        requires
            self.wf(),
        ensures
            r@.len() == self.sizes_seq().len() - self.emitted(),
            forall|i: int|
                0 <= i < r@.len() ==> #[trigger] r@[i]@ == chunk_at(
                    self.source_seq(),
                    self.sizes_seq(),
                    self.emitted() + i,
                ),
    {
        let ghost k0 = self.emitted() as int;
        let mut it = self;
        let mut ret: Vec<Vec<T>> = Vec::new();
        while it.head < it.sizes.len()
            invariant
                it.wf(),
                it.source_seq() == self.source_seq(),
                it.sizes_seq() == self.sizes_seq(),
                it.emitted() == k0 + ret@.len(),
                forall|i: int|
                    0 <= i < ret@.len() ==> #[trigger] ret@[i]@ == chunk_at(
                        self.source_seq(),
                        self.sizes_seq(),
                        k0 + i,
                    ),
            decreases it.sizes@.len() - it.head,
        {
            match it.next() {
                Option::Some(v) => {
                    ret.push(v);
                },
                Option::None => {},
            }
        }
        ret
    }
}

/// Splits `iter` into consecutive groups whose lengths are `sizes`, in order.
pub fn split_into<T: Copy>(iter: Vec<T>, sizes: Vec<usize>) -> (r: SplitInto<T>)
    ensures
        r.wf(),
        r.source_seq() == iter@,
        r.sizes_seq() == sizes@,
        r.emitted() == 0,
{
    let r = SplitInto {
        source: iter,
        pos: 0,
        sizes,
        head: 0,
        filling: Vec::new(),
        iter_finished: false,
    };
    assert(r.filling@ =~= r.source@.subrange(0, 0));
    r
}

} // verus!
