use std::collections::VecDeque;

use vstd::prelude::*;

use crate::error::{value_error, Error, Kind};

verus! {

/// Whether the window with index `k` lies inside a source of `len` elements.
pub open spec fn window_fits(len: int, n: int, step: int, k: int) -> bool {
    n + k * step <= len
}

/// The window with index `k`: `n` elements starting at `k * step`.
pub open spec fn window_at<T>(s: Seq<T>, n: int, step: int, k: int) -> Seq<T> {
    s.subrange(k * step, k * step + n)
}

/// Takes the element at `*pos` from `source`, if there is one, and moves past it.
pub(crate) fn pull<T: Copy>(source: &Vec<T>, pos: &mut usize) -> (r: Option<T>)
    requires
        *old(pos) <= source.len(),
    ensures
        *old(pos) < source.len() ==> r == Option::Some(source@[*old(pos) as int]) && *final(pos)
            == *old(pos) + 1,
        *old(pos) == source.len() ==> r is None && *final(pos) == *old(pos),
{
    if *pos < source.len() {
        let v = source[*pos];
        *pos = *pos + 1;
        Option::Some(v)
    } else {
        Option::None
    }
}

/// Overlapping windows of `n` elements over a source, advancing by `step`.
pub struct Windowed<T> {
    buf: VecDeque<T>,
    source: Vec<T>,
    pos: usize,
    n: usize,
    step: usize,
    cache_first_window: bool,
    emitted: Ghost<nat>,
}

impl<T: Copy> Windowed<T> {
    /// The elements the windows are taken from.
    pub closed spec fn source_seq(&self) -> Seq<T> {
        self.source@
    }

    /// The window size.
    pub closed spec fn size(&self) -> nat {
        self.n as nat
    }

    /// How far each window advances past the previous one.
    pub closed spec fn step_size(&self) -> nat {
        self.step as nat
    }

    /// How many windows have been produced so far.
    pub closed spec fn emitted(&self) -> nat {
        self.emitted@
    }

    /// Whether no further window will be produced.
    pub closed spec fn exhausted(&self) -> bool {
        self.cache_first_window && self.buf@.len() < self.n
    }

    pub closed spec fn wf(&self) -> bool {
        let len = self.source@.len() as int;
        let k = self.emitted@ as int;
        &&& self.pos <= self.source@.len()
        &&& !self.cache_first_window ==> self.buf@.len() == 0 && self.pos == 0 && k == 0
        &&& self.n == 0 ==> !self.cache_first_window
        &&& (self.cache_first_window && self.buf@.len() >= self.n) ==> {
            &&& k >= 1
            &&& self.buf@.len() == self.n
            &&& self.pos == self.n + (k - 1) * self.step
            &&& self.buf@ == self.source@.subrange(self.pos - self.n, self.pos as int)
        }
        &&& self.exhausted() ==> self.pos == len && !window_fits(
            len,
            self.n as int,
            self.step as int,
            k,
        )
    }

    fn snapshot(&self) -> (r: Vec<T>)
        ensures
            r@ == self.buf@,
    {
        let mut ret: Vec<T> = Vec::new();
        let mut i: usize = 0;
        while i < self.buf.len()
            invariant
                i <= self.buf@.len(),
                ret@ == self.buf@.subrange(0, i as int),
            decreases self.buf@.len() - i,
        {
            ret.push(self.buf[i]);
            i = i + 1;
        }
        assert(ret@ == self.buf@);
        ret
    }

    /// Produces the next window. A window size of zero fails with a `ValueError` on
    /// every call; otherwise window `k` is produced while it fits in the source, and
    /// once one does not fit, every later call produces nothing.
    pub fn next(&mut self) -> (r: Option<Result<Vec<T>, Error>>)
        requires
            old(self).wf(),
        ensures
            final(self).wf(),
            final(self).source_seq() == old(self).source_seq(),
            final(self).size() == old(self).size(),
            final(self).step_size() == old(self).step_size(),
            old(self).size() == 0 ==> {
                &&& (r matches Option::Some(Result::Err(e)) && e@.0 == Kind::ValueError)
                &&& final(self).emitted() == old(self).emitted()
                &&& !final(self).exhausted()
            },
            old(self).size() > 0 ==> if window_fits(
                old(self).source_seq().len() as int,
                old(self).size() as int,
                old(self).step_size() as int,
                old(self).emitted() as int,
            ) {
                &&& (r matches Option::Some(Result::Ok(v)) && v@ == window_at(
                    old(self).source_seq(),
                    old(self).size() as int,
                    old(self).step_size() as int,
                    old(self).emitted() as int,
                ))
                &&& final(self).emitted() == old(self).emitted() + 1
                &&& !final(self).exhausted()
            } else {
                &&& r is None
                &&& final(self).emitted() == old(self).emitted()
                &&& final(self).exhausted()
            },
            old(self).exhausted() ==> r is None && final(self).exhausted(),
    {
        if self.n == 0 {
            return Option::Some(Result::Err(value_error("n should not be 0.".to_string())));
        }
        if !self.cache_first_window {
            let mut failed = false;
            let mut i: usize = 0;
            while i < self.n && !failed
                invariant
                    self.source == old(self).source,
                    self.n == old(self).n,
                    self.step == old(self).step,
                    self.emitted == old(self).emitted,
                    !self.cache_first_window,
                    self.n > 0,
                    i <= self.n,
                    self.pos <= self.source@.len(),
                    self.buf@ == self.source@.subrange(0, self.pos as int),
                    !failed ==> self.pos == i,
                    failed ==> self.pos == self.source@.len() && self.pos < self.n,
                decreases self.n - i,
            {
                match pull(&self.source, &mut self.pos) {
                    Option::Some(v) => {
                        self.buf.push_back(v);
                    },
                    Option::None => {
                        failed = true;
                    },
                }
                i = i + 1;
            }
            self.cache_first_window = true;
            if self.buf.len() < self.n {
                return Option::None;
            }
            self.emitted = Ghost(1);
            assert(self.buf@ == window_at(self.source@, self.n as int, self.step as int, 0));
            return Option::Some(Result::Ok(self.snapshot()));
        }
        if self.buf.len() < self.n {
            return Option::None;
        }
        let ghost k = self.emitted@ as int;
        let ghost pos0 = self.pos as int;
        let mut failed = false;
        let mut i: usize = 0;
        while i < self.step && !failed
            invariant
                self.source == old(self).source,
                self.n == old(self).n,
                self.step == old(self).step,
                self.emitted == old(self).emitted,
                self.cache_first_window,
                self.n > 0,
                k >= 1,
                pos0 == self.n + (k - 1) * self.step,
                i <= self.step,
                self.pos <= self.source@.len(),
                !failed ==> self.pos == pos0 + i && self.buf@.len() == self.n && self.buf@
                    == self.source@.subrange(self.pos - self.n, self.pos as int),
                failed ==> self.pos == self.source@.len() && self.buf@.len() < self.n
                    && self.source@.len() < pos0 + self.step,
            decreases self.step - i,
        {
            self.buf.pop_front();
            match pull(&self.source, &mut self.pos) {
                Option::Some(v) => {
                    self.buf.push_back(v);
                },
                Option::None => {
                    failed = true;
                },
            }
            i = i + 1;
        }
        assert(pos0 + self.step == self.n + k * self.step) by (nonlinear_arith)
            requires
                pos0 == self.n + (k - 1) * self.step,
        ;
        if failed {
            return Option::None;
        }
        self.emitted = Ghost((k + 1) as nat);
        Option::Some(Result::Ok(self.snapshot()))
    }
}

/// Windows of `n` elements over `iterable`, each `step` elements past the previous.
pub fn windowed<T: Copy>(iterable: Vec<T>, n: usize, step: usize) -> (r: Windowed<T>)
    ensures
        r.wf(),
        r.source_seq() == iterable@,
        r.size() == n,
        r.step_size() == step,
        r.emitted() == 0,
        !r.exhausted(),
{
    Windowed {
        buf: VecDeque::new(),
        source: iterable,
        pos: 0,
        n,
        step,
        cache_first_window: false,
        emitted: Ghost(0),
    }
}

} // verus!
