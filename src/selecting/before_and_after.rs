use vstd::prelude::*;

verus! {

/// A source split at its first element that fails a predicate: the elements before
/// it, kept eagerly, and the rest, produced lazily starting with that element.
pub struct BeforeAndAfter<T> {
    pub before: Vec<T>,
    the_one: Option<T>,
    consumed_the_one: bool,
    source: Vec<T>,
    pos: usize,
}

impl<T: Copy> BeforeAndAfter<T> {
    /// What is left to produce, in order.
    pub closed spec fn remaining(&self) -> Seq<T> {
        let rest = self.source@.subrange(self.pos as int, self.source@.len() as int);
        match self.the_one {
            Option::Some(v) => if self.consumed_the_one {
                rest
            } else {
                seq![v] + rest
            },
            Option::None => rest,
        }
    }

    /// The elements before the split point.
    pub closed spec fn before_seq(&self) -> Seq<T> {
        self.before@
    }

    /// The elements before the split point.
    pub fn before(&self) -> (r: &Vec<T>)
        ensures
            r@ == self.before_seq(),
    {
        &self.before
    }

    pub closed spec fn wf(&self) -> bool {
        &&& self.pos <= self.source@.len()
        &&& self.the_one is None ==> self.pos == self.source@.len()
    }

    /// Produces the next element after the split point.
    pub fn next(&mut self) -> (r: Option<T>)
        requires
            old(self).wf(),
        ensures
            final(self).wf(),
            final(self).before_seq() == old(self).before_seq(),
            old(self).remaining().len() > 0 ==> r == Option::Some(old(self).remaining()[0])
                && final(self).remaining() == old(self).remaining().drop_first(),
            old(self).remaining().len() == 0 ==> r is None && final(self).remaining().len() == 0,
    {
        if !self.consumed_the_one {
            self.consumed_the_one = true;
            match self.the_one {
                Option::None => {
                    return Option::None;
                },
                Option::Some(v) => {
                    proof {
                        let rest = self.source@.subrange(self.pos as int, self.source@.len() as int);
                        assert((seq![v] + rest).drop_first() =~= rest);
                    }
                    return Option::Some(v);
                },
            }
        }
        if self.pos < self.source.len() {
            let v = self.source[self.pos];
            self.pos = self.pos + 1;
            proof {
                let s = self.source@;
                assert(s.subrange(self.pos - 1, s.len() as int).drop_first() =~= s.subrange(
                    self.pos as int,
                    s.len() as int,
                ));
            }
            Option::Some(v)
        } else {
            Option::None
        }
    }
}

impl<T: Copy> BeforeAndAfter<T> {
    /// Everything not produced yet, in order.
    pub fn collect(self) -> (r: Vec<T>)
        requires
            self.wf(),
        ensures
            r@ == self.remaining(),
    {
        let mut it = self;
        let mut ret: Vec<T> = Vec::new();
        loop
            invariant
                it.wf(),
                ret@ + it.remaining() == self.remaining(),
            decreases it.remaining().len(),
        {
            match it.next() {
                Option::Some(v) => {
                    ret.push(v);
                    assert(ret@ + it.remaining() =~= self.remaining());
                },
                Option::None => {
                    assert(ret@ =~= self.remaining());
                    return ret;
                },
            }
        }
    }
}

/// Splits `iterable` at its first element for which `predicate` does not hold: the
/// elements before it are kept in `before`, and that element and all after it are
/// produced lazily.
pub fn before_and_after<T: Copy, P: Fn(&T) -> bool>(iterable: Vec<T>, predicate: P) -> (r:
    BeforeAndAfter<T>)
    requires
        forall|x: &T| #[trigger] predicate.requires((x,)),
    ensures
        r.wf(),
        r.before_seq().len() <= iterable@.len(),
        r.before_seq() == iterable@.subrange(0, r.before_seq().len() as int),
        r.remaining() == iterable@.subrange(r.before_seq().len() as int, iterable@.len() as int),
        forall|i: int|
            0 <= i < r.before_seq().len() ==> #[trigger] predicate.ensures((&iterable@[i],), true),
        r.before_seq().len() < iterable@.len() ==> predicate.ensures(
            (&iterable@[r.before_seq().len() as int],),
            false,
        ),
{
    let mut before: Vec<T> = Vec::new();
    let mut i: usize = 0;
    while i < iterable.len()
        invariant
            i <= iterable@.len(),
            before@ == iterable@.subrange(0, i as int),
            forall|j: int| 0 <= j < i ==> #[trigger] predicate.ensures((&iterable@[j],), true),
            forall|x: &T| #[trigger] predicate.requires((x,)),
        decreases iterable@.len() - i,
    {
        let v = iterable[i];
        if predicate(&v) {
            before.push(v);
            i = i + 1;
            assert(before@ =~= iterable@.subrange(0, i as int));
        } else {
            let r = BeforeAndAfter {
                before,
                the_one: Option::Some(v),
                consumed_the_one: false,
                source: iterable,
                pos: i + 1,
            };
            assert(r.remaining() =~= r.source@.subrange(i as int, r.source@.len() as int));
            return r;
        }
    }
    let r = BeforeAndAfter {
        before,
        the_one: Option::None,
        consumed_the_one: false,
        source: iterable,
        pos: i,
    };
    assert(r.remaining() =~= r.source@.subrange(i as int, i as int));
    r
}

} // verus!
