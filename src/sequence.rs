use vstd::laws_eq::obeys_concrete_eq;
use vstd::prelude::*;
use vstd::slice::slice_subrange;

verus! {

/// Whether two vectors hold the same elements, for an element type whose `==` is
/// equality.
pub fn vec_equal<T: PartialEq>(a: &Vec<T>, b: &Vec<T>) -> (r: bool)
    requires
        obeys_concrete_eq::<T>(),
    ensures
        r == (a@ == b@),
{
    if a.len() != b.len() {
        return false;
    }
    let mut i: usize = 0;
    while i < a.len()
        invariant
            a@.len() == b@.len(),
            i <= a@.len(),
            obeys_concrete_eq::<T>(),
            forall|j: int| 0 <= j < i ==> a@[j] == b@[j],
        decreases a@.len() - i,
    {
        proof {
            reveal(obeys_concrete_eq);
        }
        if !(a[i] == b[i]) {
            return false;
        }
        i = i + 1;
    }
    assert(a@ =~= b@);
    true
}

/// A copy of `v`.
pub fn copy_vec<T: Copy>(v: &Vec<T>) -> (r: Vec<T>)
    ensures
        r@ == v@,
{
    let mut r: Vec<T> = Vec::new();
    let mut i: usize = 0;
    while i < v.len()
        invariant
            i <= v@.len(),
            r@ == v@.subrange(0, i as int),
        decreases v@.len() - i,
    {
        r.push(v[i]);
        i = i + 1;
    }
    assert(r@ =~= v@);
    r
}

/// A finite, indexable, read-only sequence of elements.
pub trait Sequence<T: PartialEq> {
    /// The elements, in order.
    spec fn seq_view(&self) -> Seq<T>;

    /// The element at `index`, or nothing past the end.
    fn get(&self, index: usize) -> (r: Option<&T>)
        ensures
            index < self.seq_view().len() ==> r == Option::Some(&self.seq_view()[index as int]),
            index >= self.seq_view().len() ==> r is None,
    ;

    /// The number of elements.
    fn len(&self) -> (r: usize)
        ensures
            r == self.seq_view().len(),
    ;

    /// Whether `other` holds the same elements in the same order.
    fn equals(&self, other: &Self) -> (r: bool)
        requires
            obeys_concrete_eq::<T>(),
        ensures
            r == (self.seq_view() == other.seq_view()),
    ;

    /// The elements from `begin` up to, not including, `end`.
    fn slice(&self, begin: usize, end: usize) -> (r: &[T])
        requires
            begin <= end <= self.seq_view().len(),
        ensures
            r@ == self.seq_view().subrange(begin as int, end as int),
    ;

    /// All the elements.
    fn as_slice(&self) -> (r: &[T])
        ensures
            r@ == self.seq_view(),
    ;
}

/// A sequence held in a vector.
pub struct SequenceVector<T> {
    v: Vec<T>,
}

impl<T> SequenceVector<T> {
    /// The elements held.
    pub closed spec fn items(&self) -> Seq<T> {
        self.v@
    }

    pub fn new(v: Vec<T>) -> (r: SequenceVector<T>)
        ensures
            r.items() == v@,
    {
        SequenceVector { v }
    }
}

impl<T: PartialEq> Sequence<T> for SequenceVector<T> {
    open spec fn seq_view(&self) -> Seq<T> {
        self.items()
    }

    fn get(&self, index: usize) -> (r: Option<&T>) {
        if index < self.v.len() {
            Option::Some(&self.v[index])
        } else {
            Option::None
        }
    }

    fn len(&self) -> (r: usize) {
        self.v.len()
    }

    fn equals(&self, other: &Self) -> (r: bool) {
        vec_equal(&self.v, &other.v)
    }

    fn slice(&self, begin: usize, end: usize) -> (r: &[T]) {
        slice_subrange(self.v.as_slice(), begin, end)
    }

    fn as_slice(&self) -> (r: &[T]) {
        self.v.as_slice()
    }
}

/// A sequence holding the elements of `v`.
pub fn create_seq_from_vec<T: PartialEq>(v: Vec<T>) -> (r: SequenceVector<T>)
    ensures
        r.seq_view() == v@,
{
    SequenceVector::new(v)
}

} // verus!
