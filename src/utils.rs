use std::collections::HashMap;
use std::hash::Hash;

use std::cmp::Ordering;

use vstd::laws_cmp::{obeys_cmp, obeys_partial_cmp_spec_properties};
use vstd::laws_eq::obeys_concrete_eq;
use vstd::prelude::*;
use vstd::std_specs::cmp::{OrdSpec, PartialEqSpec, PartialOrdSpec};
use vstd::std_specs::hash::obeys_key_model;

use crate::error::Error;

verus! {

/// Takes the values of `vec` up to its first error. The flag says whether an error
/// was met; the values are those before it, or all of them when there is none.
pub fn extract_value_from_result_vec<T>(vec: Vec<Result<T, Error>>) -> (r: (Vec<T>, bool))
    ensures
        r.0@.len() <= vec@.len(),
        forall|i: int| 0 <= i < r.0@.len() ==> vec@[i] == Result::<T, Error>::Ok(r.0@[i]),
        r.1 ==> vec@[r.0@.len() as int] is Err,
        !r.1 ==> r.0@.len() == vec@.len(),
        r.1 == exists|i: int| 0 <= i < vec@.len() && #[trigger] vec@[i] is Err,
{
    let ghost s = vec@;
    let mut rest = vec;
    let mut ret_vec: Vec<T> = Vec::new();
    while rest.len() > 0
        invariant
            ret_vec@.len() + rest@.len() == s.len(),
            s == vec@,
            rest@ == s.subrange(ret_vec@.len() as int, s.len() as int),
            forall|i: int| 0 <= i < ret_vec@.len() ==> s[i] == Result::<T, Error>::Ok(ret_vec@[i]),
        decreases rest@.len(),
    {
        let ghost m = ret_vec@.len() as int;
        assert(rest@[0] == s[m]);
        let first = rest.remove(0);
        assert(first == s[m]);
        match first {
            Result::Err(_) => {
                assert(s[m] is Err);
                return (ret_vec, true);
            },
            Result::Ok(v) => {
                ret_vec.push(v);
                assert(rest@ =~= s.subrange(m + 1, s.len() as int));
            },
        }
    }
    assert forall|i: int| 0 <= i < s.len() implies !(#[trigger] s[i] is Err) by {
        assert(s[i] == Result::<T, Error>::Ok(ret_vec@[i]));
    }
    (ret_vec, false)
}

/// Relies on `String`'s `FromIterator<&char>`: the string holds the characters in order.
#[verifier::external_body]
pub(crate) fn collect_chars(v: &Vec<char>) -> (r: String)
    ensures
        r@ == v@,
{
    v.iter().collect()
}

/// The characters of `v` as a string.
pub fn join_string_vec(v: &Vec<char>) -> (r: String)
    ensures
        r@ == v@,
{
    collect_chars(v)
}

/// Each vector of characters of `l` as a string.
pub fn join_char_vec_second_level(l: &Vec<Vec<char>>) -> (r: Vec<String>)
    ensures
        r@.len() == l@.len(),
        forall|i: int| 0 <= i < l@.len() ==> #[trigger] r@[i]@ == l@[i]@,
{
    let mut ret: Vec<String> = Vec::new();
    let mut i: usize = 0;
    while i < l.len()
        invariant
            i <= l@.len(),
            ret@.len() == i,
            forall|j: int| 0 <= j < i ==> #[trigger] ret@[j]@ == l@[j]@,
        decreases l@.len() - i,
    {
        ret.push(join_string_vec(&l[i]));
        i = i + 1;
    }
    ret
}

/// Whether some element of `v` is `true`.
pub fn any(v: &Vec<bool>) -> (r: bool)
    ensures
        r == v@.contains(true),
{
    let mut i: usize = 0;
    while i < v.len()
        invariant
            i <= v@.len(),
            forall|j: int| 0 <= j < i ==> !v@[j],
        decreases v@.len() - i,
    {
        if v[i] {
            assert(v@[i as int] == true);
            return true;
        }
        i = i + 1;
    }
    false
}

/// Whether `v` holds a vector with some element `true`; an error gives `false`.
pub fn any_result(v: Result<Vec<bool>, Error>) -> (r: bool)
    ensures
        r == (v matches Result::Ok(b) && b@.contains(true)),
{
    match v {
        Result::Err(_) => false,
        Result::Ok(b) => any(&b),
    }
}

/// Whether both options are empty, or both hold equal values.
pub fn are_same<T: PartialEq>(op1: Option<&T>, op2: Option<&T>) -> (r: bool)
    requires
        obeys_concrete_eq::<T>(),
    ensures
        r == (op1 == op2),
{
    proof {
        reveal(obeys_concrete_eq);
    }
    match (op1, op2) {
        (Option::None, Option::None) => true,
        (Option::Some(v1), Option::Some(v2)) => *v1 == *v2,
        _ => false,
    }
}

/// `a` orders before `b`.
pub open spec fn less<T: PartialOrd>(a: T, b: T) -> bool {
    a.partial_cmp_spec(&b) == Option::Some(Ordering::Less)
}

/// Index `a` of `data` sorts before index `b`: its element is smaller, or the two
/// are equal and `a` comes first.
pub open spec fn sorts_before<T: PartialOrd>(data: Seq<T>, a: int, b: int) -> bool {
    less(data[a], data[b]) || (data[a] == data[b] && a < b)
}

/// The indices of `data` ordered by their elements; equal elements keep their order.
pub fn argsort<T: Ord>(data: &[T]) -> (r: Vec<usize>)
    requires
        obeys_cmp::<T>(),
        obeys_concrete_eq::<T>(),
    ensures
        r@.len() == data@.len(),
        forall|j: usize| j < data@.len() ==> #[trigger] r@.contains(j),
        forall|p: int| 0 <= p < r@.len() ==> #[trigger] r@[p] < data@.len(),
        forall|p: int, q: int|
            0 <= p < q < r@.len() ==> sorts_before(data@, #[trigger] r@[p] as int, #[trigger] r@[q] as int),
{
    proof {
        reveal(obeys_concrete_eq);
        reveal(obeys_partial_cmp_spec_properties);
        reveal(vstd::laws_cmp::obeys_cmp_ord);
        reveal(vstd::laws_cmp::obeys_cmp_partial_ord);
    }
    let ghost d = data@;
    let mut indices: Vec<usize> = Vec::new();
    let mut i: usize = 0;
    while i < data.len()
        invariant
            d == data@,
            i <= d.len(),
            obeys_cmp::<T>(),
            obeys_concrete_eq::<T>(),
            forall|x: T, y: T| x.eq_spec(&y) <==> x == y,
            forall|x: T, y: T|
                #![trigger x.partial_cmp_spec(&y)]
                x.partial_cmp_spec(&y) == Option::Some(x.cmp_spec(&y)),
            forall|x: T, y: T| #[trigger]
                x.partial_cmp_spec(&y) == Option::Some(Ordering::Equal) <==> x.eq_spec(&y),
            forall|x: T, y: T| #[trigger]
                x.partial_cmp_spec(&y) == Option::Some(Ordering::Less) <==> y.partial_cmp_spec(&x)
                    == Option::Some(Ordering::Greater),
            forall|x: T, y: T, z: T|
                x.partial_cmp_spec(&y) == Option::Some(Ordering::Less) && #[trigger] y.partial_cmp_spec(
                    &z,
                ) == Option::Some(Ordering::Less) ==> #[trigger] x.partial_cmp_spec(&z)
                    == Option::Some(Ordering::Less),
            T::obeys_partial_cmp_spec(),
            indices@.len() == i,
            forall|j: usize| j < i ==> #[trigger] indices@.contains(j),
            forall|p: int| 0 <= p < indices@.len() ==> #[trigger] indices@[p] < i,
            forall|p: int, q: int|
                0 <= p < q < indices@.len() ==> sorts_before(d, #[trigger] indices@[p] as int, #[trigger] indices@[q] as int),
        decreases d.len() - i,
    {
        let mut p: usize = 0;
        while p < indices.len() && !(data[i] < data[indices[p]])
            invariant
                d == data@,
                i < d.len(),
                p <= indices@.len(),
                forall|p: int| 0 <= p < indices@.len() ==> #[trigger] indices@[p] < i,
                forall|q: int| 0 <= q < p ==> !less(d[i as int], d[#[trigger] indices@[q] as int]),
                T::obeys_partial_cmp_spec(),
            decreases indices@.len() - p,
        {
            p = p + 1;
        }
        let ghost old_ix = indices@;
        indices.insert(p, i);
        let ghost n = indices@;
        assert(n == old_ix.insert(p as int, i));
        assert forall|pa: int, qb: int|
            0 <= pa < qb < n.len() implies sorts_before(d, #[trigger] n[pa] as int, #[trigger] n[qb] as int) by {
            let a = n[pa] as int;
            let b = n[qb] as int;
            if qb == p {
                assert(a == old_ix[pa]);
                assert(!less(d[i as int], d[a]));
                assert(a < i);
            } else if pa == p {
                let b0 = old_ix[qb - 1] as int;
                assert(b == b0);
                assert(less(d[i as int], d[old_ix[p as int] as int]));
                if qb - 1 > p {
                    assert(sorts_before(d, old_ix[p as int] as int, b0));
                }
            } else {
                let a0 = if pa < p { pa } else { pa - 1 };
                let b0 = if qb < p { qb } else { qb - 1 };
                assert(a == old_ix[a0] && b == old_ix[b0]);
                assert(sorts_before(d, old_ix[a0] as int, old_ix[b0] as int));
            }
        }
        assert forall|j: usize| j < i + 1 implies #[trigger] n.contains(j) by {
            if j == i {
                assert(n[p as int] == i);
            } else {
                assert(old_ix.contains(j));
                let q = choose|q: int| 0 <= q < old_ix.len() && old_ix[q] == j;
                if q < p {
                    assert(n[q] == j);
                } else {
                    assert(n[q + 1] == j);
                }
            }
        }
        i = i + 1;
    }
    indices
}

/// How many times `k` occurs in `s`.
pub open spec fn count_of<T>(s: Seq<T>, k: T) -> nat
    decreases s.len(),
{
    if s.len() == 0 {
        0
    } else {
        count_of(s.drop_last(), k) + if s.last() == k {
            1nat
        } else {
            0nat
        }
    }
}

/// The count that `m` holds for `k`, zero when it holds none.
pub open spec fn count_in<T>(m: Map<T, usize>, k: T) -> nat {
    if m.contains_key(k) {
        m[k] as nat
    } else {
        0
    }
}

/// A key occurs no more often than the sequence is long.
pub proof fn lemma_count_of_bounded<T>(s: Seq<T>, k: T)
    ensures
        count_of(s, k) <= s.len(),
    decreases s.len(),
{
    if s.len() > 0 {
        lemma_count_of_bounded(s.drop_last(), k);
    }
}

/// Adds to `hm` one for each occurrence of each element of `iter`.
pub fn counter<T: Hash + Eq>(hm: &mut HashMap<T, usize>, iter: Vec<T>)
    requires
        obeys_key_model::<T>(),
        forall|k: T| count_in(old(hm)@, k) + iter@.len() <= usize::MAX,
    ensures
        forall|k: T| #[trigger]
            final(hm)@.contains_key(k) <==> old(hm)@.contains_key(k) || count_of(iter@, k) > 0,
        forall|k: T| #[trigger] count_in(final(hm)@, k) == count_in(old(hm)@, k) + count_of(iter@, k),
{
    broadcast use vstd::std_specs::hash::group_hash_axioms;
    let ghost s = iter@;
    let ghost m0 = hm@;
    let mut rest = iter;
    while rest.len() > 0
        invariant
            obeys_key_model::<T>(),
            rest@.len() <= s.len(),
            rest@ == s.subrange(0, rest@.len() as int),
            forall|k: T| count_in(m0, k) + s.len() <= usize::MAX,
            forall|k: T| #[trigger]
                hm@.contains_key(k) <==> m0.contains_key(k) || count_of(s, k) > count_of(rest@, k),
            forall|k: T| #[trigger] count_in(hm@, k) + count_of(rest@, k) == count_in(m0, k) + count_of(s, k),
        decreases rest@.len(),
    {
        let ghost before = rest@;
        let key = rest.pop().unwrap();
        assert(rest@ =~= before.drop_last());
        assert(rest@ =~= s.subrange(0, rest@.len() as int));
        let ghost kk = key;
        proof {
            lemma_count_of_bounded(s, kk);
        }
        let c: usize = match hm.get(&key) {
            Option::Some(v) => *v,
            Option::None => 0,
        };
        assert(c == count_in(hm@, kk));
        let ghost h0 = hm@;
        hm.insert(key, c + 1);
        assert forall|k: T| #[trigger]
            hm@.contains_key(k) <==> m0.contains_key(k) || count_of(s, k) > count_of(rest@, k) by {
            if k == kk {
                assert(count_of(before, k) == count_of(rest@, k) + 1);
            } else {
                assert(count_of(before, k) == count_of(rest@, k));
            }
        }
        assert forall|k: T| #[trigger] count_in(hm@, k) + count_of(rest@, k) == count_in(m0, k) + count_of(s, k) by {
            assert(count_in(h0, k) + count_of(before, k) == count_in(m0, k) + count_of(s, k));
            if k == kk {
                assert(count_of(before, k) == count_of(rest@, k) + 1);
            } else {
                assert(count_of(before, k) == count_of(rest@, k));
            }
        }
    }
    assert forall|k: T| count_of(rest@, k) == 0 by {}
}

} // verus!
