use std::rc::Rc;

use vstd::laws_eq::obeys_concrete_eq;
use vstd::prelude::*;

use crate::sequence::{copy_vec, vec_equal};

verus! {

/// The elements of each vector, in order.
pub open spec fn views<T>(vs: Seq<Vec<T>>) -> Seq<Seq<T>> {
    vs.map_values(|v: Vec<T>| v@)
}

/// The items whose key is `k`, in the order they stand in `items`; `keys[i]` is the key of
/// `items[i]`.
pub open spec fn group_of<T>(items: Seq<Seq<T>>, keys: Seq<Seq<T>>, k: Seq<T>) -> Seq<Seq<T>>
    decreases items.len(),
{
    if items.len() == 0 {
        seq![]
    } else {
        let prev = group_of(items.drop_last(), keys.drop_last(), k);
        if keys[items.len() - 1] == k {
            prev.push(items.last())
        } else {
            prev
        }
    }
}

/// No item has key `k`, so its group is empty.
pub proof fn lemma_group_of_absent<T>(items: Seq<Seq<T>>, keys: Seq<Seq<T>>, k: Seq<T>)
    requires
        items.len() == keys.len(),
        !keys.contains(k),
    ensures
        group_of(items, keys, k) == Seq::<Seq<T>>::empty(),
    decreases items.len(),
{
    if items.len() > 0 {
        assert(!keys.drop_last().contains(k)) by {
            if keys.drop_last().contains(k) {
                let j = choose|j: int| 0 <= j < keys.drop_last().len() && keys.drop_last()[j] == k;
                assert(keys[j] == k);
            }
        }
        assert(keys[items.len() - 1] != k) by {
            assert(keys[keys.len() - 1] == keys[items.len() - 1]);
        }
        lemma_group_of_absent(items.drop_last(), keys.drop_last(), k);
    }
}

/// Some item has key `k`, so its group is not empty.
pub proof fn lemma_group_of_present<T>(items: Seq<Seq<T>>, keys: Seq<Seq<T>>, k: Seq<T>)
    requires
        items.len() == keys.len(),
        keys.contains(k),
    ensures
        group_of(items, keys, k).len() > 0,
    decreases items.len(),
{
    if keys[items.len() - 1] != k {
        let j = choose|j: int| 0 <= j < keys.len() && keys[j] == k;
        assert(keys.drop_last()[j] == k);
        lemma_group_of_present(items.drop_last(), keys.drop_last(), k);
    }
}

/// The grouping table shared by a bucket and its cursors.
pub struct BucketInner<T> {
    buf: Vec<Vec<T>>,
    keys: Vec<Vec<T>>,
    groups: Vec<Vec<Vec<T>>>,
    key_results: Ghost<Seq<Vec<T>>>,
}

impl<T> BucketInner<T> {
    pub closed spec fn items(&self) -> Seq<Seq<T>> {
        views(self.buf@)
    }

    pub closed spec fn item_keys(&self) -> Seq<Seq<T>> {
        views(self.key_results@)
    }

    pub closed spec fn key_results(&self) -> Seq<Vec<T>> {
        self.key_results@
    }

    /// Each key that some item has, with the items that have it, in order.
    pub open spec fn table(&self) -> Map<Seq<T>, Seq<Seq<T>>> {
        Map::new(
            |k: Seq<T>| self.item_keys().contains(k),
            |k: Seq<T>| group_of(self.items(), self.item_keys(), k),
        )
    }

    pub closed spec fn wf(&self) -> bool {
        let n = self.buf@.len() as int;
        &&& self.key_results@.len() == n
        &&& self.keys@.len() == self.groups@.len()
        &&& forall|a: int, b: int|
            0 <= a < b < self.keys@.len() ==> #[trigger] self.keys@[a]@ != #[trigger] self.keys@[b]@
        &&& forall|k: Seq<T>| #[trigger]
            views(self.keys@).contains(k) <==> self.item_keys().contains(k)
        &&& forall|a: int|
            0 <= a < self.keys@.len() ==> #[trigger] views(self.groups@[a]@) == group_of(
                self.items(),
                self.item_keys(),
                self.keys@[a]@,
            )
    }
}

/// Elements grouped by a key, built once; cursors read the same table.
pub struct Bucket<T> {
    inner: Rc<BucketInner<T>>,
}

/// A read-only view of a bucket's table.
pub struct Cursor<T> {
    inner: Rc<BucketInner<T>>,
}

/// Where key `k` stands among `keys`, if it does.
fn find_key<T: PartialEq>(keys: &Vec<Vec<T>>, k: &Vec<T>) -> (r: Option<usize>)
    requires
        obeys_concrete_eq::<T>(),
    ensures
        r matches Option::Some(i) ==> i < keys@.len() && keys@[i as int]@ == k@,
        r is None ==> !views(keys@).contains(k@),
{
    let mut i: usize = 0;
    while i < keys.len()
        invariant
            i <= keys@.len(),
            obeys_concrete_eq::<T>(),
            forall|j: int| 0 <= j < i ==> keys@[j]@ != k@,
        decreases keys@.len() - i,
    {
        if vec_equal(&keys[i], k) {
            return Option::Some(i);
        }
        i = i + 1;
    }
    assert(!views(keys@).contains(k@)) by {
        if views(keys@).contains(k@) {
            let j = choose|j: int| 0 <= j < views(keys@).len() && views(keys@)[j] == k@;
            assert(keys@[j]@ == k@);
        }
    }
    Option::None
}

impl<T: PartialEq> Cursor<T> {
    /// The table this cursor reads.
    pub closed spec fn table(&self) -> Map<Seq<T>, Seq<Seq<T>>> {
        self.inner.table()
    }

    pub closed spec fn wf(&self) -> bool {
        self.inner.wf()
    }

    /// The items whose key is `key`, or nothing when no item has that key.
    pub fn get(&self, key: &Vec<T>) -> (r: Option<&Vec<Vec<T>>>)
        requires
            self.wf(),
            obeys_concrete_eq::<T>(),
        ensures
            r is Some <==> self.table().contains_key(key@),
            r matches Option::Some(g) ==> views(g@) == self.table()[key@] && g@.len() > 0,
    {
        match find_key(&self.inner.keys, key) {
            Option::Some(i) => {
                assert(views(self.inner.keys@)[i as int] == key@);
                assert(views(self.inner.keys@).contains(key@));
                assert(self.inner.item_keys().contains(key@));
                assert(views(self.inner.groups@[i as int]@) == group_of(
                    self.inner.items(),
                    self.inner.item_keys(),
                    key@,
                ));
                proof {
                    lemma_group_of_present(self.inner.items(), self.inner.item_keys(), key@);
                }
                Option::Some(&self.inner.groups[i])
            },
            Option::None => {
                assert(!self.inner.item_keys().contains(key@));
                Option::None
            },
        }
    }
}

impl<T: Copy + PartialEq> Bucket<T> {
    /// The grouped elements, in their original order.
    pub closed spec fn items(&self) -> Seq<Seq<T>> {
        self.inner.items()
    }

    /// The key found for each element, in order.
    pub closed spec fn key_results(&self) -> Seq<Vec<T>> {
        self.inner.key_results()
    }

    /// Each key that some element has, with the elements that have it.
    pub closed spec fn table(&self) -> Map<Seq<T>, Seq<Seq<T>>> {
        self.inner.table()
    }

    pub closed spec fn wf(&self) -> bool {
        self.inner.wf()
    }

    /// Groups the elements of `buf` by the key that `key_func` gives each.
    pub fn new<F: Fn(&Vec<T>) -> Vec<T>>(buf: Vec<Vec<T>>, key_func: F) -> (r: Self)
        requires
            forall|x: &Vec<T>| #[trigger] key_func.requires((x,)),
            obeys_concrete_eq::<T>(),
        ensures
            r.wf(),
            r.items() == views(buf@),
            r.key_results().len() == buf@.len(),
            forall|i: int|
                0 <= i < buf@.len() ==> #[trigger] key_func.ensures(
                    (&buf@[i],),
                    r.key_results()[i],
                ),
            r.table() == Map::new(
                |k: Seq<T>| views(r.key_results()).contains(k),
                |k: Seq<T>| group_of(views(buf@), views(r.key_results()), k),
            ),
    {
        let mut keys: Vec<Vec<T>> = Vec::new();
        let mut groups: Vec<Vec<Vec<T>>> = Vec::new();
        let ghost mut results: Seq<Vec<T>> = seq![];
        let mut i: usize = 0;
        while i < buf.len()
            invariant
                i <= buf@.len(),
                obeys_concrete_eq::<T>(),
                forall|x: &Vec<T>| #[trigger] key_func.requires((x,)),
                results.len() == i,
                forall|j: int|
                    0 <= j < i ==> #[trigger] key_func.ensures((&buf@[j],), results[j]),
                keys@.len() == groups@.len(),
                forall|a: int, b: int|
                    0 <= a < b < keys@.len() ==> #[trigger] keys@[a]@ != #[trigger] keys@[b]@,
                forall|k: Seq<T>| #[trigger] views(keys@).contains(k) <==> views(results).contains(k),
                forall|a: int|
                    0 <= a < keys@.len() ==> #[trigger] views(groups@[a]@) == group_of(
                        views(buf@.subrange(0, i as int)),
                        views(results),
                        keys@[a]@,
                    ),
            decreases buf@.len() - i,
        {
            let item = copy_vec(&buf[i]);
            let key = key_func(&buf[i]);
            let ghost old_keys = keys@;
            let ghost old_groups = groups@;
            let ghost old_results = results;
            let ghost kv = key@;
            proof {
                results = results.push(key);
            }
            let ghost items_old = views(buf@.subrange(0, i as int));
            let ghost items_new = views(buf@.subrange(0, i + 1));
            assert(items_new.drop_last() =~= items_old);
            assert(views(results).drop_last() =~= views(old_results));
            assert(items_new.last() == buf@[i as int]@);
            assert(views(results)[i as int] == kv);
            assert forall|k: Seq<T>| k != kv implies group_of(items_new, views(results), k)
                == group_of(items_old, views(old_results), k) by {}
            assert(group_of(items_new, views(results), kv) == group_of(
                items_old,
                views(old_results),
                kv,
            ).push(buf@[i as int]@));
            assert forall|k: Seq<T>| #[trigger]
                views(results).contains(k) <==> (views(old_results).contains(k) || k == kv) by {
                if views(results).contains(k) && k != kv {
                    let j = choose|j: int| 0 <= j < views(results).len() && views(results)[j] == k;
                    assert(views(old_results)[j] == k);
                }
                if views(old_results).contains(k) {
                    let j = choose|j: int|
                        0 <= j < views(old_results).len() && views(old_results)[j] == k;
                    assert(views(results)[j] == k);
                }
                if k == kv {
                    assert(views(results)[i as int] == k);
                }
            }
            match find_key(&keys, &key) {
                Option::Some(idx) => {
                    let mut g: Vec<Vec<T>> = Vec::new();
                    groups.set_and_swap(idx, &mut g);
                    g.push(item);
                    groups.set_and_swap(idx, &mut g);
                    assert(views(groups@[idx as int]@) =~= views(old_groups[idx as int]@).push(
                        buf@[i as int]@,
                    ));
                    assert forall|a: int| 0 <= a < keys@.len() implies #[trigger] views(
                        groups@[a]@,
                    ) == group_of(items_new, views(results), keys@[a]@) by {
                        if a != idx {
                            assert(keys@[a]@ != kv);
                        }
                    }
                    assert forall|k: Seq<T>| #[trigger]
                        views(keys@).contains(k) <==> views(results).contains(k) by {
                        if k == kv {
                            assert(views(keys@)[idx as int] == kv);
                        }
                    }
                },
                Option::None => {
                    proof {
                        lemma_group_of_absent(items_old, views(old_results), kv);
                    }
                    let mut g: Vec<Vec<T>> = Vec::new();
                    g.push(item);
                    keys.push(key);
                    groups.push(g);
                    assert(views(keys@) =~= views(old_keys).push(kv));
                    assert forall|a: int, b: int|
                        0 <= a < b < keys@.len() implies #[trigger] keys@[a]@ != #[trigger] keys@[b]@ by {
                        if b == keys@.len() - 1 {
                            assert(views(old_keys)[a] == keys@[a]@);
                        }
                    }
                    assert forall|a: int| 0 <= a < keys@.len() implies #[trigger] views(
                        groups@[a]@,
                    ) == group_of(items_new, views(results), keys@[a]@) by {
                        if a < keys@.len() - 1 {
                            assert(views(old_keys)[a] == keys@[a]@);
                            assert(keys@[a]@ != kv);
                        } else {
                            assert(views(groups@[a]@) =~= seq![].push(buf@[i as int]@));
                        }
                    }
                    assert forall|k: Seq<T>| #[trigger]
                        views(keys@).contains(k) <==> views(results).contains(k) by {
                        if k == kv {
                            assert(views(keys@)[keys@.len() - 1] == kv);
                        }
                        if views(keys@).contains(k) && k != kv {
                            let j = choose|j: int| 0 <= j < views(keys@).len() && views(keys@)[j] == k;
                            assert(views(old_keys)[j] == k);
                        }
                        if views(old_keys).contains(k) {
                            let j = choose|j: int| 0 <= j < views(old_keys).len() && views(old_keys)[j] == k;
                            assert(views(keys@)[j] == k);
                        }
                    }
                },
            }
            i = i + 1;
        }
        assert(buf@.subrange(0, i as int) =~= buf@);
        let inner = BucketInner { buf, keys, groups, key_results: Ghost(results) };
        let r = Bucket { inner: Rc::new(inner) };
        assert(r.table() =~= Map::new(
            |k: Seq<T>| views(r.key_results()).contains(k),
            |k: Seq<T>| group_of(views(r.inner.buf@), views(r.key_results()), k),
        ));
        r
    }

    /// The distinct keys of the table, each once, in no promised order.
    pub fn keys(&self) -> (r: Vec<Vec<T>>)
        requires
            self.wf(),
        ensures
            views(r@).no_duplicates(),
            forall|k: Seq<T>| #[trigger] views(r@).contains(k) <==> self.table().contains_key(k),
    {
        let mut ret: Vec<Vec<T>> = Vec::new();
        let mut i: usize = 0;
        while i < self.inner.keys.len()
            invariant
                i <= self.inner.keys@.len(),
                self.inner.wf(),
                views(ret@) == views(self.inner.keys@.subrange(0, i as int)),
            decreases self.inner.keys@.len() - i,
        {
            let k = copy_vec(&self.inner.keys[i]);
            let ghost old_ret = ret@;
            ret.push(k);
            assert(views(ret@) =~= views(old_ret).push(self.inner.keys@[i as int]@));
            i = i + 1;
            assert(views(ret@) =~= views(self.inner.keys@.subrange(0, i as int)));
        }
        assert(self.inner.keys@.subrange(0, i as int) =~= self.inner.keys@);
        proof {
            let vk = views(self.inner.keys@);
            assert forall|a: int, b: int| 0 <= a < vk.len() && 0 <= b < vk.len() && a != b implies vk[a] != vk[b] by {
                if a < b {
                    assert(self.inner.keys@[a]@ != self.inner.keys@[b]@);
                } else {
                    assert(self.inner.keys@[b]@ != self.inner.keys@[a]@);
                }
            }
        }
        ret
    }

    /// A cursor over this bucket's table; the table is shared, not copied.
    pub fn get_cursor(&self) -> (r: Cursor<T>)
        requires
            self.wf(),
        ensures
            r.wf(),
            r.table() == self.table(),
    {
        Cursor { inner: Rc::clone(&self.inner) }
    }
}

/// Every key in a bucket's table has at least one element, and two cursors of one
/// bucket read the same table as the bucket itself.
pub proof fn lemma_bucket_lookups_agree<T: Copy + PartialEq>(b: Bucket<T>, c1: Cursor<T>, c2: Cursor<T>)
    requires
        b.wf(),
        c1.table() == b.table(),
        c2.table() == b.table(),
    ensures
        c1.table() == c2.table(),
        forall|k: Seq<T>| #[trigger] b.table().contains_key(k) ==> b.table()[k].len() > 0,
{
    assert forall|k: Seq<T>| #[trigger] b.table().contains_key(k) implies b.table()[k].len() > 0 by {
        lemma_group_of_present(b.inner.items(), b.inner.item_keys(), k);
    }
}

/// Groups the elements of `buf` by the key that `key` gives each.
pub fn bucket<T: Copy + PartialEq, F: Fn(&Vec<T>) -> Vec<T>>(buf: Vec<Vec<T>>, key: F) -> (r: Bucket<
    T,
>)
    requires
        forall|x: &Vec<T>| #[trigger] key.requires((x,)),
        obeys_concrete_eq::<T>(),
    ensures
        r.wf(),
        r.items() == views(buf@),
        r.key_results().len() == buf@.len(),
        forall|i: int|
            0 <= i < buf@.len() ==> #[trigger] key.ensures((&buf@[i],), r.key_results()[i]),
        r.table() == Map::new(
            |k: Seq<T>| views(r.key_results()).contains(k),
            |k: Seq<T>| group_of(views(buf@), views(r.key_results()), k),
        ),
{
    Bucket::new(buf, key)
}

} // verus!
