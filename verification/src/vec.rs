use crate::metadata::{DynMetadata, DynRef};
use crate::zst_box::{synthetic_addr, zst_meta, DynZSTBox};
use vstd::prelude::*;
use vstd::std_specs::iter::IteratorSpec;

verus! {

/// The metadata held by each handle of `s`, in order.
pub open spec fn metas<TDyn: ?Sized>(s: Seq<DynZSTBox<TDyn>>) -> Seq<DynMetadata> {
    s.map_values(|b: DynZSTBox<TDyn>| b.meta())
}

/// Whether `r` is the reference that a handle holding `m` rebuilds: it
/// carries `m`, the metadata of a zero-sized type, at the synthetic address.
pub open spec fn rebuilt_from<'a, TDyn: ?Sized>(r: DynRef<'a, TDyn>, m: DynMetadata) -> bool {
    &&& r.meta() == m
    &&& r.address() == synthetic_addr(m)
    &&& zst_meta(m)
}

/// The view after pushing the elements of `items` one by one, in order,
/// onto a collection whose view is `s`.
pub open spec fn push_all(s: Seq<DynMetadata>, items: Seq<DynMetadata>) -> Seq<DynMetadata>
    decreases items.len(),
{
    if items.len() == 0 {
        s
    } else {
        push_all(s, items.drop_last()).push(items.last())
    }
}

/// After `n` pushes, a read at the old length plus `i` gives back the `i`-th
/// pushed element, and reads below the old length give back what they gave
/// before.
pub proof fn lemma_pushes_then_get(s: Seq<DynMetadata>, items: Seq<DynMetadata>)
    ensures
        push_all(s, items) == s + items,
        push_all(s, items).len() == s.len() + items.len(),
        forall|i: int| 0 <= i < items.len() ==> #[trigger] push_all(s, items)[s.len() + i] == items[i],
        forall|i: int| 0 <= i < s.len() ==> #[trigger] push_all(s, items)[i] == s[i],
    decreases items.len(),
{
    if items.len() > 0 {
        lemma_pushes_then_get(s, items.drop_last());
        assert(s + items =~= (s + items.drop_last()).push(items.last()));
    } else {
        assert(s + items =~= s);
    }
}

/// An insert at the end is a push.
pub proof fn lemma_insert_at_end_is_push(s: Seq<DynMetadata>, m: DynMetadata)
    ensures
        s.insert(s.len() as int, m) == s.push(m),
{
    assert(s.insert(s.len() as int, m) =~= s.push(m));
}

/// Two references rebuilt from the same metadata agree: reading an element
/// by `index` or by `get`, or rebuilding twice from one handle or from its
/// copy, gives the same address and metadata.
pub proof fn lemma_rebuilt_unique<'a, 'b, TDyn: ?Sized>(
    r1: DynRef<'a, TDyn>,
    r2: DynRef<'b, TDyn>,
    m: DynMetadata,
)
    requires
        rebuilt_from(r1, m),
        rebuilt_from(r2, m),
    ensures
        r1.meta() == r2.meta(),
        r1.address() == r2.address(),
{
}

/// What a shared iterator whose remaining elements are `s` yields when its
/// methods are called in the order `calls` (`false` for `next`, `true` for
/// `next_back`), up to the first `None`.
pub open spec fn iter_run(s: Seq<DynMetadata>, calls: Seq<bool>) -> Seq<DynMetadata>
    decreases calls.len(),
{
    if calls.len() == 0 || s.len() == 0 {
        Seq::empty()
    } else if calls[0] {
        seq![s.last()] + iter_run(s.drop_last(), calls.drop_first())
    } else {
        seq![s[0]] + iter_run(s.drop_first(), calls.drop_first())
    }
}

/// A run of a shared iterator yields one element per call until its
/// remaining elements are used up, so its `len` is the number of `Some`
/// results still to come; calls of `next` alone yield the elements in
/// order, and as many calls as there are elements yield all of them.
pub proof fn lemma_iter_run(s: Seq<DynMetadata>, calls: Seq<bool>)
    ensures
        iter_run(s, calls).len() == if calls.len() < s.len() { calls.len() } else { s.len() },
        (forall|i: int| 0 <= i < calls.len() ==> !#[trigger] calls[i]) ==> iter_run(s, calls)
            == s.take(if calls.len() < s.len() { calls.len() as int } else { s.len() as int }),
    decreases calls.len(),
{
    if calls.len() == 0 || s.len() == 0 {
        assert(s.take(0) =~= Seq::<DynMetadata>::empty());
    } else {
        lemma_iter_run(s.drop_last(), calls.drop_first());
        lemma_iter_run(s.drop_first(), calls.drop_first());
        if forall|i: int| 0 <= i < calls.len() ==> !#[trigger] calls[i] {
            assert(!calls[0]);
            assert forall|i: int| 0 <= i < calls.drop_first().len() implies !#[trigger] calls.drop_first()[i] by {
                assert(calls.drop_first()[i] == calls[i + 1]);
            }
            let k: int = if calls.len() < s.len() { calls.len() as int } else { s.len() as int };
            assert(seq![s[0]] + s.drop_first().take(k - 1) =~= s.take(k));
        }
    }
}

/// The positions that a mutable iterator between `front` and `back` yields
/// when its methods are called in the order `calls` (`false` for `next`,
/// `true` for `next_back`), up to the first `None`, over a vector that holds
/// at least `back` elements.
pub open spec fn positions_run(front: int, back: int, calls: Seq<bool>) -> Seq<int>
    decreases calls.len(),
{
    if calls.len() == 0 || front >= back {
        Seq::empty()
    } else if calls[0] {
        seq![back - 1] + positions_run(front, back - 1, calls.drop_first())
    } else {
        seq![front] + positions_run(front + 1, back, calls.drop_first())
    }
}

/// A run of a mutable iterator yields each position between `front` and
/// `back` at most once, one per call until none is left, so its `len` is the
/// number of `Some` results still to come; as many calls as there are
/// positions yield every one of them; calls of `next` alone yield them in
/// ascending order and calls of `next_back` alone in descending order.
pub proof fn lemma_positions_run(front: int, back: int, calls: Seq<bool>)
    requires
        front <= back,
    ensures
        positions_run(front, back, calls).len() == if calls.len() < back - front {
            calls.len() as int
        } else {
            back - front
        },
        forall|i: int| 0 <= i < positions_run(front, back, calls).len()
            ==> front <= #[trigger] positions_run(front, back, calls)[i] < back,
        positions_run(front, back, calls).no_duplicates(),
        calls.len() >= back - front ==> forall|p: int| front <= p < back
            ==> #[trigger] positions_run(front, back, calls).contains(p),
        (forall|i: int| 0 <= i < calls.len() ==> !#[trigger] calls[i]) ==> forall|i: int|
            0 <= i < positions_run(front, back, calls).len()
                ==> #[trigger] positions_run(front, back, calls)[i] == front + i,
        (forall|i: int| 0 <= i < calls.len() ==> #[trigger] calls[i]) ==> forall|i: int|
            0 <= i < positions_run(front, back, calls).len()
                ==> #[trigger] positions_run(front, back, calls)[i] == back - 1 - i,
    decreases calls.len(),
{
    let run = positions_run(front, back, calls);
    if calls.len() == 0 || front >= back {
    } else {
        let rest = calls.drop_first();
        assert forall|i: int| 0 <= i < rest.len() implies #[trigger] rest[i] == calls[i + 1] by {}
        if calls[0] {
            lemma_positions_run(front, back - 1, rest);
            let tail = positions_run(front, back - 1, rest);
            assert(run == seq![back - 1] + tail);
            assert forall|i: int| 0 <= i < run.len() implies front <= #[trigger] run[i] < back by {
                if i > 0 {
                    assert(run[i] == tail[i - 1]);
                }
            }
            assert forall|i: int, j: int| 0 <= i < run.len() && 0 <= j < run.len() && i != j
                implies run[i] != run[j] by {
                if i > 0 {
                    assert(run[i] == tail[i - 1]);
                }
                if j > 0 {
                    assert(run[j] == tail[j - 1]);
                }
            }
            if calls.len() >= back - front {
                assert forall|p: int| front <= p < back implies #[trigger] run.contains(p) by {
                    if p == back - 1 {
                        assert(run[0] == p);
                    } else {
                        assert(tail.contains(p));
                        let k = choose|k: int| 0 <= k < tail.len() && tail[k] == p;
                        assert(run[k + 1] == p);
                    }
                }
            }
            if forall|i: int| 0 <= i < calls.len() ==> #[trigger] calls[i] {
                assert forall|i: int| 0 <= i < rest.len() implies #[trigger] rest[i] by {
                    assert(calls[i + 1]);
                }
                assert forall|i: int| 0 <= i < run.len() implies #[trigger] run[i] == back - 1 - i by {
                    if i > 0 {
                        assert(run[i] == tail[i - 1]);
                    }
                }
            }
            if forall|i: int| 0 <= i < calls.len() ==> !#[trigger] calls[i] {
                assert(!calls[0]);
            }
        } else {
            lemma_positions_run(front + 1, back, rest);
            let tail = positions_run(front + 1, back, rest);
            assert(run == seq![front] + tail);
            assert forall|i: int| 0 <= i < run.len() implies front <= #[trigger] run[i] < back by {
                if i > 0 {
                    assert(run[i] == tail[i - 1]);
                }
            }
            assert forall|i: int, j: int| 0 <= i < run.len() && 0 <= j < run.len() && i != j
                implies run[i] != run[j] by {
                if i > 0 {
                    assert(run[i] == tail[i - 1]);
                }
                if j > 0 {
                    assert(run[j] == tail[j - 1]);
                }
            }
            if calls.len() >= back - front {
                assert forall|p: int| front <= p < back implies #[trigger] run.contains(p) by {
                    if p == front {
                        assert(run[0] == p);
                    } else {
                        assert(tail.contains(p));
                        let k = choose|k: int| 0 <= k < tail.len() && tail[k] == p;
                        assert(run[k + 1] == p);
                    }
                }
            }
            if forall|i: int| 0 <= i < calls.len() ==> !#[trigger] calls[i] {
                assert forall|i: int| 0 <= i < rest.len() implies !#[trigger] rest[i] by {
                    assert(!calls[i + 1]);
                }
                assert forall|i: int| 0 <= i < run.len() implies #[trigger] run[i] == front + i by {
                    if i > 0 {
                        assert(run[i] == tail[i - 1]);
                    }
                }
            }
            if forall|i: int| 0 <= i < calls.len() ==> #[trigger] calls[i] {
                assert(calls[0]);
            }
        }
    }
}

/// After an insert at `index`, a read at `index` gives back the inserted
/// element, reads below it are unchanged, and the elements from `index` on
/// move up by one.
pub proof fn lemma_insert_then_get(s: Seq<DynMetadata>, index: int, m: DynMetadata)
    requires
        0 <= index <= s.len(),
    ensures
        s.insert(index, m).len() == s.len() + 1,
        s.insert(index, m)[index] == m,
        forall|i: int| 0 <= i < index ==> #[trigger] s.insert(index, m)[i] == s[i],
        forall|i: int| index <= i < s.len() ==> #[trigger] s.insert(index, m)[i + 1] == s[i],
{
}

/// After an append, the elements that were in the collection come first, in
/// order, followed by those of the other collection, in order.
pub proof fn lemma_append_then_get(a: Seq<DynMetadata>, b: Seq<DynMetadata>)
    ensures
        (a + b).len() == a.len() + b.len(),
        forall|i: int| 0 <= i < a.len() ==> #[trigger] (a + b)[i] == a[i],
        forall|j: int| 0 <= j < b.len() ==> #[trigger] (a + b)[a.len() + j] == b[j],
{
}

/// A replace through an accessor changes the element at its position only.
pub proof fn lemma_replace_then_get<TDyn: ?Sized>(
    s: Seq<DynZSTBox<TDyn>>,
    index: int,
    item: DynZSTBox<TDyn>,
)
    requires
        0 <= index < s.len(),
    ensures
        metas(s.update(index, item)) == metas(s).update(index, item.meta()),
        metas(s.update(index, item))[index] == item.meta(),
        forall|i: int| 0 <= i < s.len() && i != index ==> #[trigger] metas(s.update(index, item))[i] == metas(s)[i],
{
    assert(metas(s.update(index, item)) =~= metas(s).update(index, item.meta()));
}

/// Vector-like storage for dynamic zero-sized trait objects.
///
/// Each element is a [`DynZSTBox`], that is only the metadata needed to
/// rebuild a shared reference to `TDyn`; no element storage is allocated.
/// The order of insertion is kept, and so is which zero-sized implementor
/// each element stands for.
pub struct DynZSTVec<TDyn: ?Sized + 'static> {
    inner: Vec<DynZSTBox<TDyn>>,
}

impl<TDyn: ?Sized + 'static> View for DynZSTVec<TDyn> {
    type V = Seq<DynMetadata>;

    open spec fn view(&self) -> Seq<DynMetadata> {
        metas(self.handles())
    }
}

impl<TDyn: ?Sized + 'static> DynZSTVec<TDyn> {
    /// The stored handles, in order.
    pub closed spec fn handles(self) -> Seq<DynZSTBox<TDyn>> {
        self.inner@
    }

    /// An empty collection.
    pub fn new() -> (r: Self)
        ensures
            r@ == Seq::<DynMetadata>::empty(),
            r.handles() == Seq::<DynZSTBox<TDyn>>::empty(),
    {
        DynZSTVec { inner: Vec::new() }
    }

    /// An empty collection with room for at least `cap` elements.
    pub fn with_capacity(cap: usize) -> (r: Self)
        ensures
            r@ == Seq::<DynMetadata>::empty(),
            r.handles() == Seq::<DynZSTBox<TDyn>>::empty(),
    {
        DynZSTVec { inner: Vec::with_capacity(cap) }
    }

    /// Appends `item` at the end.
    pub fn push(&mut self, item: DynZSTBox<TDyn>)
        ensures
            final(self).handles() == old(self).handles().push(item),
            final(self)@ == old(self)@.push(item.meta()),
    {
        self.inner.push(item);
        proof {
            assert(metas(self.inner@) =~= metas(old(self).inner@).push(item.meta()));
        }
    }

    /// Moves every element of `other` to the end of `self`, leaving `other`
    /// empty.
    pub fn append(&mut self, other: &mut Self)
        ensures
            final(self).handles() == old(self).handles() + old(other).handles(),
            final(self)@ == old(self)@ + old(other)@,
            final(other)@ == Seq::<DynMetadata>::empty(),
    {
        self.inner.append(&mut other.inner);
        proof {
            assert(metas(self.inner@) =~= metas(old(self).inner@) + metas(old(other).inner@));
            assert(metas(other.inner@) =~= Seq::<DynMetadata>::empty());
        }
    }

    /// Inserts `item` at `index`, shifting the later elements up by one, and
    /// returns the reference that the inserted element stands for.
    pub fn insert(&mut self, index: usize, item: DynZSTBox<TDyn>) -> (r: DynRef<'static, TDyn>)
        requires
            index <= old(self)@.len(),
        ensures
            final(self).handles() == old(self).handles().insert(index as int, item),
            final(self)@ == old(self)@.insert(index as int, item.meta()),
            rebuilt_from(r, item.meta()),
    {
        self.inner.insert(index, item);
        proof {
            assert(metas(self.inner@) =~= metas(old(self).inner@).insert(
                index as int,
                item.meta(),
            ));
        }
        self.get(index).unwrap()
    }

    /// The reference that the element at `index` stands for, or `None` where
    /// `index` is out of bounds.
    pub fn get(&self, index: usize) -> (r: Option<DynRef<'static, TDyn>>)
        ensures
            r.is_some() <==> index < self@.len(),
            r matches Some(x) ==> rebuilt_from(x, self@[index as int]),
    {
        if index < self.inner.len() {
            Some(self.inner[index].deref())
        } else {
            None
        }
    }

    /// The reference that the element at `index` stands for.
    pub fn index(&self, index: usize) -> (r: DynRef<'static, TDyn>)
        requires
            index < self@.len(),
        ensures
            rebuilt_from(r, self@[index as int]),
    {
        self.get(index).unwrap()
    }

    /// The number of elements.
    pub fn len(&self) -> (r: usize)
        ensures
            r == self@.len(),
    {
        self.inner.len()
    }

    /// Whether there is no element.
    pub fn is_empty(&self) -> (r: bool)
        ensures
            r <==> self@.len() == 0,
    {
        self.inner.is_empty()
    }

    /// Removes every element.
    pub fn clear(&mut self)
        ensures
            final(self)@ == Seq::<DynMetadata>::empty(),
            final(self).handles() == Seq::<DynZSTBox<TDyn>>::empty(),
    {
        self.inner.clear();
        proof {
            assert(metas(self.inner@) =~= Seq::<DynMetadata>::empty());
        }
    }
    /// An iterator over the references that the elements stand for, front
    /// to back.
    pub fn iter(&self) -> (r: Iter<'_, TDyn>)
        ensures
            r.rest() == self@,
    {
        Iter { inner: &self.inner, front: 0, back: self.inner.len() }
    }

    /// An iterator over the positions of `self`, each of which can be read
    /// or replaced.
    pub fn iter_mut(&mut self) -> (r: IterMut<'_, TDyn>)
        ensures
            r.slots()@ == old(self).handles(),
            final(self).handles() == final(r.slots())@,
            r.front() == 0,
            r.back() == old(self)@.len(),
    {
        let len = self.inner.len();
        IterMut { vec: &mut self.inner, next: 0, end: len }
    }

    /// Appends each element of `items`, in order.
    pub fn extend(&mut self, items: Vec<DynZSTBox<TDyn>>)
        ensures
            final(self).handles() == old(self).handles() + items@,
            final(self)@ == old(self)@ + metas(items@),
    {
        let mut i: usize = 0;
        while i < items.len()
            invariant
                i <= items@.len(),
                self.handles() == old(self).handles() + items@.subrange(0, i as int),
            decreases items@.len() - i,
        {
            self.push(items[i]);
            proof {
                assert(items@.subrange(0, i + 1) =~= items@.subrange(0, i as int).push(items@[i as int]));
            }
            i = i + 1;
        }
        proof {
            assert(items@.subrange(0, items@.len() as int) =~= items@);
            assert(metas(self.handles()) =~= metas(old(self).handles()) + metas(items@));
        }
    }

    /// A collection holding the one handle `b`.
    pub fn from_box(b: DynZSTBox<TDyn>) -> (r: Self)
        ensures
            r.handles() == seq![b],
            r@ == seq![b.meta()],
    {
        let mut r = Self::new();
        r.push(b);
        proof {
            assert(r.handles() =~= seq![b]);
            assert(r@ =~= seq![b.meta()]);
        }
        r
    }

    /// A collection holding the handles of `v`, in order.
    pub fn from_vec(v: Vec<DynZSTBox<TDyn>>) -> (r: Self)
        ensures
            r.handles() == v@,
            r@ == metas(v@),
    {
        DynZSTVec { inner: v }
    }

    /// A collection holding copies of the handles of `slice`, in order.
    pub fn from_slice(slice: &[DynZSTBox<TDyn>]) -> (r: Self)
        ensures
            r.handles() == slice@,
            r@ == metas(slice@),
    {
        let mut r = Self::with_capacity(slice.len());
        let mut i: usize = 0;
        while i < slice.len()
            invariant
                i <= slice@.len(),
                r.handles() == slice@.subrange(0, i as int),
            decreases slice@.len() - i,
        {
            r.push(slice[i]);
            proof {
                assert(slice@.subrange(0, i + 1) =~= slice@.subrange(0, i as int).push(slice@[i as int]));
            }
            i = i + 1;
        }
        proof {
            assert(slice@.subrange(0, slice@.len() as int) =~= slice@);
        }
        r
    }

    /// A collection holding a handle for each dynamic reference of `arr`, in
    /// order. Each erased value must be zero-sized.
    pub fn from_refs<const N: usize>(arr: [DynRef<'static, TDyn>; N]) -> (r: Self)
        requires
            forall|i: int| 0 <= i < N ==> (#[trigger] arr@[i]).meta().size() == 0,
        ensures
            r@ == arr@.map_values(|x: DynRef<'static, TDyn>| x.meta()),
    {
        let mut result = Self::with_capacity(N);
        let mut i: usize = 0;
        while i < N
            invariant
                i <= N,
                arr@.len() == N,
                forall|j: int| 0 <= j < N ==> (#[trigger] arr@[j]).meta().size() == 0,
                result@ == arr@.subrange(0, i as int).map_values(|x: DynRef<'static, TDyn>| x.meta()),
            decreases N - i,
        {
            let item = arr[i];
            result.push(DynZSTBox::with_dyn(item));
            proof {
                assert(arr@.subrange(0, i + 1).map_values(|x: DynRef<'static, TDyn>| x.meta())
                    =~= arr@.subrange(0, i as int).map_values(|x: DynRef<'static, TDyn>| x.meta()).push(item.meta()));
            }
            i = i + 1;
        }
        proof {
            assert(arr@.subrange(0, N as int) =~= arr@);
        }
        result
    }

    /// An iterator over the stored handles, front to back, giving up the
    /// collection.
    pub fn into_iter(self) -> (r: std::vec::IntoIter<DynZSTBox<TDyn>>)
        ensures
            r.remaining() == self.handles(),
    {
        proof {
            broadcast use vstd::std_specs::vec::axiom_spec_into_iter;
        }
        self.inner.into_iter()
    }
}

impl<TDyn: ?Sized + 'static> Clone for DynZSTVec<TDyn> {
    fn clone(&self) -> (r: Self)
        ensures
            r.handles() == self.handles(),
            r@ == self@,
    {
        DynZSTVec::from_slice(self.inner.as_slice())
    }
}

/// Shared iterator over a [`DynZSTVec`], from both ends.
///
/// It yields the references that the elements stand for.
pub struct Iter<'a, TDyn: ?Sized + 'static> {
    inner: &'a Vec<DynZSTBox<TDyn>>,
    front: usize,
    back: usize,
}

impl<'a, TDyn: ?Sized + 'static> Iter<'a, TDyn> {
    #[verifier::type_invariant]
    spec fn inv(self) -> bool {
        self.front <= self.back <= self.inner@.len()
    }

    /// The metadata of the elements not yet yielded, in order.
    pub closed spec fn rest(self) -> Seq<DynMetadata> {
        metas(self.inner@).subrange(self.front as int, self.back as int)
    }

    /// The next element from the front, or `None` where none is left.
    pub fn next(&mut self) -> (r: Option<DynRef<'a, TDyn>>)
        ensures
            old(self).rest().len() == 0 ==> r is None && final(self).rest() == old(self).rest(),
            old(self).rest().len() > 0 ==> (r matches Some(x) && rebuilt_from(x, old(self).rest()[0])
                && final(self).rest() == old(self).rest().drop_first()),
            forall|calls: Seq<bool>| calls.len() > 0 && !calls[0] ==> #[trigger] iter_run(old(self).rest(), calls)
                == if r is Some { seq![r.unwrap().meta()] + iter_run(final(self).rest(), calls.drop_first()) }
                else { Seq::<DynMetadata>::empty() },
    {
        proof {
            use_type_invariant(&*self);
        }
        if self.front < self.back {
            let b = self.inner[self.front];
            self.front = self.front + 1;
            proof {
                assert(self.rest() =~= old(self).rest().drop_first());
            }
            Some(b.deref())
        } else {
            None
        }
    }

    /// The next element from the back, or `None` where none is left.
    pub fn next_back(&mut self) -> (r: Option<DynRef<'a, TDyn>>)
        ensures
            old(self).rest().len() == 0 ==> r is None && final(self).rest() == old(self).rest(),
            old(self).rest().len() > 0 ==> (r matches Some(x) && rebuilt_from(x, old(self).rest().last())
                && final(self).rest() == old(self).rest().drop_last()),
            forall|calls: Seq<bool>| calls.len() > 0 && calls[0] ==> #[trigger] iter_run(old(self).rest(), calls)
                == if r is Some { seq![r.unwrap().meta()] + iter_run(final(self).rest(), calls.drop_first()) }
                else { Seq::<DynMetadata>::empty() },
    {
        proof {
            use_type_invariant(&*self);
        }
        if self.front < self.back {
            self.back = self.back - 1;
            let b = self.inner[self.back];
            proof {
                assert(self.rest() =~= old(self).rest().drop_last());
            }
            Some(b.deref())
        } else {
            None
        }
    }

    /// The number of elements not yet yielded.
    pub fn len(&self) -> (r: usize)
        ensures
            r == self.rest().len(),
    {
        proof {
            use_type_invariant(self);
        }
        self.back - self.front
    }

    /// Bounds on the number of elements not yet yielded; both are exact.
    pub fn size_hint(&self) -> (r: (usize, Option<usize>))
        ensures
            r.0 == self.rest().len(),
            r.1 == Some(self.rest().len() as usize),
    {
        let n = self.len();
        (n, Some(n))
    }
}

/// One position of a [`DynZSTVec`], yielded by [`IterMut`]: the element
/// there can be read, or replaced by another handle.
///
/// No concrete value is stored, so replacing changes which zero-sized
/// implementor the position stands for.
pub struct MutAccessor<'a, TDyn: ?Sized + 'static> {
    vec: &'a mut Vec<DynZSTBox<TDyn>>,
    index: usize,
}

impl<'a, TDyn: ?Sized + 'static> MutAccessor<'a, TDyn> {
    /// The borrowed handles.
    pub closed spec fn slots(self) -> &'a mut Vec<DynZSTBox<TDyn>> {
        self.vec
    }

    /// Once the accessor is no longer used, the borrowed handles hold their
    /// final value.
    pub proof fn lemma_resolved(self)
        requires
            has_resolved(self),
        ensures
            *self.slots() == *final(self.slots()),
    {
    }

    /// The position.
    pub closed spec fn position(self) -> int {
        self.index as int
    }

    /// Puts `item` at this position and returns the handle that was there.
    pub fn replace(self, item: DynZSTBox<TDyn>) -> (r: DynZSTBox<TDyn>)
        requires
            self.position() < old(self.slots())@.len(),
        ensures
            r == old(self.slots())@[self.position()],
            final(self.slots())@ == old(self.slots())@.update(self.position(), item),
    {
        let previous = self.vec[self.index];
        self.vec.set(self.index, item);
        previous
    }

    /// The reference that the element at this position stands for.
    pub fn get(&self) -> (r: DynRef<'static, TDyn>)
        requires
            self.position() < self.slots()@.len(),
        ensures
            rebuilt_from(r, self.slots()@[self.position()].meta()),
    {
        self.vec[self.index].deref()
    }
}

/// Iterator over the positions of a [`DynZSTVec`], from both ends.
///
/// Each [`MutAccessor`] it yields borrows the iterator until it is dropped.
pub struct IterMut<'a, TDyn: ?Sized + 'static> {
    vec: &'a mut Vec<DynZSTBox<TDyn>>,
    next: usize,
    end: usize,
}

impl<'a, TDyn: ?Sized + 'static> IterMut<'a, TDyn> {
    /// The borrowed handles.
    pub closed spec fn slots(self) -> &'a mut Vec<DynZSTBox<TDyn>> {
        self.vec
    }

    /// Once the iterator is no longer used, the borrowed handles hold their
    /// final value.
    pub proof fn lemma_resolved(self)
        requires
            has_resolved(self),
        ensures
            *self.slots() == *final(self.slots()),
    {
    }

    /// The first position not yet yielded from the front.
    pub closed spec fn front(self) -> int {
        self.next as int
    }

    /// One past the last position not yet yielded from the back.
    pub closed spec fn back(self) -> int {
        self.end as int
    }

    /// The next position from the front, or `None` where none is left.
    pub fn next(&mut self) -> (r: Option<MutAccessor<'_, TDyn>>)
        ensures
            *final(final(self).slots()) == *final(old(self).slots()),
            final(self).back() == old(self).back(),
            old(self).front() < old(self).back() && old(self).front() < old(old(self).slots())@.len()
                ==> (r matches Some(a) && a.position() == old(self).front()
                    && a.slots()@ == old(old(self).slots())@
                    && final(a.slots())@ == final(self).slots()@
                    && final(self).front() == old(self).front() + 1),
            !(old(self).front() < old(self).back() && old(self).front() < old(old(self).slots())@.len())
                ==> r is None && *final(self) == *old(self),
            old(self).back() <= old(old(self).slots())@.len() ==> forall|calls: Seq<bool>|
                calls.len() > 0 && !calls[0] ==> #[trigger] positions_run(old(self).front(), old(self).back(), calls)
                == if r is Some {
                    seq![r.unwrap().position()] + positions_run(final(self).front(), final(self).back(), calls.drop_first())
                } else {
                    Seq::<int>::empty()
                },
    {
        if self.next >= self.end || self.next >= self.vec.len() {
            None
        } else {
            let idx = self.next;
            self.next = self.next + 1;
            Some(MutAccessor { vec: &mut *self.vec, index: idx })
        }
    }

    /// The next position from the back, or `None` where none is left.
    pub fn next_back(&mut self) -> (r: Option<MutAccessor<'_, TDyn>>)
        ensures
            *final(final(self).slots()) == *final(old(self).slots()),
            final(self).front() == old(self).front(),
            old(self).front() < old(self).back() && old(self).back() <= old(old(self).slots())@.len()
                ==> (r matches Some(a) && a.position() == old(self).back() - 1
                    && a.slots()@ == old(old(self).slots())@
                    && final(a.slots())@ == final(self).slots()@
                    && final(self).back() == old(self).back() - 1),
            !(old(self).front() < old(self).back() && old(self).back() <= old(old(self).slots())@.len())
                ==> r is None && *final(self) == *old(self),
            old(self).back() <= old(old(self).slots())@.len() ==> forall|calls: Seq<bool>|
                calls.len() > 0 && calls[0] ==> #[trigger] positions_run(old(self).front(), old(self).back(), calls)
                == if r is Some {
                    seq![r.unwrap().position()] + positions_run(final(self).front(), final(self).back(), calls.drop_first())
                } else {
                    Seq::<int>::empty()
                },
    {
        if self.next >= self.end || self.end > self.vec.len() {
            None
        } else {
            self.end = self.end - 1;
            let idx = self.end;
            Some(MutAccessor { vec: &mut *self.vec, index: idx })
        }
    }

    /// The number of positions not yet yielded.
    pub fn len(&self) -> (r: usize)
        ensures
            r == if self.front() < self.back() { self.back() - self.front() } else { 0 },
    {
        self.end.saturating_sub(self.next)
    }

    /// Bounds on the number of positions not yet yielded; both are exact.
    pub fn size_hint(&self) -> (r: (usize, Option<usize>))
        ensures
            r.0 == if self.front() < self.back() { self.back() - self.front() } else { 0 },
            r.1 == Some(r.0),
    {
        let len = self.end.saturating_sub(self.next);
        (len, Some(len))
    }
}

} // verus!
