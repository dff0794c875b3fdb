pub mod into_iter;
pub mod laws;
pub mod raw_vec;

pub use into_iter::IntoIter;
pub use raw_vec::RawVec;

use raw_vec::{can_grow, grown_capacity};
use vstd::prelude::*;

verus! {

/// The capacity after adding one element to a sequence of `len` elements held
/// in `cap` slots: the block grows only when it is full.
pub open spec fn capacity_after_add(len: nat, cap: nat) -> nat {
    if len == cap {
        grown_capacity(cap)
    } else {
        cap
    }
}

/// A growable sequence stored contiguously in a `RawVec`: slots below `len`
/// hold the elements, the slots from `len` up to the capacity are vacant.
pub struct Vec<T> {
    buf: RawVec<T>,
    len: usize,
}

impl<T> View for Vec<T> {
    type V = Seq<T>;

    closed spec fn view(&self) -> Seq<T> {
        Seq::new(self.len as nat, |i: int| self.buf.slots()[i]->Some_0)
    }
}

impl<T> Vec<T> {
    /// Well-formedness: the first `len` slots are occupied, the rest vacant,
    /// and elements take up room in memory.
    pub closed spec fn wf(&self) -> bool {
        &&& vstd::layout::size_of::<T>() > 0
        &&& self.len <= self.buf.cap()
        &&& forall|i: int| 0 <= i < self.len ==> #[trigger] self.buf.slots()[i] is Some
        &&& forall|i: int| self.len <= i < self.buf.cap() ==> #[trigger] self.buf.slots()[i] is None
    }

    /// Number of slots of the underlying storage.
    pub closed spec fn cap(&self) -> nat {
        self.buf.cap()
    }

    /// Whether one more element can be added without the storage exceeding
    /// the size limit of an allocation.
    pub open spec fn can_add(&self) -> bool {
        self@.len() < self.cap() || can_grow::<T>(self.cap())
    }

    proof fn lemma_wf_len(&self)
        requires
            self.wf(),
        ensures
            self@.len() == self.len,
            self@.len() <= self.cap(),
    {
    }

    /// An empty sequence with no storage. Elements of size zero are not
    /// supported.
    pub fn new() -> (r: Self)
        requires
            vstd::layout::size_of::<T>() > 0,
        ensures
            r.wf(),
            r@ == Seq::<T>::empty(),
            r.cap() == 0,
    {
        let r = Vec { buf: RawVec::new(), len: 0 };
        assert(r@ =~= Seq::<T>::empty());
        r
    }

    /// Number of elements.
    pub fn len(&self) -> (r: usize)
        requires
            self.wf(),
        ensures
            r == self@.len(),
    {
        self.len
    }

    /// Whether there are no elements.
    pub fn is_empty(&self) -> (r: bool)
        requires
            self.wf(),
        ensures
            r == (self@.len() == 0),
    {
        self.len == 0
    }

    /// Inserts `elem` at `index`, moving the elements from `index` on one
    /// place toward the end; `index == len` appends. The storage grows when
    /// it is full.
    pub fn insert(&mut self, index: usize, elem: T)
        requires
            old(self).wf(),
            old(self).can_add(),
            index <= old(self)@.len(),
        ensures
            final(self).wf(),
            final(self)@ == old(self)@.insert(index as int, elem),
            final(self).cap() == capacity_after_add(old(self)@.len(), old(self).cap()),
    {
        proof {
            self.lemma_wf_len();
        }
        if self.len == self.buf.capacity() {
            self.buf.grow();
        }
        proof {
            self.buf.lemma_cap_fits();
        }
        let ghost pre = self.buf.slots();
        let mut j: usize = self.len;
        while j > index
            invariant
                index <= j <= self.len < self.buf.cap(),
                self.buf.cap() == pre.len(),
                self.len == old(self).len,
                self.buf.slots()[j as int] is None,
                forall|k: int| 0 <= k < self.len ==> #[trigger] pre[k] is Some,
                forall|k: int| self.len <= k < pre.len() ==> #[trigger] pre[k] is None,
                forall|k: int| 0 <= k < j ==> #[trigger] self.buf.slots()[k] == pre[k],
                forall|k: int| j < k <= self.len ==> #[trigger] self.buf.slots()[k] == pre[k - 1],
                forall|k: int| self.len < k < pre.len() ==> #[trigger] self.buf.slots()[k] == pre[k],
            decreases j,
        {
            let v = self.buf.read(j - 1);
            self.buf.write(j, v);
            j = j - 1;
        }
        assert(forall|k: int| 0 <= k < old(self).len ==> pre[k] == old(self).buf.slots()[k]);
        self.buf.write(index, elem);
        self.len = self.len + 1;
        assert forall|k: int| 0 <= k < self.len implies #[trigger] self@[k] == old(self)@.insert(
            index as int,
            elem,
        )[k] by {
            if k > index {
                assert(self.buf.slots()[k] == pre[k - 1]);
            }
        }
        assert(self@ =~= old(self)@.insert(index as int, elem));
    }

    /// Removes and returns the element at `index`, moving the elements after
    /// it one place toward the start. The capacity is kept.
    pub fn remove(&mut self, index: usize) -> (r: T)
        requires
            old(self).wf(),
            index < old(self)@.len(),
        ensures
            final(self).wf(),
            r == old(self)@[index as int],
            final(self)@ == old(self)@.remove(index as int),
            final(self).cap() == old(self).cap(),
    {
        proof {
            self.lemma_wf_len();
        }
        let ghost pre = self.buf.slots();
        let r = self.buf.read(index);
        let mut j: usize = index;
        while j + 1 < self.len
            invariant
                index <= j < self.len <= self.buf.cap(),
                self.buf.cap() == pre.len(),
                self.len == old(self).len,
                self.buf.slots()[j as int] is None,
                forall|k: int| 0 <= k < self.len && k != index ==> #[trigger] pre[k] is Some,
                forall|k: int| self.len <= k < pre.len() ==> #[trigger] pre[k] is None,
                forall|k: int| 0 <= k < index ==> #[trigger] self.buf.slots()[k] == pre[k],
                forall|k: int| index <= k < j ==> #[trigger] self.buf.slots()[k] == pre[k + 1],
                forall|k: int| j < k < pre.len() ==> #[trigger] self.buf.slots()[k] == pre[k],
            decreases self.len - j,
        {
            let v = self.buf.read(j + 1);
            self.buf.write(j, v);
            j = j + 1;
        }
        assert(forall|k: int| 0 <= k < old(self).len ==> pre[k] == old(self).buf.slots()[k]);
        self.len = self.len - 1;
        assert forall|k: int| 0 <= k < self.len implies #[trigger] self@[k] == old(self)@.remove(
            index as int,
        )[k] by {
            if k >= index {
                assert(self.buf.slots()[k] == pre[k + 1]);
            }
        }
        assert(self@ =~= old(self)@.remove(index as int));
        r
    }

    /// Appends `elem`; the storage grows when it is full.
    pub fn push(&mut self, elem: T)
        requires
            old(self).wf(),
            old(self).can_add(),
        ensures
            final(self).wf(),
            final(self)@ == old(self)@.push(elem),
            final(self).cap() == capacity_after_add(old(self)@.len(), old(self).cap()),
    {
        proof {
            self.lemma_wf_len();
        }
        if self.len == self.buf.capacity() {
            self.buf.grow();
        }
        proof {
            self.buf.lemma_cap_fits();
        }
        self.buf.write(self.len, elem);
        self.len = self.len + 1;
        assert(self@ =~= old(self)@.push(elem));
    }

    /// Removes and returns the last element, or `None` when empty. The
    /// capacity is kept.
    pub fn pop(&mut self) -> (r: Option<T>)
        requires
            old(self).wf(),
        ensures
            final(self).wf(),
            final(self).cap() == old(self).cap(),
            old(self)@.len() == 0 ==> r is None && final(self)@ == old(self)@,
            old(self)@.len() > 0 ==> r == Some(old(self)@.last()) && final(self)@
                == old(self)@.drop_last(),
    {
        proof {
            self.lemma_wf_len();
        }
        if self.len == 0 {
            None
        } else {
            self.len = self.len - 1;
            let v = self.buf.read(self.len);
            assert(self@ =~= old(self)@.drop_last());
            Some(v)
        }
    }

    /// The element at `index`.
    pub fn get(&self, index: usize) -> (r: &T)
        requires
            self.wf(),
            index < self@.len(),
        ensures
            *r == self@[index as int],
    {
        self.buf.slot(index)
    }

    /// A mutable reference to the element at `index`; what is written
    /// through it becomes that element.
    pub fn get_mut(&mut self, index: usize) -> (r: &mut T)
        requires
            old(self).wf(),
            index < old(self)@.len(),
        ensures
            *r == old(self)@[index as int],
            final(self).wf(),
            final(self)@ == old(self)@.update(index as int, *final(r)),
            final(self).cap() == old(self).cap(),
    {
        self.buf.slot_mut(index)
    }

    /// Turns the sequence into an iterator that hands out its elements by
    /// value; the storage passes to the iterator untouched.
    pub fn into_iter(self) -> (r: IntoIter<T>)
        requires
            self.wf(),
        ensures
            r.wf(),
            r@ == self@,
            r.cap() == self.cap(),
    {
        let ghost before = self@;
        let r = IntoIter::new(self.buf, self.len);
        assert(r@ =~= before);
        r
    }

    /// Number of slots of the storage, occupied or not.
    pub fn capacity(&self) -> (r: usize)
        requires
            self.wf(),
        ensures
            r == self.cap(),
    {
        self.buf.capacity()
    }
}

} // verus!
