use crate::raw_vec::RawVec;
use vstd::prelude::*;

verus! {

/// Consumes a sequence by value from either end. It owns the storage; the
/// slots from `start` up to `end` hold the elements not yet handed out, all
/// other slots are vacant. Whatever is left is dropped with the iterator.
pub struct IntoIter<T> {
    buf: RawVec<T>,
    start: usize,
    end: usize,
}

impl<T> View for IntoIter<T> {
    type V = Seq<T>;

    /// The elements not yet handed out, front to back.
    closed spec fn view(&self) -> Seq<T> {
        Seq::new((self.end - self.start) as nat, |i: int| self.buf.slots()[self.start + i]->Some_0)
    }
}

impl<T> IntoIter<T> {
    /// Well-formedness: the two cursors delimit the occupied slots.
    pub closed spec fn wf(&self) -> bool {
        &&& self.start <= self.end <= self.buf.cap()
        &&& forall|i: int| self.start <= i < self.end ==> #[trigger] self.buf.slots()[i] is Some
        &&& forall|i: int|
            0 <= i < self.buf.cap() && !(self.start <= i < self.end) ==> #[trigger] self.buf.slots()[i]
                is None
    }

    /// Number of slots of the storage, fixed for the iterator's lifetime.
    pub closed spec fn cap(&self) -> nat {
        self.buf.cap()
    }

    /// Takes over `buf`, whose first `len` slots are occupied and the rest
    /// vacant.
    pub(crate) fn new(buf: RawVec<T>, len: usize) -> (r: Self)
        requires
            len <= buf.cap(),
            forall|i: int| 0 <= i < len ==> #[trigger] buf.slots()[i] is Some,
            forall|i: int| len <= i < buf.cap() ==> #[trigger] buf.slots()[i] is None,
        ensures
            r.wf(),
            r.cap() == buf.cap(),
            r@ == Seq::new(len as nat, |i: int| buf.slots()[i]->Some_0),
    {
        let r = IntoIter { buf, start: 0, end: len };
        assert(r@ =~= Seq::new(len as nat, |i: int| buf.slots()[i]->Some_0));
        r
    }

    /// Hands out the front element, or `None` when nothing is left.
    pub fn next(&mut self) -> (r: Option<T>)
        requires
            old(self).wf(),
        ensures
            final(self).wf(),
            final(self).cap() == old(self).cap(),
            old(self)@.len() == 0 ==> r is None && final(self)@ == old(self)@,
            old(self)@.len() > 0 ==> r == Some(old(self)@[0]) && final(self)@ == old(self)@.subrange(
                1,
                old(self)@.len() as int,
            ),
    {
        if self.start == self.end {
            None
        } else {
            let v = self.buf.read(self.start);
            self.start = self.start + 1;
            assert(self@ =~= old(self)@.subrange(1, old(self)@.len() as int));
            Some(v)
        }
    }

    /// Hands out the back element, or `None` when nothing is left.
    pub fn next_back(&mut self) -> (r: Option<T>)
        requires
            old(self).wf(),
        ensures
            final(self).wf(),
            final(self).cap() == old(self).cap(),
            old(self)@.len() == 0 ==> r is None && final(self)@ == old(self)@,
            old(self)@.len() > 0 ==> r == Some(old(self)@.last()) && final(self)@
                == old(self)@.drop_last(),
    {
        if self.start == self.end {
            None
        } else {
            self.end = self.end - 1;
            let v = self.buf.read(self.end);
            assert(self@ =~= old(self)@.drop_last());
            Some(v)
        }
    }

    /// The exact number of elements left, as lower and upper bound.
    pub fn size_hint(&self) -> (r: (usize, Option<usize>))
        requires
            self.wf(),
        ensures
            r == (self@.len() as usize, Some(self@.len() as usize)),
    {
        let n = self.end - self.start;
        (n, Some(n))
    }
}

} // verus!
