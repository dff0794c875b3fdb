use vstd::prelude::*;

verus! {

/// The capacity that a buffer of `cap` slots grows to: one slot from empty,
/// twice as many slots otherwise.
pub open spec fn grown_capacity(cap: nat) -> nat {
    if cap == 0 {
        1
    } else {
        2 * cap
    }
}

/// Whether a buffer of `cap` slots of `T` may grow: the grown block must not
/// exceed `isize::MAX` bytes.
pub open spec fn can_grow<T>(cap: nat) -> bool {
    grown_capacity(cap) * vstd::layout::size_of::<T>() <= isize::MAX as nat
}

/// Storage for a growable sequence: a block of `capacity` slots, each either
/// holding a value or vacant. It knows nothing of how many slots are in use.
pub struct RawVec<T> {
    slots: std::vec::Vec<Option<T>>,
}

impl<T> RawVec<T> {
    /// The slots of the block, vacant ones as `None`.
    pub closed spec fn slots(&self) -> Seq<Option<T>> {
        self.slots@
    }

    /// Number of slots in the block.
    pub open spec fn cap(&self) -> nat {
        self.slots().len()
    }

    /// The number of slots fits in a `usize`.
    pub proof fn lemma_cap_fits(&self)
        ensures
            self.cap() <= usize::MAX,
    {
        broadcast use vstd::std_specs::vec::axiom_spec_len;

        assert(self.slots.len() as int == self.slots@.len());
    }

    /// A buffer with no slots.
    pub fn new() -> (r: Self)
        ensures
            r.cap() == 0,
    {
        RawVec { slots: std::vec::Vec::new() }
    }

    /// Number of slots in the block.
    pub fn capacity(&self) -> (r: usize)
        ensures
            r == self.cap(),
    {
        self.slots.len()
    }

    /// Moves the value out of slot `i`, leaving the slot vacant.
    pub fn read(&mut self, i: usize) -> (r: T)
        requires
            i < old(self).cap(),
            old(self).slots()[i as int] is Some,
        ensures
            r == old(self).slots()[i as int]->Some_0,
            final(self).slots() == old(self).slots().update(i as int, None),
    {
        match self.slots[i].take() {
            Some(v) => v,
            None => vstd::pervasive::unreached(),
        }
    }

    /// Moves `v` into the vacant slot `i`.
    pub fn write(&mut self, i: usize, v: T)
        requires
            i < old(self).cap(),
            old(self).slots()[i as int] is None,
        ensures
            final(self).slots() == old(self).slots().update(i as int, Some(v)),
    {
        self.slots[i] = Some(v);
    }

    /// The value in the occupied slot `i`.
    pub fn slot(&self, i: usize) -> (r: &T)
        requires
            i < self.cap(),
            self.slots()[i as int] is Some,
        ensures
            *r == self.slots()[i as int]->Some_0,
    {
        match &self.slots[i] {
            Some(v) => v,
            None => vstd::pervasive::unreached(),
        }
    }

    /// A mutable reference to the value in the occupied slot `i`; whatever is
    /// written through it ends up in that slot.
    pub fn slot_mut(&mut self, i: usize) -> (r: &mut T)
        requires
            i < old(self).cap(),
            old(self).slots()[i as int] is Some,
        ensures
            *r == old(self).slots()[i as int]->Some_0,
            final(self).slots() == old(self).slots().update(i as int, Some(*final(r))),
    {
        match &mut self.slots[i] {
            Some(v) => v,
            None => vstd::pervasive::unreached(),
        }
    }

    /// Grows the block to `grown_capacity` slots; every slot keeps its
    /// content at its offset, and the new slots are vacant.
    pub fn grow(&mut self)
        requires
            can_grow::<T>(old(self).cap()),
            vstd::layout::size_of::<T>() > 0,
        ensures
            final(self).cap() == grown_capacity(old(self).cap()),
            final(self).cap() <= usize::MAX,
            forall|i: int|
                0 <= i < old(self).cap() ==> #[trigger] final(self).slots()[i] == old(self).slots()[i],
            forall|i: int|
                old(self).cap() <= i < final(self).cap() ==> #[trigger] final(self).slots()[i]
                    is None,
    {
        let cap = self.slots.len();
        assert(grown_capacity(cap as nat) <= grown_capacity(cap as nat)
            * vstd::layout::size_of::<T>()) by (nonlinear_arith)
            requires
                vstd::layout::size_of::<T>() > 0,
        ;
        let new_cap: usize = if cap == 0 {
            1
        } else {
            2 * cap
        };
        self.slots.reserve(new_cap - cap);
        while self.slots.len() < new_cap
            invariant
                cap <= self.slots@.len() <= new_cap,
                new_cap == grown_capacity(cap as nat),
                self.slots@.subrange(0, cap as int) == old(self).slots(),
                forall|i: int| cap <= i < self.slots@.len() ==> #[trigger] self.slots@[i] is None,
            decreases new_cap - self.slots@.len(),
        {
            self.slots.push(None);
            assert(self.slots@.subrange(0, cap as int) =~= old(self).slots());
        }
        assert forall|i: int| 0 <= i < cap implies self.slots@[i] == old(self).slots()[i] by {
            assert(self.slots@.subrange(0, cap as int)[i] == self.slots@[i]);
        }
    }
}

} // verus!
