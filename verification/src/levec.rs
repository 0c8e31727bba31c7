//! The container: a block of slots, the number of live elements at its
//! front, and the operations on its end.

use crate::growth::{
    byte_limit, is_block_capacity, lemma_block_capacity_doubles, lemma_initial_block_capacity,
    next_capacity, plan_push, push_plan, PushError,
};
use vstd::layout::{align_of, layout_for_type_is_valid, size_of};
use vstd::prelude::*;

verus! {

/// A growable array of `T`.
///
/// `slots` is the block. Its first `len` slots hold the elements, in the
/// order in which they were pushed; the slots behind them are vacant.
pub struct LeVec<T> {
    slots: Vec<Option<T>>,
    len: usize,
    cap: usize,
}

impl<T> View for LeVec<T> {
    type V = Seq<T>;

    /// The live elements, first pushed first.
    closed spec fn view(&self) -> Seq<T> {
        Seq::new(self.len as nat, |i: int| self.slots@[i]->0)
    }
}

impl<T> LeVec<T> {
    /// The number of slots of the block.
    pub closed spec fn spec_capacity(&self) -> usize {
        self.cap
    }

    /// The number of live elements.
    pub open spec fn spec_len(&self) -> usize {
        self@.len() as usize
    }

    /// Whether the container holds a block.
    pub closed spec fn owns_block(&self) -> bool {
        self.slots@.len() > 0
    }

    /// The invariant of the container. The live elements fill the front of
    /// the block and every slot behind them is vacant; the capacity is the
    /// size of the block, which is absent or of a size that the growth
    /// policy hands out, and which fits the byte limit of the element type.
    pub closed spec fn wf(&self) -> bool {
        &&& self.cap == self.slots@.len()
        &&& self.len <= self.cap
        &&& forall|i: int| 0 <= i < self.len ==> (#[trigger] self.slots@[i]) is Some
        &&& forall|i: int| self.len <= i < self.cap ==> (#[trigger] self.slots@[i]) is None
        &&& self.cap > 0 ==> is_block_capacity(self.cap as nat)
        &&& self.cap > 0 ==> size_of::<T>() > 0
        &&& self.cap * size_of::<T>() <= byte_limit(align_of::<T>())
    }

    /// What the invariant says in terms of the public spec functions.
    pub proof fn lemma_invariant(&self)
        requires
            self.wf(),
        ensures
            self@.len() <= self.spec_capacity(),
            self.spec_capacity() == 0 <==> !self.owns_block(),
            self.spec_capacity() > 0 ==> is_block_capacity(self.spec_capacity() as nat),
            self.spec_capacity() > 0 ==> size_of::<T>() > 0,
            self.spec_capacity() * size_of::<T>() <= byte_limit(align_of::<T>()),
    {
    }

    /// An empty container without a block.
    pub fn new() -> (v: Self)
        ensures
            v.wf(),
            v@ == Seq::<T>::empty(),
            v.spec_capacity() == 0,
            !v.owns_block(),
    {
        let v = LeVec { slots: Vec::new(), len: 0, cap: 0 };
        assert(v@ =~= Seq::<T>::empty());
        v
    }

    /// Whether a push goes through: the element type has a size and the
    /// block that the push needs stays within the byte limit.
    pub open spec fn can_push(&self) -> bool {
        self.plan() is Ok
    }

    /// What [`push_plan`] says of a push into this container.
    pub open spec fn plan(&self) -> Result<nat, PushError> {
        push_plan(self@.len(), self.spec_capacity() as nat, size_of::<T>(), align_of::<T>())
    }

    /// Whether `self` is `before` with `value` appended, in the block that
    /// the growth policy prescribes.
    pub open spec fn is_push_of(&self, before: &Self, value: T) -> bool {
        &&& self@ == before@.push(value)
        &&& self.spec_capacity() == next_capacity(before@.len(), before.spec_capacity() as nat)
    }

    /// Whether `self` is `before` after a pop that handed out `out`: the
    /// last element has left, or nothing has where there was none, and the
    /// capacity is as it was.
    pub open spec fn is_pop_of(&self, before: &Self, out: Option<T>) -> bool {
        &&& self.spec_capacity() == before.spec_capacity()
        &&& if before@.len() == 0 {
            out is None && self@ == before@
        } else {
            out == Some(before@.last()) && self@ == before@.drop_last()
        }
    }

    /// Whether `self` has the elements and the capacity of `before`.
    pub open spec fn is_unchanged_from(&self, before: &Self) -> bool {
        &&& self@ == before@
        &&& self.spec_capacity() == before.spec_capacity()
    }

    /// Computes [`Self::plan`].
    fn planned_capacity(&self) -> (plan: Result<usize, PushError>)
        requires
            self.wf(),
        ensures
            match plan {
                Ok(c) => self.plan() == Ok::<nat, PushError>(c as nat),
                Err(e) => self.plan() == Err::<nat, PushError>(e),
            },
    {
        layout_for_type_is_valid::<T>();
        plan_push(self.len, self.cap, core::mem::size_of::<T>(), core::mem::align_of::<T>())
    }

    /// Extends the block with vacant slots up to `new_cap` slots. The live
    /// elements stay where they are.
    fn grow_to(&mut self, new_cap: usize)
        requires
            old(self).wf(),
            old(self).cap <= new_cap,
            new_cap > old(self).cap ==> is_block_capacity(new_cap as nat),
            size_of::<T>() > 0,
            new_cap * size_of::<T>() <= byte_limit(align_of::<T>()),
        ensures
            final(self).wf(),
            final(self)@ == old(self)@,
            final(self).len == old(self).len,
            final(self).cap == new_cap,
    {
        while self.slots.len() < new_cap
            invariant
                self.len == old(self).len,
                self.len <= old(self).cap <= self.slots@.len() <= new_cap,
                forall|i: int| 0 <= i < old(self).cap ==> self.slots@[i] == old(self).slots@[i],
                forall|i: int| old(self).cap <= i < self.slots@.len() ==> self.slots@[i] is None,
                old(self).wf(),
            decreases new_cap - self.slots@.len(),
        {
            self.slots.push(None);
        }
        self.cap = new_cap;
        assert(self@ =~= old(self)@);
    }

    /// Puts `value` into the first vacant slot.
    fn place(&mut self, value: T)
        requires
            old(self).wf(),
            old(self).len < old(self).cap,
        ensures
            final(self).wf(),
            final(self)@ == old(self)@.push(value),
            final(self).cap == old(self).cap,
    {
        let at: usize = self.len;
        self.slots.set(at, Some(value));
        self.len = at + 1;
        assert(self@ =~= old(self)@.push(value));
    }

    /// Appends `value` in a block of `new_cap` slots, the capacity that the
    /// plan of this push has settled on.
    fn push_planned(&mut self, value: T, new_cap: usize)
        requires
            old(self).wf(),
            old(self).plan() == Ok::<nat, PushError>(new_cap as nat),
        ensures
            final(self).wf(),
            final(self).is_push_of(old(self), value),
    {
        proof {
            self.lemma_plan_is_sound();
        }
        self.grow_to(new_cap);
        self.place(value);
    }

    /// Appends `value`.
    ///
    /// Where a slot is vacant the block stays as it is; where there is no
    /// block, or the block is full, the container first obtains the block
    /// that [`next_capacity`] prescribes. The caller shows that the push
    /// goes through; [`Self::try_push`] asks for no such proof.
    pub fn push(&mut self, value: T)
        requires
            old(self).wf(),
            old(self).can_push(),
        ensures
            final(self).wf(),
            final(self).is_push_of(old(self), value),
    {
        match self.planned_capacity() {
            Ok(new_cap) => self.push_planned(value, new_cap),
            // Not reached by a caller that has shown `can_push`; any other
            // caller is stopped here.
            Err(_) => unreached(),
        }
    }

    /// Appends `value`, given the allocator's answer to the request for the
    /// room that a growth step needs. Where no growth step is needed the
    /// answer is not looked at.
    pub fn push_reserved(&mut self, value: T, reserved: bool) -> (r: Result<(), PushError>)
        requires
            old(self).wf(),
        ensures
            final(self).wf(),
            match old(self).plan() {
                Err(e) => r == Err::<(), PushError>(e),
                Ok(c) => if c == old(self).spec_capacity() || reserved {
                    r is Ok
                } else {
                    r == Err::<(), PushError>(PushError::AllocationFailed)
                },
            },
            r is Ok ==> final(self).is_push_of(old(self), value),
            r is Err ==> final(self).is_unchanged_from(old(self)),
    {
        match self.planned_capacity() {
            Err(e) => Err(e),
            Ok(new_cap) => {
                if new_cap != self.cap && !reserved {
                    return Err(PushError::AllocationFailed);
                }
                self.push_planned(value, new_cap);
                Ok(())
            },
        }
    }

    /// Appends `value` if the push goes through and the allocator grants the
    /// room for it; otherwise says why not and leaves the container as it
    /// was.
    pub fn try_push(&mut self, value: T) -> (r: Result<(), PushError>)
        requires
            old(self).wf(),
        ensures
            final(self).wf(),
            match old(self).plan() {
                Err(e) => r == Err::<(), PushError>(e),
                Ok(c) => r is Ok || (r == Err::<(), PushError>(PushError::AllocationFailed) && c
                    != old(self).spec_capacity()),
            },
            r is Ok ==> final(self).is_push_of(old(self), value),
            r is Err ==> final(self).is_unchanged_from(old(self)),
    {
        let reserved: bool = match self.planned_capacity() {
            Ok(new_cap) if new_cap > self.cap => {
                match self.slots.try_reserve(new_cap - self.cap) {
                    Ok(_) => true,
                    Err(_) => false,
                }
            },
            _ => true,
        };
        assert(self@ =~= old(self)@);
        self.push_reserved(value, reserved)
    }

    /// What a plan that goes through says of the planned capacity.
    proof fn lemma_plan_is_sound(&self)
        requires
            self.wf(),
            self.plan() is Ok,
        ensures
            self.plan()->Ok_0 == next_capacity(self@.len(), self.cap as nat),
            self.plan()->Ok_0 >= self.cap,
            self.plan()->Ok_0 > self.len,
            self.plan()->Ok_0 > self.cap ==> is_block_capacity(self.plan()->Ok_0),
            size_of::<T>() > 0,
            self.plan()->Ok_0 * size_of::<T>() <= byte_limit(align_of::<T>()),
    {
        if self.cap == 0 {
            lemma_initial_block_capacity();
        } else if self.len >= self.cap {
            lemma_block_capacity_doubles(self.cap as nat);
        }
    }

    /// The element at `index`, or nothing where `index` is not the position
    /// of a live element.
    pub fn get(&self, index: usize) -> (r: Option<&T>)
        requires
            self.wf(),
        ensures
            index < self@.len() ==> r == Some(&self@[index as int]),
            index >= self@.len() ==> r is None,
    {
        if index < self.len {
            self.slots[index].as_ref()
        } else {
            None
        }
    }

    /// Removes the last element and hands it out, or hands out nothing
    /// where the container is empty. The slot becomes vacant and the block
    /// keeps its size.
    pub fn pop(&mut self) -> (r: Option<T>)
        requires
            old(self).wf(),
        ensures
            final(self).wf(),
            final(self).is_pop_of(old(self), r),
    {
        if self.len > 0 {
            self.len -= 1;
            let at: usize = self.len;
            let value = self.slots[at].take();
            assert(self@ =~= old(self)@.drop_last());
            value
        } else {
            None
        }
    }

    /// One step of consuming the container: the same as [`Self::pop`], so
    /// the elements come out last pushed first.
    pub fn next(&mut self) -> (r: Option<T>)
        requires
            old(self).wf(),
        ensures
            final(self).wf(),
            final(self).is_pop_of(old(self), r),
    {
        self.pop()
    }

    /// References to the live elements, first pushed first. The container
    /// is left as it is.
    pub fn into_iter(&self) -> (refs: Vec<&T>)
        requires
            self.wf(),
        ensures
            refs@.len() == self@.len(),
            forall|i: int| 0 <= i < self@.len() ==> *refs@[i] == self@[i],
    {
        let mut refs: Vec<&T> = Vec::new();
        let mut i: usize = 0;
        while i < self.len
            invariant
                self.wf(),
                i <= self.len,
                refs@.len() == i,
                forall|j: int| 0 <= j < i ==> *refs@[j] == self@[j],
            decreases self.len - i,
        {
            let slot: Option<&T> = self.slots[i].as_ref();
            refs.push(slot.unwrap());
            i += 1;
        }
        refs
    }

    /// The number of live elements.
    #[verifier::when_used_as_spec(spec_len)]
    pub fn len(&self) -> (l: usize)
        ensures
            l == self.spec_len(),
            l == self@.len(),
    {
        self.len
    }

    /// The number of elements that the block can hold.
    #[verifier::when_used_as_spec(spec_capacity)]
    pub fn capacity(&self) -> (c: usize)
        ensures
            c == self.spec_capacity(),
    {
        self.cap
    }
}

impl<T> vstd::std_specs::core::IndexSpecImpl<usize> for LeVec<T> {
    /// Indexing asks for the position of a live element.
    open spec fn index_req(&self, index: &usize) -> bool {
        self.wf() && *index < self@.len()
    }
}

impl<T> core::ops::Index<usize> for LeVec<T> {
    type Output = T;

    /// The element at `index`, which the caller shows to be live.
    fn index(&self, index: usize) -> (r: &T)
        ensures
            *r == self@[index as int],
    {
        self.slots[index].as_ref().unwrap()
    }
}

} // verus!
