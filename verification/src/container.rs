//! The container: an owned block of slots and the count of those in use.

use crate::cursor::Iter;
use crate::growth::{
    capacity_after_push, capacity_after_pushes, grown_capacity, lemma_pushes_keep_room,
};
use vstd::prelude::*;

verus! {

/// A growable array that owns its items.
///
/// Its view is the sequence of the items appended so far, oldest first;
/// `spec_capacity` is the number of slots in its block. The slots behind
/// the items hold default values that no operation hands out.
pub struct ToyVec<T> {
    elements: Box<[T]>,
    len: usize,
}

impl<T> View for ToyVec<T> {
    type V = Seq<T>;

    closed spec fn view(&self) -> Seq<T> {
        self.elements@.subrange(0, self.len as int)
    }
}

/// Whether `value` is one that `T::default()` may hand back.
pub open spec fn is_default<T: Default>(value: T) -> bool {
    call_ensures(T::default, (), value)
}

/// The items after appending each of `values` in turn to `items`.
pub open spec fn pushed_all<T>(items: Seq<T>, values: Seq<T>) -> Seq<T>
    decreases values.len(),
{
    if values.len() == 0 {
        items
    } else {
        pushed_all(items, values.drop_last()).push(values.last())
    }
}

/// Appends keep what was there and add the new items behind it, in the
/// order in which they were appended: the item of the `i`-th append stands
/// `i` places behind the items that were there before.
pub proof fn lemma_pushes_keep_order<T>(items: Seq<T>, values: Seq<T>)
    ensures
        pushed_all(items, values) == items + values,
        pushed_all(items, values).len() == items.len() + values.len(),
        forall|i: int| 0 <= i < items.len() ==> pushed_all(items, values)[i] == items[i],
        forall|i: int|
            0 <= i < values.len() ==> pushed_all(items, values)[items.len() + i] == values[i],
    decreases values.len(),
{
    if values.len() > 0 {
        lemma_pushes_keep_order(items, values.drop_last());
    }
}

/// After any run of appends to an empty container of `cap` slots, the number
/// of items is the number of appends, and the slots cover the items.
pub proof fn lemma_len_counts_pushes<T>(cap: nat, values: Seq<T>)
    ensures
        pushed_all(Seq::<T>::empty(), values).len() == values.len(),
        values.len() <= capacity_after_pushes(0, cap, values.len()),
{
    lemma_pushes_keep_order(Seq::<T>::empty(), values);
    lemma_pushes_keep_room(0, cap, values.len());
}

/// `Vec::into_boxed_slice`: the vector's items, in the same order, as a
/// boxed slice of exactly that many items.
#[verifier::external_body]
fn boxed_slice_of<T>(slots: Vec<T>) -> (block: Box<[T]>)
    ensures
        block@ == slots@,
{
    slots.into_boxed_slice()
}

impl<T: Default> ToyVec<T> {
    /// The items fit in the block, and every slot behind them holds a
    /// default value.
    pub closed spec fn wf(&self) -> bool {
        &&& self.len <= self.elements@.len()
        &&& forall|i: int|
            self.len <= i < self.elements@.len() ==> is_default(#[trigger] self.elements@[i])
    }

    /// The number of slots in the block.
    pub closed spec fn spec_capacity(&self) -> nat {
        self.elements@.len()
    }

    /// The items never outnumber the slots.
    pub proof fn lemma_len_within_capacity(&self)
        requires
            self.wf(),
        ensures
            self@.len() <= self.spec_capacity(),
    {
    }

    /// An empty container without any slots.
    pub fn new() -> (v: Self)
        ensures
            v.wf(),
            v@ == Seq::<T>::empty(),
            v.spec_capacity() == 0,
    {
        Self::with_capacity(0)
    }

    /// An empty container with exactly `capacity` slots.
    pub fn with_capacity(capacity: usize) -> (v: Self)
        ensures
            v.wf(),
            v@ == Seq::<T>::empty(),
            v.spec_capacity() == capacity,
    {
        Self { elements: Self::allocate_in_heap(capacity), len: 0 }
    }

    /// A block of exactly `size` slots, each holding a default value.
    pub fn allocate_in_heap(size: usize) -> (block: Box<[T]>)
        ensures
            block@.len() == size,
            forall|i: int| 0 <= i < size ==> is_default(#[trigger] block@[i]),
    {
        let mut slots: Vec<T> = Vec::new();
        for n in 0..size
            invariant
                slots@.len() == n,
                forall|i: int| 0 <= i < n ==> is_default(#[trigger] slots@[i]),
        {
            slots.push(T::default());
        }
        boxed_slice_of(slots)
    }

    /// The number of items.
    pub fn len(&self) -> (n: usize)
        requires
            self.wf(),
        ensures
            n == self@.len(),
    {
        self.len
    }

    /// The number of slots.
    pub fn capacity(&self) -> (n: usize)
        ensures
            n == self.spec_capacity(),
    {
        self.elements.len()
    }

    /// Appends `element` behind the items. A full block is first replaced
    /// by a grown one; the items already there keep their places.
    ///
    /// The doubled number of slots has to fit in `usize` where the block is
    /// full.
    pub fn push(&mut self, element: T)
        requires
            old(self).wf(),
            old(self)@.len() < old(self).spec_capacity() || 2 * old(self).spec_capacity()
                <= usize::MAX,
        ensures
            final(self).wf(),
            final(self)@ == old(self)@.push(element),
            final(self).spec_capacity() == capacity_after_push(
                old(self)@.len(),
                old(self).spec_capacity(),
            ),
            final(self)@.len() <= final(self).spec_capacity(),
            old(self).spec_capacity() <= final(self).spec_capacity(),
    {
        if self.len == self.capacity() {
            self.grow();
        }
        self.elements[self.len] = element;
        self.len += 1;
    }

    /// The item at `index`, or `None` where `index` is not below the
    /// number of items.
    pub fn get(&self, index: usize) -> (item: Option<&T>)
        requires
            self.wf(),
        ensures
            index < self@.len() ==> item == Some(&self@[index as int]),
            index >= self@.len() ==> item.is_none(),
    {
        if index < self.len {
            Some(&self.elements[index])
        } else {
            None
        }
    }

    /// Replaces the block by one of `grown_capacity` slots and moves every
    /// slot's value into the new block at the same index. The new slots
    /// behind them hold default values.
    fn grow(&mut self)
        requires
            old(self).wf(),
            2 * old(self).spec_capacity() <= usize::MAX,
        ensures
            final(self).wf(),
            final(self)@ == old(self)@,
            final(self).spec_capacity() == grown_capacity(old(self).spec_capacity()),
    {
        if self.capacity() == 0 {
            self.elements = Self::allocate_in_heap(1);
        } else {
            let mut block = Self::allocate_in_heap(self.capacity() * 2);
            core::mem::swap(&mut self.elements, &mut block);
            let old_elements = block.into_vec();
            let mut i: usize = 0;
            for elem in moved: old_elements.into_iter()
                invariant
                    i == moved.index(),
                    moved.seq() == old(self).elements@,
                    self.len == old(self).len,
                    self.elements@.len() == 2 * old(self).elements@.len(),
                    forall|j: int| 0 <= j < i ==> self.elements@[j] == old(self).elements@[j],
                    forall|j: int|
                        i <= j < self.elements@.len() ==> is_default(#[trigger] self.elements@[j]),
            {
                self.elements[i] = elem;
                i += 1;
            }
        }
    }

    /// A cursor over the items, starting at the first. The cursor borrows
    /// the container, so the container cannot be changed while the cursor is
    /// in use.
    pub fn iter<'vec>(&'vec self) -> (it: Iter<'vec, T>)
        requires
            self.wf(),
        ensures
            it.wf(),
            it@ == self@,
    {
        Iter::over(&self.elements, self.len)
    }
}

} // verus!
