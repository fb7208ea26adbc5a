//! A read-only cursor that walks a container's items from the first upward.

use crate::container::{lemma_pushes_keep_order, pushed_all};
use vstd::prelude::*;

verus! {

/// A forward cursor over the items a container held when the cursor was
/// made. Its view is the sequence of items it has yet to hand out.
pub struct Iter<'vec, T> {
    elements: &'vec Box<[T]>,
    len: usize,
    pos: usize,
}

impl<'vec, T> View for Iter<'vec, T> {
    type V = Seq<T>;

    closed spec fn view(&self) -> Seq<T> {
        self.elements@.subrange(self.pos as int, self.len as int)
    }
}

/// What a cursor has left once `next` has been called on it: all but the
/// first of its items, or nothing if it had none.
pub open spec fn after_next<T>(remaining: Seq<T>) -> Seq<T> {
    if remaining.len() > 0 {
        remaining.drop_first()
    } else {
        remaining
    }
}

/// What a cursor has left after `k` calls of `next`.
pub open spec fn after_nexts<T>(remaining: Seq<T>, k: nat) -> Seq<T>
    decreases k,
{
    if k == 0 {
        remaining
    } else {
        after_next(after_nexts(remaining, (k - 1) as nat))
    }
}

impl<'vec, T> Iter<'vec, T> {
    /// The position lies within the items, and the items within the block.
    pub closed spec fn wf(&self) -> bool {
        self.pos <= self.len <= self.elements@.len()
    }

    /// A cursor at the start of the first `len` slots of `elements`.
    pub(crate) fn over(elements: &'vec Box<[T]>, len: usize) -> (it: Self)
        requires
            len <= elements@.len(),
        ensures
            it.wf(),
            it@ == elements@.subrange(0, len as int),
    {
        Iter { elements, len, pos: 0 }
    }

    /// Hands out the first of the remaining items and steps past it, or
    /// reports that none is left.
    pub fn next(&mut self) -> (item: Option<&'vec T>)
        requires
            old(self).wf(),
        ensures
            final(self).wf(),
            final(self)@ == after_next(old(self)@),
            old(self)@.len() > 0 ==> item == Some(&old(self)@[0]),
            old(self)@.len() == 0 ==> item.is_none(),
    {
        if self.pos >= self.len {
            None
        } else {
            let res = Some(&self.elements[self.pos]);
            self.pos += 1;
            res
        }
    }
}

/// A cursor over `items` hands out each of them in order, one per call, and
/// has nothing left from the call after the last one onward: before call
/// number `k`, counted from zero, it holds the items from index `k` on.
pub proof fn lemma_cursor_runs_out<T>(items: Seq<T>, k: nat)
    ensures
        k <= items.len() ==> after_nexts(items, k) == items.subrange(
            k as int,
            items.len() as int,
        ),
        k < items.len() ==> after_nexts(items, k).len() > 0,
        k < items.len() ==> after_nexts(items, k)[0] == items[k as int],
        k >= items.len() ==> after_nexts(items, k).len() == 0,
    decreases k,
{
    if k > 0 {
        lemma_cursor_runs_out(items, (k - 1) as nat);
    }
}

/// Items appended to an empty container come back from a cursor one per
/// call, in the order in which they were appended, however often the block
/// grew in between; after the last of them the cursor has nothing left.
pub proof fn lemma_cursor_reads_back_pushes<T>(values: Seq<T>, k: nat)
    ensures
        k < values.len() ==> after_nexts(pushed_all(Seq::empty(), values), k).len() > 0,
        k < values.len() ==> after_nexts(pushed_all(Seq::empty(), values), k)[0]
            == values[k as int],
        k >= values.len() ==> after_nexts(pushed_all(Seq::empty(), values), k).len() == 0,
{
    lemma_pushes_keep_order(Seq::empty(), values);
    assert(Seq::<T>::empty() + values == values);
    lemma_cursor_runs_out(values, k);
}

} // verus!
