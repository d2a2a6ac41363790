//! An append-only queue whose indices stay valid while the front is evicted.

use vstd::prelude::*;

verus! {

/// A sequence that grows at the back and is evicted at the front. Every element keeps the
/// index that `push_back` gave it; indices grow by one with each push and are never reused.
pub struct FixedIndexQueue<T> {
    /// The index of `items[0]`, or of the next push when `items` is empty.
    offset: usize,
    items: Vec<T>,
}

/// `index` held inside `[low, high]`.
pub open spec fn clamp_index(index: int, low: int, high: int) -> int {
    if index < low {
        low
    } else if index > high {
        high
    } else {
        index
    }
}

impl<T> FixedIndexQueue<T> {
    /// The indices in use fit the machine word.
    pub closed spec fn wf(&self) -> bool {
        self.offset + self.items.len() <= usize::MAX
    }

    /// The index of the oldest element still held.
    pub closed spec fn spec_front_index(&self) -> usize {
        self.offset
    }

    /// The elements held, oldest first.
    pub closed spec fn items(&self) -> Seq<T> {
        self.items@
    }

    /// The index that the next push will get.
    pub open spec fn spec_next_index(&self) -> usize {
        (self.spec_front_index() + self.items().len()) as usize
    }

    pub open spec fn spec_idx_is_valid(&self, index: usize) -> bool {
        self.spec_front_index() <= index < self.spec_front_index() + self.items().len()
    }

    /// The element with index `index`.
    pub open spec fn at(&self, index: usize) -> T {
        self.items()[index - self.spec_front_index()]
    }

    /// Where in `items` the elements with an index of at least `index` begin.
    pub open spec fn position(&self, index: usize) -> int {
        clamp_index(
            index as int,
            self.spec_front_index() as int,
            self.spec_front_index() + self.items().len(),
        ) - self.spec_front_index()
    }

    pub fn new() -> (r: Self)
        ensures
            r.wf(),
            r.spec_front_index() == 0,
            r.items() == Seq::<T>::empty(),
    {
        FixedIndexQueue { offset: 0, items: Vec::new() }
    }

    #[verifier::when_used_as_spec(spec_front_index)]
    pub fn front_index(&self) -> (r: usize)
        ensures
            r == self.spec_front_index(),
    {
        self.offset
    }

    #[verifier::when_used_as_spec(spec_next_index)]
    pub fn next_index(&self) -> (r: usize)
        requires
            self.wf(),
        ensures
            r == self.spec_front_index() + self.items().len(),
            r == self.spec_next_index(),
    {
        self.offset + self.items.len()
    }

    pub fn len(&self) -> (r: usize)
        ensures
            r == self.items().len(),
    {
        self.items.len()
    }

    pub fn is_empty(&self) -> (r: bool)
        ensures
            r == (self.items().len() == 0),
    {
        self.items.len() == 0
    }

    #[verifier::when_used_as_spec(spec_idx_is_valid)]
    pub fn idx_is_valid(&self, index: usize) -> (r: bool)
        requires
            self.wf(),
        ensures
            r == self.spec_idx_is_valid(index),
    {
        self.offset <= index && index - self.offset < self.items.len()
    }

    /// Appends `value` and returns its index.
    pub fn push_back(&mut self, value: T) -> (index: usize)
        requires
            old(self).wf(),
            old(self).spec_front_index() + old(self).items().len() < usize::MAX,
        ensures
            final(self).wf(),
            index == old(self).spec_next_index(),
            final(self).spec_front_index() == old(self).spec_front_index(),
            final(self).items() == old(self).items().push(value),
    {
        let index = self.offset + self.items.len();
        self.items.push(value);
        index
    }

    pub fn get(&self, index: usize) -> (r: Option<&T>)
        requires
            self.wf(),
        ensures
            r is Some <==> self.spec_idx_is_valid(index),
            r matches Some(v) ==> *v == self.at(index),
    {
        if self.idx_is_valid(index) {
            Some(&self.items[index - self.offset])
        } else {
            None
        }
    }

    /// The element with index `index`, for changing in place.
    pub fn get_mut(&mut self, index: usize) -> (r: &mut T)
        requires
            old(self).wf(),
            old(self).spec_idx_is_valid(index),
        ensures
            *r == old(self).at(index),
            final(self).wf(),
            final(self).spec_front_index() == old(self).spec_front_index(),
            final(self).items() == old(self).items().update(
                index - old(self).spec_front_index(),
                *final(r),
            ),
    {
        let at = index - self.offset;
        &mut self.items[at]
    }

    /// Drops every element with an index below `index`.
    pub fn remove_before(&mut self, index: usize)
        requires
            old(self).wf(),
        ensures
            final(self).wf(),
            final(self).spec_front_index() == old(self).spec_front_index() + old(self).position(index),
            final(self).items() == old(self).items().skip(old(self).position(index)),
    {
        if index > self.offset {
            let n = self.items.len();
            let count = if index - self.offset > n {
                n
            } else {
                index - self.offset
            };
            let kept = self.items.split_off(count);
            self.items = kept;
            self.offset = self.offset + count;
        }
        assert(final(self).items() =~= old(self).items().skip(old(self).position(index)));
    }

    /// The elements with an index of at least `index`, oldest first, by reference.
    pub fn iter_ref_skip_to(&self, index: usize) -> (r: Vec<&T>)
        requires
            self.wf(),
        ensures
            r@.len() == self.items().len() - self.position(index),
            forall|i: int| 0 <= i < r@.len() ==> *#[trigger] r@[i] == self.items()[self.position(index) + i],
    {
        let n = self.items.len();
        let start: usize = if index <= self.offset {
            0
        } else if index - self.offset > n {
            n
        } else {
            index - self.offset
        };
        let mut out: Vec<&T> = Vec::new();
        let mut i: usize = start;
        while i < n
            invariant
                n == self.items.len(),
                start <= i <= n,
                start == self.position(index),
                out@.len() == i - start,
                forall|j: int| 0 <= j < out@.len() ==> *#[trigger] out@[j] == self.items()[start + j],
            decreases n - i,
        {
            out.push(&self.items[i]);
            i = i + 1;
        }
        out
    }

    /// Takes every element out of the queue and returns those with an index of at least
    /// `index`, oldest first. The queue is left empty; the next index does not change.
    pub fn iter_skip_to(&mut self, index: usize) -> (r: Vec<T>)
        requires
            old(self).wf(),
        ensures
            final(self).wf(),
            r@ == old(self).items().skip(old(self).position(index)),
            final(self).spec_front_index() == old(self).spec_front_index() + old(self).items().len(),
            final(self).items() == Seq::<T>::empty(),
    {
        self.remove_before(index);
        let n = self.items.len();
        let taken = self.items.split_off(0);
        self.offset = self.offset + n;
        assert(taken@ =~= old(self).items().skip(old(self).position(index)));
        taken
    }
}

} // verus!
