//! The listeners attached to one thread's span queue, earliest first.

use vstd::prelude::*;

verus! {

/// One attachment to a span line: the first queue index that it owns, and the slot of its
/// acquirer group.
#[derive(Copy, Clone, Debug, PartialEq, Eq, Structural)]
pub struct Listener {
    pub queue_index: usize,
    pub slab_index: usize,
}

impl Listener {
    pub fn new(queue_index: usize, slab_index: usize) -> (r: Self)
        ensures
            r.queue_index == queue_index,
            r.slab_index == slab_index,
    {
        Listener { queue_index, slab_index }
    }
}

/// No listener stands before one with a smaller queue index.
pub open spec fn ordered(listeners: Seq<Listener>) -> bool {
    forall|i: int, j: int|
        0 <= i <= j < listeners.len() ==> listeners[i].queue_index <= listeners[j].queue_index
}

/// `at` is where a listener with queue index `queue_index` goes: behind every listener that
/// is not later than it, before every listener that is.
pub open spec fn insertion_point(listeners: Seq<Listener>, queue_index: usize, at: int) -> bool {
    &&& 0 <= at <= listeners.len()
    &&& forall|i: int| 0 <= i < at ==> (#[trigger] listeners[i]).queue_index <= queue_index
    &&& forall|i: int| at <= i < listeners.len() ==> (#[trigger] listeners[i]).queue_index > queue_index
}

/// `at` is the place of the first listener equal to `listener`.
pub open spec fn first_at(listeners: Seq<Listener>, listener: Listener, at: int) -> bool {
    &&& 0 <= at < listeners.len()
    &&& listeners[at] == listener
    &&& forall|i: int| 0 <= i < at ==> #[trigger] listeners[i] != listener
}

/// A collection of listeners ordered by queue index; listeners with equal queue indices
/// stand in the order in which they were registered.
pub struct Registry {
    listeners: Vec<Listener>,
}

impl View for Registry {
    type V = Seq<Listener>;

    closed spec fn view(&self) -> Seq<Listener> {
        self.listeners@
    }
}

impl Registry {
    /// The listeners are in order.
    pub open spec fn wf(&self) -> bool {
        ordered(self@)
    }

    pub fn new() -> (r: Self)
        ensures
            r.wf(),
            r@ == Seq::<Listener>::empty(),
    {
        Registry { listeners: Vec::new() }
    }

    pub fn is_empty(&self) -> (r: bool)
        ensures
            r == (self@.len() == 0),
    {
        self.listeners.len() == 0
    }

    pub fn len(&self) -> (r: usize)
        ensures
            r == self@.len(),
    {
        self.listeners.len()
    }

    pub fn contains(&self, listener: Listener) -> (r: bool)
        ensures
            r == self@.contains(listener),
    {
        let n = self.listeners.len();
        let mut i: usize = 0;
        while i < n
            invariant
                n == self.listeners.len(),
                i <= n,
                forall|j: int| 0 <= j < i ==> self@[j] != listener,
            decreases n - i,
        {
            if self.listeners[i] == listener {
                return true;
            }
            i = i + 1;
        }
        false
    }

    /// Adds `listener` behind the listeners that are not later than it.
    pub fn register(&mut self, listener: Listener)
        requires
            old(self).wf(),
        ensures
            final(self).wf(),
            exists|at: int|
                insertion_point(old(self)@, listener.queue_index, at) && final(self)@ == old(self)@.insert(at, listener),
    {
        let mut at: usize = self.listeners.len();
        while at > 0 && self.listeners[at - 1].queue_index > listener.queue_index
            invariant
                at <= self.listeners.len(),
                self@ == old(self)@,
                ordered(self@),
                forall|i: int| at <= i < self@.len() ==> (#[trigger] self@[i]).queue_index > listener.queue_index,
            decreases at,
        {
            at = at - 1;
        }
        self.listeners.insert(at, listener);
        assert(insertion_point(old(self)@, listener.queue_index, at as int));
    }

    /// Takes out the first listener equal to `listener`, if there is one.
    pub fn unregister(&mut self, listener: Listener)
        requires
            old(self).wf(),
        ensures
            final(self).wf(),
            !old(self)@.contains(listener) ==> final(self)@ == old(self)@,
            old(self)@.contains(listener) ==> exists|at: int|
                first_at(old(self)@, listener, at) && final(self)@ == old(self)@.remove(at),
    {
        let n = self.listeners.len();
        let mut i: usize = 0;
        while i < n
            invariant
                n == self.listeners.len(),
                i <= n,
                self@ == old(self)@,
                ordered(self@),
                forall|j: int| 0 <= j < i ==> self@[j] != listener,
            decreases n - i,
        {
            if self.listeners[i] == listener {
                self.listeners.remove(i);
                assert(first_at(old(self)@, listener, i as int));
                assert(self@ == old(self)@.remove(i as int));
                return ;
            }
            i = i + 1;
        }
    }

    /// The listener with the smallest queue index; of several, the one registered first.
    pub fn earliest(&self) -> (r: Option<Listener>)
        requires
            self.wf(),
        ensures
            r is Some <==> self@.len() > 0,
            r matches Some(l) ==> l == self@[0] && forall|i: int|
                0 <= i < self@.len() ==> l.queue_index <= (#[trigger] self@[i]).queue_index,
    {
        if self.listeners.len() == 0 {
            None
        } else {
            Some(self.listeners[0])
        }
    }
}

impl Default for Registry {
    fn default() -> (r: Self)
        ensures
            r.wf(),
            r@ == Seq::<Listener>::empty(),
    {
        Registry::new()
    }
}

} // verus!
