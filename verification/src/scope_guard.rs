//! The token that keeps a scope attached to a span line.

use vstd::prelude::*;
use std::sync::Arc;
use crate::acquirer::AcquirerGroup;
use crate::cycle::Clock;
use crate::span_id::IdGenerator;
use crate::span_line::SpanLine;
use crate::trapper::{State, Trapper};

verus! {

/// Holds a scope attached to the span line on which it was made, from `new` to `finish`.
pub struct LocalScopeGuard {
    trapper: Trapper,
}

impl LocalScopeGuard {
    pub closed spec fn spec_trapper(&self) -> Trapper {
        self.trapper
    }

    /// The guard is inert, or `span_line` knows its listener.
    pub open spec fn attached_to<IG: IdGenerator, C: Clock>(&self, span_line: &SpanLine<IG, C>) -> bool {
        self.spec_trapper().attached_to(span_line)
    }

    /// The listener through which the guard is attached; `None` for an inert guard.
    pub fn listener(&self) -> (r: Option<crate::registry::Listener>)
        ensures
            r == match self.spec_trapper().spec_state() {
                Some(State::Registered(l)) => Some(l),
                _ => None,
            },
    {
        self.trapper.listener()
    }

    /// Attaches `acquirer_group` to `span_line`. With `None` the guard is inert and the line
    /// stays as it is.
    pub fn new<IG: IdGenerator, C: Clock>(
        span_line: &mut SpanLine<IG, C>,
        acquirer_group: Option<Arc<AcquirerGroup>>,
    ) -> (r: Self)
        requires
            old(span_line).wf(),
        ensures
            final(span_line).wf(),
            final(span_line).same_sources(old(span_line)),
            r.attached_to(final(span_line)),
            final(span_line)@.queue == old(span_line)@.queue,
            forall|l: crate::registry::Listener|
                old(span_line)@.registered(l) ==> final(span_line)@.registered(l),
            match acquirer_group {
                Some(acg) => exists|l: crate::registry::Listener|
                    {
                        &&& r.spec_trapper().spec_state() == Some(State::Registered(l))
                        &&& l.queue_index == old(span_line)@.queue.next_index()
                        &&& !old(span_line)@.groups.dom().contains(l.slab_index)
                        &&& final(span_line)@.listeners == #[trigger] old(span_line)@.listeners.push(l)
                        &&& final(span_line)@.groups == old(span_line)@.groups.insert(
                            l.slab_index,
                            acg,
                        )
                    },
                None => r.spec_trapper().spec_state() is None && final(span_line)@ == old(span_line)@,
            },
    {
        let mut trapper = Trapper::new(acquirer_group);
        trapper.set_trap(span_line);
        LocalScopeGuard { trapper }
    }

    /// Detaches the scope from `span_line` and sends the completed spans of its part of the
    /// queue to its group.
    pub fn finish<IG: IdGenerator, C: Clock>(self, span_line: &mut SpanLine<IG, C>)
        requires
            old(span_line).wf(),
            self.attached_to(old(span_line)),
        ensures
            final(span_line).wf(),
            final(span_line).same_sources(old(span_line)),
            match self.spec_trapper().spec_state() {
                Some(State::Registered(l)) => {
                    &&& final(span_line)@.groups == old(span_line)@.groups.remove(l.slab_index)
                    &&& exists|at: int|
                        crate::registry::first_at(old(span_line)@.listeners, l, at) && final(span_line)@.listeners == old(span_line)@.listeners.remove(at)
                    &&& final(span_line)@.queue == if final(span_line)@.listening() {
                        old(span_line)@.queue.evicted(
                            final(span_line)@.listeners[0].queue_index as nat,
                        )
                    } else {
                        old(span_line)@.queue.drained()
                    }
                },
                _ => final(span_line)@ == old(span_line)@,
            },
    {
        let mut trapper = self.trapper;
        trapper.pull(span_line);
        trapper.submit(span_line);
    }
}

} // verus!
