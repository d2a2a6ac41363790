//! Handles that carry a scope from the place where it was made to the thread that runs it.

use vstd::prelude::*;
use std::sync::Arc;
use std::sync::atomic::AtomicBool;
use crossbeam_channel::Sender;
use crate::acquirer::{share, Acquirer, AcquirerGroup};
use crate::cycle::Clock;
use crate::local::{registered_acquirer_group, release_acquirer_group, root_acquirer_group};
use crate::registry::Listener;
use crate::scope_guard::LocalScopeGuard;
use crate::span::Span;
use crate::span_id::IdGenerator;
use crate::span_line::SpanLine;
use crate::trapper::State;

verus! {

/// A handle to an acquirer group, or to nothing. It may be handed to another thread and
/// attached to that thread's span line with `start_scope`.
pub struct Scope {
    acquirer_group: Option<Arc<AcquirerGroup>>,
}

impl Scope {
    pub closed spec fn spec_acquirer_group(&self) -> Option<Arc<AcquirerGroup>> {
        self.acquirer_group
    }

    /// The scope holds a group: attaching it makes a line record.
    pub fn is_active(&self) -> (r: bool)
        ensures
            r == (self.spec_acquirer_group() is Some),
    {
        self.acquirer_group.is_some()
    }

    /// Attaches the scope to `span_line` until the guard is finished. A scope that holds
    /// nothing gives an inert guard.
    pub fn start_scope<IG: IdGenerator, C: Clock>(&self, span_line: &mut SpanLine<IG, C>) -> (r:
        LocalScopeGuard)
        requires
            old(span_line).wf(),
        ensures
            final(span_line).wf(),
            final(span_line).same_sources(old(span_line)),
            r.attached_to(final(span_line)),
            final(span_line)@.queue == old(span_line)@.queue,
            forall|l: Listener| old(span_line)@.registered(l) ==> final(span_line)@.registered(l),
            match self.spec_acquirer_group() {
                Some(acg) => exists|l: Listener|
                    {
                        &&& r.spec_trapper().spec_state() == Some(State::Registered(l))
                        &&& l.queue_index == old(span_line)@.queue.next_index()
                        &&& !old(span_line)@.groups.dom().contains(l.slab_index)
                        &&& final(span_line)@.listeners == #[trigger] old(span_line)@.listeners.push(
                            l,
                        )
                        &&& final(span_line)@.groups == old(span_line)@.groups.insert(
                            l.slab_index,
                            acg,
                        )
                    },
                None => r.spec_trapper().spec_state() is None && final(span_line)@ == old(span_line)@,
            },
    {
        let acquirer_group = match &self.acquirer_group {
            Some(acg) => Some(share(acg)),
            None => None,
        };
        LocalScopeGuard::new(span_line, acquirer_group)
    }

    /// A scope on a new group that reports to the one collector behind `sender` and
    /// `closed`. The group's scope span has no parent.
    pub fn new_root_scope<IG: IdGenerator, C: Clock>(
        span_line: &mut SpanLine<IG, C>,
        event: &'static str,
        sender: Arc<Sender<Vec<Span>>>,
        closed: Arc<AtomicBool>,
    ) -> (r: Self)
        ensures
            final(span_line).wf() == old(span_line).wf(),
            final(span_line).same_sources(old(span_line)),
            final(span_line)@ == old(span_line)@,
            r.spec_acquirer_group() matches Some(g) && g.wf() && g.spec_acquirers().len() == 1
                && g.spec_acquirers()[0].spec_sender() == sender
                && g.spec_acquirers()[0].spec_closed() == closed
                && g.spec_scope_span().parent_id.0 == 0 && g.spec_scope_span().event == event,
    {
        let group = root_acquirer_group(span_line, Acquirer::new(sender, closed), event);
        Scope { acquirer_group: Some(Arc::new(group)) }
    }

    /// A scope that reports wherever the scopes attached to `span_line` report. Where nobody
    /// listens, or every collector has closed, the scope holds nothing.
    pub fn new_scope<IG: IdGenerator, C: Clock>(span_line: &mut SpanLine<IG, C>, event: &'static str) -> (r:
        Self)
        requires
            old(span_line).wf(),
            old(span_line)@.listening() ==> old(span_line)@.queue.next_index() < usize::MAX,
        ensures
            final(span_line).wf(),
            final(span_line).same_sources(old(span_line)),
            final(span_line)@.listeners == old(span_line)@.listeners,
            final(span_line)@.groups == old(span_line)@.groups,
            !old(span_line)@.listening() ==> r.spec_acquirer_group() is None && final(span_line)@
                == old(span_line)@,
            old(span_line)@.listening() ==> exists|bridge_id: u64, now: u64|
                {
                    &&& final(span_line)@.queue == #[trigger] old(span_line)@.queue.bridged(
                        bridge_id,
                        now,
                        "<spawn>"@,
                    )
                    &&& r.spec_acquirer_group() matches Some(g) ==> g.wf()
                        && g.spec_scope_span().parent_id.0 == bridge_id
                        && g.spec_scope_span().begin_cycles.0 == now && g.spec_scope_span().event
                        == event
                },
    {
        let acquirer_group = match registered_acquirer_group(span_line, event) {
            Some(group) => Some(Arc::new(group)),
            None => None,
        };
        Scope { acquirer_group }
    }

    /// Lets go of the group. Where this was the last handle to it, the group's scope span
    /// is finished at the reading of the line's clock and sent to its collectors.
    pub fn release<IG: IdGenerator, C: Clock>(&mut self, span_line: &SpanLine<IG, C>)
        ensures
            final(self).spec_acquirer_group() is None,
    {
        match self.acquirer_group.take() {
            Some(acg) => release_acquirer_group(span_line, acg),
            None => {},
        }
    }
}

} // verus!
