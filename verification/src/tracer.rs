//! A scope handle that hands out trappers instead of guards.

use vstd::prelude::*;
use std::sync::Arc;
use crate::acquirer::{share, Acquirer, AcquirerGroup};
use crate::cycle::Clock;
use crate::local::{registered_acquirer_group, release_acquirer_group, root_acquirer_group};
use crate::span_id::IdGenerator;
use crate::span_line::SpanLine;
use crate::trapper::{State, Trapper};

verus! {

/// A handle to an acquirer group, or to nothing, from which trappers are made.
pub struct Tracer {
    acquirer_group: Option<Arc<AcquirerGroup>>,
}

impl Tracer {
    pub closed spec fn spec_acquirer_group(&self) -> Option<Arc<AcquirerGroup>> {
        self.acquirer_group
    }

    /// A tracer on a new group of the one acquirer `acquirer`; the group's scope span has
    /// no parent.
    pub fn root<IG: IdGenerator, C: Clock>(
        span_line: &mut SpanLine<IG, C>,
        acquirer: Acquirer,
        event: &'static str,
    ) -> (r: Self)
        ensures
            final(span_line).wf() == old(span_line).wf(),
            final(span_line).same_sources(old(span_line)),
            final(span_line)@ == old(span_line)@,
            r.spec_acquirer_group() matches Some(g) && g.wf() && g.spec_acquirers()
                == seq![acquirer] && g.spec_scope_span().parent_id.0 == 0
                && g.spec_scope_span().event == event,
    {
        Tracer { acquirer_group: Some(Arc::new(root_acquirer_group(span_line, acquirer, event))) }
    }

    /// A tracer that reports wherever the scopes attached to `span_line` report. Where
    /// nobody listens, or every collector has closed, it holds nothing.
    pub fn spawn<IG: IdGenerator, C: Clock>(span_line: &mut SpanLine<IG, C>, event: &'static str) -> (r:
        Self)
        requires
            old(span_line).wf(),
            old(span_line)@.listening() ==> old(span_line)@.queue.next_index() < usize::MAX,
        ensures
            final(span_line).wf(),
            final(span_line).same_sources(old(span_line)),
            final(span_line)@.listeners == old(span_line)@.listeners,
            final(span_line)@.groups == old(span_line)@.groups,
            !old(span_line)@.listening() ==> r.spec_acquirer_group() is None && final(span_line)@
                == old(span_line)@,
            old(span_line)@.listening() ==> exists|bridge_id: u64, now: u64|
                {
                    &&& final(span_line)@.queue == #[trigger] old(span_line)@.queue.bridged(
                        bridge_id,
                        now,
                        "<spawn>"@,
                    )
                    &&& r.spec_acquirer_group() matches Some(g) ==> g.wf()
                        && g.spec_scope_span().parent_id.0 == bridge_id
                        && g.spec_scope_span().begin_cycles.0 == now && g.spec_scope_span().event
                        == event
                },
    {
        let acquirer_group = match registered_acquirer_group(span_line, event) {
            Some(group) => Some(Arc::new(group)),
            None => None,
        };
        Tracer { acquirer_group }
    }

    /// A trapper holding one more handle to the tracer's group, not yet attached.
    pub fn new_trapper(&self) -> (r: Trapper)
        ensures
            r.caught() == Seq::<crate::span::SpanData>::empty(),
            r.spec_state() == match self.spec_acquirer_group() {
                Some(acg) => Some(State::Unregistered(acg)),
                None => None,
            },
    {
        let acquirer_group = match &self.acquirer_group {
            Some(acg) => Some(share(acg)),
            None => None,
        };
        Trapper::new(acquirer_group)
    }

    /// Lets go of the group. Where this was the last handle to it, the group's scope span
    /// is finished at the reading of the line's clock and sent to its collectors.
    pub fn release<IG: IdGenerator, C: Clock>(&mut self, span_line: &SpanLine<IG, C>)
        ensures
            final(self).spec_acquirer_group() is None,
    {
        match self.acquirer_group.take() {
            Some(acg) => release_acquirer_group(span_line, acg),
            None => {},
        }
    }
}

} // verus!
