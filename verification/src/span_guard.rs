//! The token that keeps a span open.

use vstd::prelude::*;
use crate::cycle::Clock;
use crate::span::{property_view, property_views};
use crate::span_id::IdGenerator;
use crate::span_line::SpanLine;
use crate::span_queue::SpanHandle;

verus! {

/// Holds one span of a span line open, from `new` to `finish`. Where nobody listened when
/// it was made, it holds nothing and does nothing.
pub struct LocalSpanGuard {
    span_handle: Option<SpanHandle>,
}

impl LocalSpanGuard {
    /// The index of the span that the guard holds open, if it holds one.
    pub closed spec fn spec_index(&self) -> Option<usize> {
        match self.span_handle {
            Some(handle) => Some(handle.spec_index()),
            None => None,
        }
    }

    pub fn is_active(&self) -> (r: bool)
        ensures
            r == (self.spec_index() is Some),
    {
        self.span_handle.is_some()
    }

    /// Starts a span for `event` on `span_line`, where somebody listens.
    pub fn new<IG: IdGenerator, C: Clock>(span_line: &mut SpanLine<IG, C>, event: &'static str) -> (r:
        Self)
        requires
            old(span_line).wf(),
            old(span_line)@.listening() ==> old(span_line)@.queue.next_index() < usize::MAX,
        ensures
            final(span_line).wf(),
            final(span_line).same_sources(old(span_line)),
            final(span_line)@.listeners == old(span_line)@.listeners,
            final(span_line)@.groups == old(span_line)@.groups,
            !old(span_line)@.listening() ==> r.spec_index() is None && final(span_line)@ == old(span_line)@,
            old(span_line)@.listening() ==> r.spec_index() == Some(
                old(span_line)@.queue.next_index() as usize,
            ) && exists|id: u64, now: u64|
                final(span_line)@.queue == #[trigger] old(span_line)@.queue.started(
                    id,
                    now,
                    event@,
                ),
    {
        let span_handle = span_line.start_span(event);
        LocalSpanGuard { span_handle }
    }

    /// Appends what `properties` returns to the span's properties. An inert guard, or one
    /// whose span is no longer held, does not call `properties`.
    pub fn with_properties<IG: IdGenerator, C: Clock, F: FnOnce() -> Vec<(&'static str, String)>>(
        self,
        span_line: &mut SpanLine<IG, C>,
        properties: F,
    ) -> (r: Self)
        requires
            old(span_line).wf(),
            properties.requires(()),
        ensures
            final(span_line).wf(),
            final(span_line).same_sources(old(span_line)),
            r.spec_index() == self.spec_index(),
            final(span_line)@.listeners == old(span_line)@.listeners,
            final(span_line)@.groups == old(span_line)@.groups,
            match self.spec_index() {
                Some(index) if old(span_line)@.queue.holds(index as nat) => exists|
                    more: Vec<(&'static str, String)>,
                |
                    properties.ensures((), more) && final(span_line)@.queue == #[trigger] old(span_line)@.queue.with_properties(index as nat, property_views(more@)),
                _ => final(span_line)@ == old(span_line)@,
            },
    {
        match &self.span_handle {
            Some(span_handle) => {
                span_line.add_properties(span_handle, properties);
            },
            None => {},
        }
        self
    }

    /// Appends what `property` returns to the span's properties. An inert guard, or one
    /// whose span is no longer held, does not call `property`.
    pub fn with_property<IG: IdGenerator, C: Clock, F: FnOnce() -> (&'static str, String)>(
        self,
        span_line: &mut SpanLine<IG, C>,
        property: F,
    ) -> (r: Self)
        requires
            old(span_line).wf(),
            property.requires(()),
        ensures
            final(span_line).wf(),
            final(span_line).same_sources(old(span_line)),
            r.spec_index() == self.spec_index(),
            final(span_line)@.listeners == old(span_line)@.listeners,
            final(span_line)@.groups == old(span_line)@.groups,
            match self.spec_index() {
                Some(index) if old(span_line)@.queue.holds(index as nat) => exists|
                    p: (&'static str, String),
                |
                    property.ensures((), p) && final(span_line)@.queue == #[trigger] old(span_line)@.queue.with_properties(index as nat, seq![property_view(p)]),
                _ => final(span_line)@ == old(span_line)@,
            },
    {
        match &self.span_handle {
            Some(span_handle) => {
                span_line.add_property(span_handle, property);
            },
            None => {},
        }
        self
    }

    /// Finishes the span, if the guard holds one and the line still holds it.
    pub fn finish<IG: IdGenerator, C: Clock>(self, span_line: &mut SpanLine<IG, C>)
        requires
            old(span_line).wf(),
        ensures
            final(span_line).wf(),
            final(span_line).same_sources(old(span_line)),
            final(span_line)@.listeners == old(span_line)@.listeners,
            final(span_line)@.groups == old(span_line)@.groups,
            self.spec_index() is None ==> final(span_line)@ == old(span_line)@,
            self.spec_index() is Some ==> exists|now: u64|
                final(span_line)@.queue == #[trigger] old(span_line)@.queue.finished(
                    self.spec_index().unwrap() as nat,
                    now,
                ),
    {
        match self.span_handle {
            Some(span_handle) => {
                let ghost index = span_handle.spec_index();
                span_line.finish_span(span_handle);
                proof {
                    let now = choose|now: u64|
                        span_line@.queue == #[trigger] old(span_line)@.queue.finished(
                            index as nat,
                            now,
                        );
                    assert(span_line@.queue == old(span_line)@.queue.finished(index as nat, now));
                    assert(self.spec_index() == Some(index));
                    assert(span_line@.queue == old(span_line)@.queue.finished(
                        self.spec_index().unwrap() as nat,
                        now,
                    ));
                }
            },
            None => {},
        }
    }
}

} // verus!
