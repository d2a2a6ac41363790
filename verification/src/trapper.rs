//! The attachment of one acquirer group to a span line, and what it has caught.

use vstd::prelude::*;
use std::sync::Arc;
use crate::acquirer::AcquirerGroup;
use crate::cycle::Clock;
use crate::local::release_acquirer_group;
use crate::registry::{first_at, Listener};
use crate::span::{span_views, Span, SpanData};
use crate::span_id::IdGenerator;
use crate::span_line::{collected, SpanLine};

verus! {

/// Where a trapper stands: attached to a line through a listener, or holding the group that
/// it would attach.
pub enum State {
    Registered(Listener),
    Unregistered(Arc<AcquirerGroup>),
}

/// Attaches an acquirer group to a span line, takes the completed spans off the line when
/// it detaches, and hands them to the group.
pub struct Trapper {
    caught_spans: Vec<Span>,
    /// If trapper is registered, a listener is stored here,
    /// or, a acquirer group to register is stored.
    /// Using `Option` is for switching state.
    state: Option<State>,
}

impl Trapper {
    pub closed spec fn spec_state(&self) -> Option<State> {
        self.state
    }

    /// The spans pulled from the line and not yet submitted.
    pub closed spec fn caught(&self) -> Seq<SpanData> {
        span_views(self.caught_spans@)
    }

    /// The trapper is attached, and `span_line` knows its listener.
    pub open spec fn attached_to<IG: IdGenerator, C: Clock>(&self, span_line: &SpanLine<IG, C>) -> bool {
        self.spec_state() matches Some(State::Registered(l)) ==> span_line@.registered(l)
    }

    pub fn new(acquirer_group: Option<Arc<AcquirerGroup>>) -> (r: Self)
        ensures
            r.caught() == Seq::<SpanData>::empty(),
            r.spec_state() == match acquirer_group {
                Some(acg) => Some(State::Unregistered(acg)),
                None => None,
            },
    {
        let state = match acquirer_group {
            Some(acg) => Some(State::Unregistered(acg)),
            None => None,
        };
        let r = Trapper { caught_spans: Vec::new(), state };
        assert(r.caught() =~= Seq::empty());
        r
    }

    /// The listener through which the trapper is attached, if it is attached.
    pub fn listener(&self) -> (r: Option<Listener>)
        ensures
            r == match self.spec_state() {
                Some(State::Registered(l)) => Some(l),
                _ => None,
            },
    {
        match &self.state {
            Some(State::Registered(l)) => Some(*l),
            _ => None,
        }
    }

    /// Attaches the group to `span_line`, if the trapper holds one.
    pub fn set_trap<IG: IdGenerator, C: Clock>(&mut self, span_line: &mut SpanLine<IG, C>)
        requires
            old(span_line).wf(),
        ensures
            final(span_line).wf(),
            final(span_line).same_sources(old(span_line)),
            final(self).caught() == old(self).caught(),
            old(self).attached_to(old(span_line)) ==> final(self).attached_to(final(span_line)),
            final(span_line)@.queue == old(span_line)@.queue,
            match old(self).spec_state() {
                Some(State::Unregistered(acg)) => exists|l: Listener|
                    {
                        &&& final(self).spec_state() == Some(State::Registered(l))
                        &&& l.queue_index == old(span_line)@.queue.next_index()
                        &&& !old(span_line)@.groups.dom().contains(l.slab_index)
                        &&& final(span_line)@.listeners == #[trigger] old(span_line)@.listeners.push(l)
                        &&& final(span_line)@.groups == old(span_line)@.groups.insert(
                            l.slab_index,
                            acg,
                        )
                    },
                _ => final(self).spec_state() == old(self).spec_state() && final(span_line)@
                    == old(span_line)@,
            },
            forall|l: Listener|
                old(span_line)@.registered(l) ==> final(span_line)@.registered(l),
    {
        let state = match self.state.take() {
            Some(s) => s,
            None => {
                return ;
            },
        };
        match state {
            State::Registered(l) => {
                self.state = Some(State::Registered(l));
            },
            State::Unregistered(acg) => {
                let listener = span_line.register_now(acg);
                self.state = Some(State::Registered(listener));
                proof {
                    let before = old(span_line)@.listeners;
                    assert(before.push(listener)[before.len() as int] == listener);
                    assert forall|l: Listener| before.contains(l) implies before.push(
                        listener,
                    ).contains(l) by {
                        let i = choose|i: int| 0 <= i < before.len() && before[i] == l;
                        assert(before.push(listener)[i] == l);
                    }
                }
            },
        }
    }

    /// Detaches from `span_line`, if the trapper is attached, and keeps the completed spans
    /// of its part of the queue.
    pub fn pull<IG: IdGenerator, C: Clock>(&mut self, span_line: &mut SpanLine<IG, C>)
        requires
            old(span_line).wf(),
            old(self).attached_to(old(span_line)),
        ensures
            final(span_line).wf(),
            final(span_line).same_sources(old(span_line)),
            final(self).attached_to(final(span_line)),
            match old(self).spec_state() {
                Some(State::Registered(l)) => {
                    &&& final(self).spec_state() == Some(
                        State::Unregistered(old(span_line)@.groups[l.slab_index]),
                    )
                    &&& final(self).caught() == old(self).caught() + collected(
                        old(span_line)@.queue.from(l.queue_index as nat),
                    )
                    &&& final(span_line)@.groups == old(span_line)@.groups.remove(l.slab_index)
                    &&& exists|at: int|
                        first_at(old(span_line)@.listeners, l, at) && final(span_line)@.listeners
                            == old(span_line)@.listeners.remove(at)
                    &&& final(span_line)@.queue == if final(span_line)@.listening() {
                        old(span_line)@.queue.evicted(
                            final(span_line)@.listeners[0].queue_index as nat,
                        )
                    } else {
                        old(span_line)@.queue.drained()
                    }
                },
                _ => final(self).spec_state() == old(self).spec_state() && final(self).caught()
                    == old(self).caught() && final(span_line)@ == old(span_line)@,
            },
    {
        let state = match self.state.take() {
            Some(s) => s,
            None => {
                return ;
            },
        };
        match state {
            State::Unregistered(acg) => {
                self.state = Some(State::Unregistered(acg));
            },
            State::Registered(listener) => {
                let (acg, spans) = span_line.unregister_and_collect(listener);
                let mut spans = spans;
                let ghost pulled = spans@;
                let ghost held = self.caught_spans@;
                self.caught_spans.append(&mut spans);
                self.state = Some(State::Unregistered(acg));
                assert(span_views(held + pulled) =~= span_views(held) + span_views(pulled));
            },
        }
    }

    /// Sends what was caught to the group, if the trapper holds one, and gives the group up.
    /// Nothing is sent where nothing was caught.
    pub fn submit<IG: IdGenerator, C: Clock>(&mut self, span_line: &SpanLine<IG, C>)
        ensures
            final(self).spec_state() is None,
            final(self).caught() == if old(self).spec_state() matches Some(State::Unregistered(_)) {
                Seq::<SpanData>::empty()
            } else {
                old(self).caught()
            },
    {
        match self.state.take() {
            Some(State::Unregistered(acg)) => {
                let mut batch: Vec<Span> = Vec::new();
                std::mem::swap(&mut batch, &mut self.caught_spans);
                if batch.len() > 0 {
                    acg.submit(batch);
                }
                release_acquirer_group(span_line, acg);
                assert(self.caught() =~= Seq::empty());
            },
            _ => {},
        }
    }
}

} // verus!
