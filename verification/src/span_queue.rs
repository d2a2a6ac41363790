//! Recording of nested spans on one thread.

use vstd::prelude::*;
use crate::collections::queue::{clamp_index, FixedIndexQueue};
use crate::cycle::{Clock, Cycle, Realtime};
use crate::nesting::{
    lemma_bridged_traced, lemma_drained_traced, lemma_evicted_traced, lemma_finished_traced,
    lemma_started_traced, not_after,
};
use crate::span::{property_view, property_views, span_views, ScopeSpan, Span, SpanData};
use crate::span_id::{IdGenerator, SpanId};

verus! {

/// What a [`SpanQueue`] holds, as plain mathematical values.
pub struct QueueState {
    /// The index of the first span still held.
    pub front: nat,
    /// The spans held, in the order in which they were started.
    pub spans: Seq<SpanData>,
    /// The parent that the next started span will get.
    pub cursor: u64,
}

impl QueueState {
    pub open spec fn next_index(self) -> nat {
        self.front + self.spans.len()
    }

    pub open spec fn holds(self, index: nat) -> bool {
        self.front <= index < self.next_index()
    }

    /// The span with index `index`.
    pub open spec fn at(self, index: nat) -> SpanData {
        self.spans[index - self.front]
    }

    /// Where in `spans` the spans with an index of at least `index` begin.
    pub open spec fn position(self, index: nat) -> int {
        clamp_index(index as int, self.front as int, self.next_index() as int) - self.front
    }

    /// The spans with an index of at least `index`.
    pub open spec fn from(self, index: nat) -> Seq<SpanData> {
        self.spans.skip(self.position(index))
    }

    /// A span begins under the cursor and becomes the cursor.
    pub open spec fn started(self, id: u64, now: u64, event: Seq<char>) -> QueueState {
        QueueState {
            spans: self.spans.push(SpanData::begun(id, self.cursor, now, event)),
            cursor: id,
            ..self
        }
    }

    /// The span with index `index` ends at `now`: everything pushed after it counts as its
    /// descendant, and the cursor goes back to its parent. An index that is not held changes
    /// nothing.
    pub open spec fn finished(self, index: nat, now: u64) -> QueueState {
        if self.holds(index) {
            let span = self.at(index);
            let descendants = (self.next_index() - index - 1) as nat;
            QueueState {
                spans: self.spans.update(index - self.front, span.with_end(now, descendants)),
                cursor: span.parent_id,
                ..self
            }
        } else {
            self
        }
    }

    /// A zero-duration placeholder is pushed under the cursor; the cursor stays.
    pub open spec fn bridged(self, id: u64, now: u64, event: Seq<char>) -> QueueState {
        QueueState { spans: self.spans.push(SpanData::bridge(id, self.cursor, now, event)), ..self }
    }

    /// Every span with an index below `index` is dropped.
    pub open spec fn evicted(self, index: nat) -> QueueState {
        QueueState {
            front: (self.front + self.position(index)) as nat,
            spans: self.from(index),
            ..self
        }
    }

    /// Every span is taken out; the next index stays.
    pub open spec fn drained(self) -> QueueState {
        QueueState { front: self.next_index(), spans: Seq::empty(), ..self }
    }

    /// The properties `more` are appended to the span with index `index`, if it is held.
    pub open spec fn with_properties(self, index: nat, more: Seq<(Seq<char>, Seq<char>)>) -> QueueState {
        if self.holds(index) {
            QueueState {
                spans: self.spans.update(index - self.front, self.at(index).with_properties(more)),
                ..self
            }
        } else {
            self
        }
    }
}

/// Names one span of a [`SpanQueue`] by its index. It is handed out when the span starts and
/// taken back when the span finishes.
#[derive(Debug)]
pub struct SpanHandle {
    index: usize,
}

impl SpanHandle {
    pub closed spec fn spec_index(&self) -> usize {
        self.index
    }

    #[verifier::when_used_as_spec(spec_index)]
    pub fn index(&self) -> (r: usize)
        ensures
            r == self.spec_index(),
    {
        self.index
    }
}

/// The spans of one thread in the order in which they started, with the cursor from which
/// each new span takes its parent.
pub struct SpanQueue<IG, C> {
    span_queue: FixedIndexQueue<Span>,
    next_parent_id: SpanId,
    id_generator: IG,
    clock: C,
}

impl<IG: IdGenerator, C: Clock> View for SpanQueue<IG, C> {
    type V = QueueState;

    closed spec fn view(&self) -> QueueState {
        QueueState {
            front: self.span_queue.spec_front_index() as nat,
            spans: span_views(self.span_queue.items()),
            cursor: self.next_parent_id.0,
        }
    }
}

impl<IG: IdGenerator, C: Clock> SpanQueue<IG, C> {
    /// The indices in use fit the machine word.
    pub closed spec fn wf(&self) -> bool {
        self.span_queue.wf()
    }

    pub closed spec fn spec_clock(&self) -> C {
        self.clock
    }

    pub closed spec fn spec_id_generator(&self) -> IG {
        self.id_generator
    }

    /// The queue after an operation that leaves the clock and the generator alone.
    pub open spec fn same_sources(&self, before: &Self) -> bool {
        self.spec_clock() == before.spec_clock() && self.spec_id_generator()
            == before.spec_id_generator()
    }

    pub fn new(id_generator: IG, clock: C) -> (r: Self)
        ensures
            r.wf(),
            r@ == (QueueState { front: 0, spans: Seq::empty(), cursor: 0 }),
            r.spec_clock() == clock,
            r.spec_id_generator() == id_generator,
    {
        let r = SpanQueue {
            span_queue: FixedIndexQueue::new(),
            next_parent_id: SpanId(0),
            id_generator,
            clock,
        };
        assert(r@.spans =~= Seq::empty());
        r
    }

    pub fn clock(&self) -> (r: &C)
        ensures
            *r == self.spec_clock(),
    {
        &self.clock
    }

    pub fn id_generator_mut(&mut self) -> (r: &mut IG)
        ensures
            *r == old(self).spec_id_generator(),
            final(self).spec_id_generator() == *final(r),
            final(self).spec_clock() == old(self).spec_clock(),
            final(self)@ == old(self)@,
            final(self).wf() == old(self).wf(),
    {
        &mut self.id_generator
    }

    /// Starts a span for `event` under the cursor, with an identifier from the generator and
    /// the clock's reading as its begin.
    pub fn start_span(&mut self, event: &'static str) -> (handle: SpanHandle)
        requires
            old(self).wf(),
            old(self)@.next_index() < usize::MAX,
        ensures
            final(self).wf(),
            final(self).same_sources(old(self)),
            handle.spec_index() == old(self)@.next_index(),
            final(self)@.front == old(self)@.front,
            final(self)@.spans.len() == old(self)@.spans.len() + 1,
            exists|id: u64, now: u64| final(self)@ == #[trigger] old(self)@.started(id, now, event@),
    {
        let s = self.gen_span(self.next_parent_id, event);
        let ghost begun = s@;
        self.next_parent_id = s.id;
        let index = self.push_span(s);
        assert(final(self)@ == old(self)@.started(begun.id, begun.begin_cycle, event@));
        SpanHandle { index }
    }

    /// Starts a span for `event` under the cursor with the identifier `id`, beginning at `now`.
    pub fn start_span_with(&mut self, id: SpanId, now: Cycle, event: &'static str) -> (handle:
        SpanHandle)
        requires
            old(self).wf(),
            old(self)@.next_index() < usize::MAX,
        ensures
            final(self).wf(),
            final(self).same_sources(old(self)),
            handle.spec_index() == old(self)@.next_index(),
            final(self)@ == old(self)@.started(id.0, now.0, event@),
            old(self)@.grows_in_order(id.0, now.0) ==> final(self)@.traced() && not_after(
                final(self)@.spans,
                now.0,
            ),
    {
        proof {
            if old(self)@.grows_in_order(id.0, now.0) {
                lemma_started_traced(old(self)@, id.0, now.0, event@);
            }
        }
        let span = Span::begin_with(id, self.next_parent_id, now, event);
        self.next_parent_id = id;
        let index = self.push_span(span);
        SpanHandle { index }
    }

    /// Finishes the span that `span_handle` names, at the clock's reading. A handle whose
    /// span is no longer held changes nothing.
    pub fn finish_span(&mut self, span_handle: SpanHandle)
        requires
            old(self).wf(),
        ensures
            final(self).wf(),
            final(self).same_sources(old(self)),
            final(self)@.front == old(self)@.front,
            final(self)@.spans.len() == old(self)@.spans.len(),
            exists|now: u64|
                final(self)@ == #[trigger] old(self)@.finished(span_handle.spec_index() as nat, now),
    {
        let now = self.clock.now();
        self.finish_span_at(span_handle, now);
        assert(final(self)@ == old(self)@.finished(span_handle.spec_index() as nat, now.0));
    }

    /// Finishes the span that `span_handle` names, at `now`.
    pub fn finish_span_at(&mut self, span_handle: SpanHandle, now: Cycle)
        requires
            old(self).wf(),
        ensures
            final(self).wf(),
            final(self).same_sources(old(self)),
            final(self)@ == old(self)@.finished(span_handle.spec_index() as nat, now.0),
            old(self)@.finishes_in_order(span_handle.spec_index() as nat, now.0) ==> final(self)@.traced() && not_after(final(self)@.spans, now.0),
    {
        proof {
            if old(self)@.finishes_in_order(span_handle.spec_index() as nat, now.0) {
                lemma_finished_traced(old(self)@, span_handle.spec_index() as nat, now.0);
            }
        }
        if self.span_queue.idx_is_valid(span_handle.index) {
            let descendant_count = self.count_to_last(span_handle.index);
            let span = self.span_queue.get_mut(span_handle.index);
            span.end_with(now, descendant_count);
            let parent_id = span.parent_id;
            self.next_parent_id = parent_id;
            assert(final(self)@.spans =~= old(self)@.finished(
                span_handle.spec_index() as nat,
                now.0,
            ).spans);
        }
    }

    /// Appends what `properties` returns to the properties of the span that `span_handle`
    /// names. Where that span is no longer held, `properties` is not called.
    pub fn add_properties<F: FnOnce() -> Vec<(&'static str, String)>>(
        &mut self,
        span_handle: &SpanHandle,
        properties: F,
    )
        requires
            old(self).wf(),
            properties.requires(()),
        ensures
            final(self).wf(),
            final(self).same_sources(old(self)),
            final(self)@.front == old(self)@.front,
            final(self)@.spans.len() == old(self)@.spans.len(),
            !old(self)@.holds(span_handle.spec_index() as nat) ==> final(self)@ == old(self)@,
            old(self)@.holds(span_handle.spec_index() as nat) ==> exists|more: Vec<(&'static str, String)>|
                properties.ensures((), more) && final(self)@ == #[trigger] old(self)@.with_properties(
                    span_handle.spec_index() as nat,
                    property_views(more@),
                ),
    {
        if self.span_queue.idx_is_valid(span_handle.index) {
            let mut more = properties();
            let ghost added = more;
            let span = self.span_queue.get_mut(span_handle.index);
            span.properties.append(&mut more);
            assert(property_views(span.properties@) =~= old(self)@.at(
                span_handle.spec_index() as nat,
            ).properties + property_views(added@));
            assert(final(self)@.spans =~= old(self)@.with_properties(
                span_handle.spec_index() as nat,
                property_views(added@),
            ).spans);
        }
    }

    /// Appends what `property` returns to the properties of the span that `span_handle`
    /// names. Where that span is no longer held, `property` is not called.
    pub fn add_property<F: FnOnce() -> (&'static str, String)>(
        &mut self,
        span_handle: &SpanHandle,
        property: F,
    )
        requires
            old(self).wf(),
            property.requires(()),
        ensures
            final(self).wf(),
            final(self).same_sources(old(self)),
            final(self)@.front == old(self)@.front,
            final(self)@.spans.len() == old(self)@.spans.len(),
            !old(self)@.holds(span_handle.spec_index() as nat) ==> final(self)@ == old(self)@,
            old(self)@.holds(span_handle.spec_index() as nat) ==> exists|p: (&'static str, String)|
                property.ensures((), p) && final(self)@ == #[trigger] old(self)@.with_properties(
                    span_handle.spec_index() as nat,
                    seq![property_view(p)],
                ),
    {
        if self.span_queue.idx_is_valid(span_handle.index) {
            let p = property();
            let ghost added = p;
            let span = self.span_queue.get_mut(span_handle.index);
            span.properties.push(p);
            assert(property_views(span.properties@) =~= old(self)@.at(
                span_handle.spec_index() as nat,
            ).properties + seq![property_view(added)]);
            assert(final(self)@.spans =~= old(self)@.with_properties(
                span_handle.spec_index() as nat,
                seq![property_view(added)],
            ).spans);
        }
    }

    /// Pushes a placeholder for `placeholder_event` under the cursor and returns a scope span
    /// for `event` whose parent is that placeholder and whose begin is the placeholder's.
    pub fn start_external_span(&mut self, placeholder_event: &'static str, event: &'static str) -> (r:
        ScopeSpan)
        requires
            old(self).wf(),
            old(self)@.next_index() < usize::MAX,
        ensures
            final(self).wf(),
            final(self).same_sources(old(self)),
            final(self)@.front == old(self)@.front,
            final(self)@.spans.len() == old(self)@.spans.len() + 1,
            r.event == event,
            exists|bridge_id: u64|
                r.parent_id.0 == bridge_id && final(self)@ == #[trigger] old(self)@.bridged(
                    bridge_id,
                    r.begin_cycles.0,
                    placeholder_event@,
                ),
    {
        // add a spawn span for indirectly linking to the external span
        let mut s = self.gen_span(self.next_parent_id, placeholder_event);
        let cycle = s.begin_cycle;
        s.end_cycle = cycle;
        s.is_spawn_bridge = true;
        let es_parent = s.id;
        self.push_span(s);
        let r = self.gen_external_span(es_parent, event, cycle);
        assert(final(self)@ == old(self)@.bridged(es_parent.0, cycle.0, placeholder_event@));
        r
    }

    /// As `start_external_span`, with the placeholder's identifier, the scope span's
    /// identifier and the cycle given.
    pub fn start_external_span_with(
        &mut self,
        bridge_id: SpanId,
        id: SpanId,
        now: Cycle,
        placeholder_event: &'static str,
        event: &'static str,
    ) -> (r: ScopeSpan)
        requires
            old(self).wf(),
            old(self)@.next_index() < usize::MAX,
        ensures
            final(self).wf(),
            final(self).same_sources(old(self)),
            r == (ScopeSpan { id, parent_id: bridge_id, begin_cycles: now, event }),
            final(self)@ == old(self)@.bridged(bridge_id.0, now.0, placeholder_event@),
            old(self)@.grows_in_order(bridge_id.0, now.0) ==> final(self)@.traced() && not_after(
                final(self)@.spans,
                now.0,
            ),
    {
        proof {
            if old(self)@.grows_in_order(bridge_id.0, now.0) {
                lemma_bridged_traced(old(self)@, bridge_id.0, now.0, placeholder_event@);
            }
        }
        let mut s = Span::begin_with(bridge_id, self.next_parent_id, now, placeholder_event);
        s.end_cycle = now;
        s.is_spawn_bridge = true;
        self.push_span(s);
        ScopeSpan::new(id, bridge_id, now, event)
    }

    /// A scope span for `event` with no parent, beginning at the clock's reading. Nothing is
    /// pushed.
    pub fn start_root_external_span(&mut self, event: &'static str) -> (r: ScopeSpan)
        ensures
            final(self).wf() == old(self).wf(),
            final(self).same_sources(old(self)),
            final(self)@ == old(self)@,
            r.parent_id.0 == 0,
            r.event == event,
    {
        let now = self.clock.now();
        self.gen_external_span(SpanId(0), event, now)
    }

    /// The finished span of `external_span`, ending at the clock's reading.
    pub fn finish_external_span(&self, external_span: &ScopeSpan) -> (r: Span)
        ensures
            exists|now: u64| r@ == #[trigger] external_span.completed(now),
    {
        let now = self.clock.now();
        let r = external_span.to_span(now);
        assert(r@ == external_span.completed(now.0));
        r
    }

    pub fn next_index(&self) -> (r: usize)
        requires
            self.wf(),
        ensures
            r == self@.next_index(),
    {
        self.span_queue.next_index()
    }

    pub fn remove_before(&mut self, index: usize)
        requires
            old(self).wf(),
        ensures
            final(self).wf(),
            final(self).same_sources(old(self)),
            final(self)@ == old(self)@.evicted(index as nat),
            old(self)@.traced() ==> final(self)@.traced(),
    {
        proof {
            if old(self)@.traced() {
                lemma_evicted_traced(old(self)@, index as nat);
            }
        }
        self.span_queue.remove_before(index);
        assert(final(self)@.spans =~= old(self)@.evicted(index as nat).spans);
    }

    /// Copies of the spans with an index of at least `index`, in order.
    pub fn iter_skip_to(&self, index: usize) -> (r: Vec<Span>)
        requires
            self.wf(),
        ensures
            span_views(r@) == self@.from(index as nat),
    {
        let refs = self.span_queue.iter_ref_skip_to(index);
        let n = refs.len();
        let mut out: Vec<Span> = Vec::new();
        let mut i: usize = 0;
        while i < n
            invariant
                n == refs.len(),
                i <= n,
                out.len() == i,
                forall|j: int| 0 <= j < i ==> (#[trigger] out[j])@ == refs[j]@,
            decreases n - i,
        {
            out.push(refs[i].clone());
            i = i + 1;
        }
        assert(span_views(out@) =~= self@.from(index as nat));
        out
    }

    /// Takes every span out of the queue and returns those with an index of at least
    /// `index`, in order.
    pub fn into_iter_skip_to(&mut self, index: usize) -> (r: Vec<Span>)
        requires
            old(self).wf(),
        ensures
            final(self).wf(),
            final(self).same_sources(old(self)),
            span_views(r@) == old(self)@.from(index as nat),
            final(self)@ == old(self)@.drained(),
            final(self)@.traced(),
    {
        proof {
            lemma_drained_traced(old(self)@);
        }
        let r = self.span_queue.iter_skip_to(index);
        assert(span_views(r@) =~= old(self)@.from(index as nat));
        assert(final(self)@.spans =~= Seq::empty());
        r
    }

    pub fn cycle_to_realtime(&self, cycle: Cycle) -> (r: Realtime)
        ensures
            r == self.spec_clock().realtime_of(cycle),
    {
        self.clock.cycle_to_realtime(cycle)
    }

    /// A span for `event` under `parent_id`, not yet pushed, with an identifier from the
    /// generator and the clock's reading as its begin.
    pub fn gen_span(&self, parent_id: SpanId, event: &'static str) -> (r: Span)
        ensures
            exists|id: u64, now: u64| r@ == #[trigger] SpanData::begun(id, parent_id.0, now, event@),
    {
        let id = self.id_generator.next_id();
        let now = self.clock.now();
        let r = Span::begin_with(id, parent_id, now, event);
        assert(r@ == SpanData::begun(id.0, parent_id.0, now.0, event@));
        r
    }

    /// A scope span for `event` under `parent_id` that begins at `begin_cycle`, with an
    /// identifier from the generator.
    pub fn gen_external_span(&self, parent_id: SpanId, event: &'static str, begin_cycle: Cycle) -> (r:
        ScopeSpan)
        ensures
            r.parent_id == parent_id,
            r.begin_cycles == begin_cycle,
            r.event == event,
    {
        ScopeSpan::new(self.id_generator.next_id(), parent_id, begin_cycle, event)
    }

    /// Pushes `span` as it is and returns its index. The cursor stays.
    pub fn push_span(&mut self, span: Span) -> (index: usize)
        requires
            old(self).wf(),
            old(self)@.next_index() < usize::MAX,
        ensures
            final(self).wf(),
            final(self).same_sources(old(self)),
            index == old(self)@.next_index(),
            final(self)@ == (QueueState { spans: old(self)@.spans.push(span@), ..old(self)@ }),
    {
        let index = self.span_queue.push_back(span);
        assert(final(self)@.spans =~= old(self)@.spans.push(span@));
        index
    }

    /// The number of spans pushed after the one with index `index`.
    pub fn count_to_last(&self, index: usize) -> (r: usize)
        requires
            self.wf(),
            self@.holds(index as nat),
        ensures
            r == self@.next_index() - index - 1,
    {
        let next_index = self.span_queue.next_index();
        next_index - index - 1
    }
}

} // verus!
