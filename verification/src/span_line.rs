//! The recording state of one thread: its span queue, its listeners and their groups.

use vstd::prelude::*;
use std::sync::Arc;
use slab::Slab;
use crate::acquirer::{all_acquirers, live_of, AcquirerGroup};
use crate::cycle::{Clock, Cycle, Realtime};
use crate::nesting::{forest, lemma_collected_forest};
use crate::registry::{ordered, Listener, Registry};
use crate::span::{property_view, property_views, span_views, ScopeSpan, Span, SpanData};
use crate::span_id::{IdGenerator, SpanId};
use crate::span_queue::{QueueState, SpanHandle, SpanQueue};

verus! {

#[verifier::external_type_specification]
#[verifier::external_body]
#[verifier::reject_recursive_types(T)]
pub struct ExSlab<T>(Slab<T>);

/// What a slab of acquirer groups holds: the group under each key in use.
pub uninterp spec fn slab_groups(slab: Slab<Arc<AcquirerGroup>>) -> Map<usize, Arc<AcquirerGroup>>;

/// `slab::Slab::new`: a slab that holds nothing.
#[verifier::external_body]
fn slab_new() -> (slab: Slab<Arc<AcquirerGroup>>)
    ensures
        slab_groups(slab) == (Map::<usize, Arc<AcquirerGroup>>::empty()),
{
    Slab::new()
}

/// `slab::Slab::insert`: stores `group` under a key that was not in use and returns the key.
#[verifier::external_body]
fn slab_insert(slab: &mut Slab<Arc<AcquirerGroup>>, group: Arc<AcquirerGroup>) -> (key: usize)
    ensures
        !slab_groups(*old(slab)).dom().contains(key),
        slab_groups(*final(slab)) == slab_groups(*old(slab)).insert(key, group),
{
    slab.insert(group)
}

/// `slab::Slab::remove`: takes out and returns the group under `key`. The slab panics on a
/// key that is not in use, so such a key is not admitted.
#[verifier::external_body]
fn slab_remove(slab: &mut Slab<Arc<AcquirerGroup>>, key: usize) -> (group: Arc<AcquirerGroup>)
    requires
        slab_groups(*old(slab)).dom().contains(key),
    ensures
        group == slab_groups(*old(slab))[key],
        slab_groups(*final(slab)) == slab_groups(*old(slab)).remove(key),
{
    slab.remove(key)
}

/// `slab::Slab::iter`: every key in use with its group, by ascending key.
#[verifier::external_body]
fn slab_entries(slab: &Slab<Arc<AcquirerGroup>>) -> (r: Vec<(usize, &Arc<AcquirerGroup>)>)
    ensures
        by_key(slab_groups(*slab), r@),
{
    slab.iter().collect()
}

/// `entries` lists what `groups` holds, each key once, by ascending key.
pub open spec fn by_key(
    groups: Map<usize, Arc<AcquirerGroup>>,
    entries: Seq<(usize, &Arc<AcquirerGroup>)>,
) -> bool {
    &&& forall|i: int, j: int| 0 <= i < j < entries.len() ==> entries[i].0 < entries[j].0
    &&& forall|i: int|
        0 <= i < entries.len() ==> groups.dom().contains((#[trigger] entries[i]).0) && *entries[i].1
            == groups[entries[i].0]
    &&& forall|key: usize|
        groups.dom().contains(key) ==> exists|i: int|
            0 <= i < entries.len() && (#[trigger] entries[i]).0 == key
}

/// The groups of `entries`, in order.
pub open spec fn groups_of(entries: Seq<(usize, &Arc<AcquirerGroup>)>) -> Seq<&AcquirerGroup> {
    entries.map_values(|e: (usize, &Arc<AcquirerGroup>)| &**e.1)
}

/// What a [`SpanLine`] holds, as plain mathematical values.
pub struct LineState {
    pub queue: QueueState,
    /// The listeners, earliest first.
    pub listeners: Seq<Listener>,
    /// The group of each listener, under the listener's slab index.
    pub groups: Map<usize, Arc<AcquirerGroup>>,
}

impl LineState {
    /// Somebody listens: started spans are recorded.
    pub open spec fn listening(self) -> bool {
        self.listeners.len() > 0
    }

    pub open spec fn registered(self, listener: Listener) -> bool {
        self.listeners.contains(listener)
    }

    /// The listeners are in order and each has a group of its own; there is no other group;
    /// no listener's part of the queue was evicted; and with no listener the queue is empty.
    pub open spec fn wf(self) -> bool {
        &&& ordered(self.listeners)
        &&& forall|i: int|
            0 <= i < self.listeners.len() ==> self.groups.dom().contains(
                (#[trigger] self.listeners[i]).slab_index,
            )
        &&& forall|i: int, j: int|
            0 <= i < j < self.listeners.len() ==> (#[trigger] self.listeners[i]).slab_index != (
            #[trigger] self.listeners[j]).slab_index
        &&& forall|key: usize|
            self.groups.dom().contains(key) ==> exists|i: int|
                0 <= i < self.listeners.len() && (#[trigger] self.listeners[i]).slab_index == key
        &&& forall|i: int|
            0 <= i < self.listeners.len() ==> self.queue.front <= (
            #[trigger] self.listeners[i]).queue_index <= self.queue.next_index()
        &&& self.listeners.len() == 0 ==> self.queue.spans.len() == 0
    }
}

/// A change to the queue that moves neither its front nor its listeners, and drops no span,
/// keeps the line well formed.
pub proof fn lemma_queue_step_keeps_wf(before: LineState, after: LineState)
    requires
        before.wf(),
        after.listeners == before.listeners,
        after.groups == before.groups,
        after.queue.front == before.queue.front,
        after.queue.spans.len() >= before.queue.spans.len(),
        before.listening() || after.queue.spans.len() == 0,
    ensures
        after.wf(),
{
    assert forall|key: usize| after.groups.dom().contains(key) implies exists|i: int|
        0 <= i < after.listeners.len() && (#[trigger] after.listeners[i]).slab_index == key by {
        let i = choose|i: int|
            0 <= i < before.listeners.len() && (#[trigger] before.listeners[i]).slab_index == key;
        assert(after.listeners[i].slab_index == key);
    }
}

/// What comes out of the spans `input` when `pending` more of them belong to a span that
/// was already let through. A span that was let through takes its descendants with it; of
/// the others, an unfinished one is left out, and a finished one is let through without its
/// parent.
pub open spec fn emitted(input: Seq<SpanData>, pending: nat) -> Seq<SpanData>
    decreases input.len(),
{
    if input.len() == 0 {
        Seq::empty()
    } else if pending > 0 {
        seq![input[0]] + emitted(input.skip(1), (pending - 1) as nat)
    } else if !input[0].finished() {
        emitted(input.skip(1), 0)
    } else {
        seq![input[0].with_parent(0)] + emitted(input.skip(1), input[0].descendant_count)
    }
}

/// The finished spans of `input` with their subtrees, the topmost of them without a parent.
pub open spec fn collected(input: Seq<SpanData>) -> Seq<SpanData> {
    emitted(input, 0)
}

/// The number of unfinished spans with which `input` begins.
pub open spec fn leading_unfinished(input: Seq<SpanData>) -> nat
    decreases input.len(),
{
    if input.len() == 0 || input[0].finished() {
        0
    } else {
        1 + leading_unfinished(input.skip(1))
    }
}

/// Walks over spans taken from a queue and lets through the completed ones.
pub struct Iter {
    /// The spans not yet looked at; the next one is the last.
    raw_iter: Vec<Span>,
    remaining_descendants: usize,
}

impl Iter {
    /// The spans not yet looked at, next one first.
    pub closed spec fn remaining(&self) -> Seq<SpanData> {
        span_views(self.raw_iter@).reverse()
    }

    /// How many of the spans to come are let through as they are.
    pub closed spec fn pending(&self) -> nat {
        self.remaining_descendants as nat
    }

    pub fn new(raw_iter: Vec<Span>) -> (r: Self)
        ensures
            r.remaining() == span_views(raw_iter@),
            r.pending() == 0,
    {
        let mut raw_iter = raw_iter;
        let mut stack: Vec<Span> = Vec::new();
        let ghost all = span_views(raw_iter@);
        while raw_iter.len() > 0
            invariant
                all == span_views(raw_iter@) + span_views(stack@).reverse(),
            decreases raw_iter.len(),
        {
            let ghost before = raw_iter@;
            let ghost stacked = stack@;
            let span = raw_iter.pop().unwrap();
            stack.push(span);
            assert(span_views(before) =~= span_views(raw_iter@).push(span@));
            assert(span_views(stack@).reverse() =~= seq![span@] + span_views(stacked).reverse());
            assert(all =~= span_views(raw_iter@) + span_views(stack@).reverse());
        }
        assert(all =~= span_views(stack@).reverse());
        Iter { raw_iter: stack, remaining_descendants: 0 }
    }

    fn take_next(&mut self) -> (r: Option<Span>)
        ensures
            final(self).pending() == old(self).pending(),
            old(self).remaining().len() == 0 ==> r is None && final(self).remaining()
                == old(self).remaining(),
            old(self).remaining().len() > 0 ==> (r matches Some(s) && s@ == old(self).remaining()[0]
                && final(self).remaining() == old(self).remaining().skip(1)),
    {
        let r = self.raw_iter.pop();
        proof {
            if old(self).remaining().len() > 0 {
                assert(final(self).remaining() =~= old(self).remaining().skip(1));
            }
        }
        r
    }

    /// The next span that is let through, or `None` when the spans are used up.
    pub fn next(&mut self) -> (r: Option<Span>)
        ensures
            emitted(old(self).remaining(), old(self).pending()) == match r {
                Some(s) => seq![s@] + emitted(final(self).remaining(), final(self).pending()),
                None => Seq::<SpanData>::empty(),
            },
            r is None ==> final(self).remaining().len() == 0,
            r is Some ==> final(self).remaining().len() < old(self).remaining().len(),
            old(self).pending() > 0 && old(self).remaining().len() > 0 ==> (r matches Some(s) && s@
                == old(self).remaining()[0] && final(self).remaining() == old(self).remaining().skip(1) && final(self).pending() == old(self).pending() - 1),
            old(self).pending() == 0 ==> {
                let skipped = leading_unfinished(old(self).remaining()) as int;
                if skipped == old(self).remaining().len() {
                    r is None
                } else {
                    r matches Some(s) && s@ == old(self).remaining()[skipped].with_parent(0)
                        && final(self).remaining() == old(self).remaining().skip(skipped + 1)
                        && final(self).pending() == old(self).remaining()[skipped].descendant_count
                }
            },
    {
        if self.remaining_descendants > 0 {
            self.remaining_descendants = self.remaining_descendants - 1;
            let r = self.take_next();
            return r;
        }
        let ghost start = self.remaining();
        let ghost mut skipped: int = 0;
        loop
            invariant
                self.pending() == 0,
                old(self).pending() == 0,
                0 <= skipped <= start.len(),
                self.remaining() == start.skip(skipped),
                emitted(start, 0) == emitted(self.remaining(), 0),
                leading_unfinished(start) == skipped + leading_unfinished(self.remaining()),
                start == old(self).remaining(),
            decreases self.remaining().len(),
        {
            match self.take_next() {
                None => {
                    return None;
                },
                Some(span) => {
                    if span.end_cycle.is_zero() {
                        proof {
                            skipped = skipped + 1;
                            assert(start.skip(skipped - 1).skip(1) =~= start.skip(skipped));
                        }
                        continue ;
                    }
                    self.remaining_descendants = span.descendant_count;
                    // set as a root span
                    let mut span = span;
                    span.parent_id = SpanId(0);
                    proof {
                        assert(start.skip(skipped).skip(1) =~= start.skip(skipped + 1));
                    }
                    return Some(span);
                },
            }
        }
    }

    /// Every span that is let through, in order.
    pub fn collect(self) -> (r: Vec<Span>)
        ensures
            span_views(r@) == emitted(self.remaining(), self.pending()),
    {
        let mut iter = self;
        let mut out: Vec<Span> = Vec::new();
        loop
            invariant
                emitted(self.remaining(), self.pending()) == span_views(out@) + emitted(
                    iter.remaining(),
                    iter.pending(),
                ),
            decreases iter.remaining().len(),
        {
            let ghost before = out@;
            let ghost rest = emitted(iter.remaining(), iter.pending());
            match iter.next() {
                None => {
                    assert(span_views(out@) + Seq::<SpanData>::empty() =~= span_views(out@));
                    return out;
                },
                Some(span) => {
                    out.push(span);
                    proof {
                        let tail = emitted(iter.remaining(), iter.pending());
                        assert(span_views(out@) =~= span_views(before).push(span@));
                        assert(span_views(before) + (seq![span@] + tail) =~= span_views(
                            before,
                        ).push(span@) + tail);
                    }
                },
            }
        }
    }
}

/// The per-thread gateway to recording: a span queue, the listeners attached to it, and the
/// acquirer group of each listener.
pub struct SpanLine<IG, C> {
    span_queue: SpanQueue<IG, C>,
    registry: Registry,
    local_acquirer_groups: Slab<Arc<AcquirerGroup>>,
}

impl<IG: IdGenerator, C: Clock> View for SpanLine<IG, C> {
    type V = LineState;

    closed spec fn view(&self) -> LineState {
        LineState {
            queue: self.span_queue@,
            listeners: self.registry@,
            groups: slab_groups(self.local_acquirer_groups),
        }
    }
}

impl<IG: IdGenerator, C: Clock> SpanLine<IG, C> {
    /// The parts are well formed, and so is what they hold together.
    pub closed spec fn wf(&self) -> bool {
        &&& self.span_queue.wf()
        &&& self.registry.wf()
        &&& self@.wf()
    }

    pub closed spec fn spec_clock(&self) -> C {
        self.span_queue.spec_clock()
    }

    pub closed spec fn spec_id_generator(&self) -> IG {
        self.span_queue.spec_id_generator()
    }

    /// The line after an operation that leaves the clock and the generator alone.
    pub open spec fn same_sources(&self, before: &Self) -> bool {
        self.spec_clock() == before.spec_clock() && self.spec_id_generator()
            == before.spec_id_generator()
    }

    pub fn new(id_generator: IG, clock: C) -> (r: Self)
        ensures
            r.wf(),
            r@.queue == (QueueState { front: 0, spans: Seq::empty(), cursor: 0 }),
            r@.listeners == Seq::<Listener>::empty(),
            r@.groups == (Map::<usize, Arc<AcquirerGroup>>::empty()),
            r.spec_clock() == clock,
            r.spec_id_generator() == id_generator,
    {
        SpanLine {
            span_queue: SpanQueue::new(id_generator, clock),
            registry: Registry::new(),
            local_acquirer_groups: slab_new(),
        }
    }

    pub fn id_generator_mut(&mut self) -> (r: &mut IG)
        ensures
            *r == old(self).spec_id_generator(),
            final(self).spec_id_generator() == *final(r),
            final(self).spec_clock() == old(self).spec_clock(),
            final(self)@ == old(self)@,
            final(self).wf() == old(self).wf(),
    {
        self.span_queue.id_generator_mut()
    }

    pub fn clock(&self) -> (r: &C)
        ensures
            *r == self.spec_clock(),
    {
        self.span_queue.clock()
    }

    pub fn is_listening(&self) -> (r: bool)
        ensures
            r == self@.listening(),
    {
        !self.registry.is_empty()
    }

    pub fn is_registered(&self, listener: Listener) -> (r: bool)
        ensures
            r == self@.registered(listener),
    {
        self.registry.contains(listener)
    }

    pub fn next_index(&self) -> (r: usize)
        requires
            self.wf(),
        ensures
            r == self@.queue.next_index(),
    {
        self.span_queue.next_index()
    }

    /// Starts a span for `event` where somebody listens; does nothing where nobody does.
    pub fn start_span(&mut self, event: &'static str) -> (r: Option<SpanHandle>)
        requires
            old(self).wf(),
            old(self)@.listening() ==> old(self)@.queue.next_index() < usize::MAX,
        ensures
            final(self).wf(),
            final(self).same_sources(old(self)),
            final(self)@.listeners == old(self)@.listeners,
            final(self)@.groups == old(self)@.groups,
            !old(self)@.listening() ==> r is None && final(self)@ == old(self)@,
            old(self)@.listening() ==> (r matches Some(handle) && handle.spec_index() == old(self)@.queue.next_index() && exists|id: u64, now: u64|
                final(self)@.queue == #[trigger] old(self)@.queue.started(id, now, event@)),
    {
        if self.registry.is_empty() {
            return None;
        }
        let handle = self.span_queue.start_span(event);
        proof {
            let (id, now) = choose|id: u64, now: u64|
                self.span_queue@ == #[trigger] old(self).span_queue@.started(id, now, event@);
            assert(self@.queue == old(self)@.queue.started(id, now, event@));
            lemma_queue_step_keeps_wf(old(self)@, self@);
        }
        Some(handle)
    }

    /// Finishes the span that `span_handle` names. A handle whose span is no longer held
    /// changes nothing.
    pub fn finish_span(&mut self, span_handle: SpanHandle)
        requires
            old(self).wf(),
        ensures
            final(self).wf(),
            final(self).same_sources(old(self)),
            final(self)@.listeners == old(self)@.listeners,
            final(self)@.groups == old(self)@.groups,
            exists|now: u64|
                final(self)@.queue == #[trigger] old(self)@.queue.finished(
                    span_handle.spec_index() as nat,
                    now,
                ),
    {
        self.span_queue.finish_span(span_handle);
        proof {
            let now = choose|now: u64|
                self.span_queue@ == #[trigger] old(self).span_queue@.finished(
                    span_handle.spec_index() as nat,
                    now,
                );
            assert(self@.queue == old(self)@.queue.finished(span_handle.spec_index() as nat, now));
            lemma_queue_step_keeps_wf(old(self)@, self@);
        }
    }

    pub fn start_root_external_span(&mut self, event: &'static str) -> (r: ScopeSpan)
        ensures
            final(self).wf() == old(self).wf(),
            final(self).same_sources(old(self)),
            final(self)@ == old(self)@,
            r.parent_id.0 == 0,
            r.event == event,
    {
        self.span_queue.start_root_external_span(event)
    }

    pub fn finish_external_span(&self, external_span: &ScopeSpan) -> (r: Span)
        ensures
            exists|now: u64| r@ == #[trigger] external_span.completed(now),
    {
        self.span_queue.finish_external_span(external_span)
    }

    /// Attaches `acquirer_group` to the line: from now on started spans are recorded, and
    /// those from the current next index on belong to the listener that is returned.
    pub fn register_now(&mut self, acquirer_group: Arc<AcquirerGroup>) -> (l: Listener)
        requires
            old(self).wf(),
        ensures
            final(self).wf(),
            final(self).same_sources(old(self)),
            l.queue_index == old(self)@.queue.next_index(),
            !old(self)@.groups.dom().contains(l.slab_index),
            final(self)@.queue == old(self)@.queue,
            final(self)@.listeners == old(self)@.listeners.push(l),
            final(self)@.groups == old(self)@.groups.insert(l.slab_index, acquirer_group),
    {
        let slab_idx = slab_insert(&mut self.local_acquirer_groups, acquirer_group);
        let l = Listener::new(self.span_queue.next_index(), slab_idx);
        self.registry.register(l);
        proof {
            let before = old(self)@.listeners;
            let at = choose|at: int|
                crate::registry::insertion_point(before, l.queue_index, at) && self.registry@
                    == before.insert(at, l);
            if at < before.len() {
                assert(before[at].queue_index > l.queue_index);
            }
            assert(self.registry@ =~= before.push(l));
            let after = self@;
            assert(after.listeners == before.push(l));
            assert(after.groups == old(self)@.groups.insert(slab_idx, acquirer_group));
            assert(old(self)@.wf());
            assert forall|key: usize| after.groups.dom().contains(key) implies exists|i: int|
                0 <= i < after.listeners.len() && (#[trigger] after.listeners[i]).slab_index
                    == key by {
                if key == slab_idx {
                    assert(after.listeners[before.len() as int].slab_index == key);
                } else {
                    let i = choose|i: int|
                        0 <= i < before.len() && (#[trigger] before[i]).slab_index == key;
                    assert(after.listeners[i].slab_index == key);
                }
            }
        }
        l
    }

    /// Detaches `listener` and returns its group with the completed spans of its part of the
    /// queue. The last listener to leave takes the spans with it and leaves the queue empty;
    /// any other gets copies, and the queue keeps what the earliest remaining listener owns.
    pub fn unregister_and_collect(&mut self, listener: Listener) -> (r: (Arc<AcquirerGroup>, Vec<Span>))
        requires
            old(self).wf(),
            old(self)@.registered(listener),
        ensures
            final(self).wf(),
            final(self).same_sources(old(self)),
            r.0 == old(self)@.groups[listener.slab_index],
            span_views(r.1@) == collected(old(self)@.queue.from(listener.queue_index as nat)),
            final(self)@.groups == old(self)@.groups.remove(listener.slab_index),
            exists|at: int|
                crate::registry::first_at(old(self)@.listeners, listener, at) && final(self)@.listeners == old(self)@.listeners.remove(at),
            final(self)@.queue == if final(self)@.listening() {
                old(self)@.queue.evicted(final(self)@.listeners[0].queue_index as nat)
            } else {
                old(self)@.queue.drained()
            },
            old(self)@.queue.traced() ==> forest(span_views(r.1@)) && final(self)@.queue.traced(),
    {
        proof {
            if old(self)@.queue.traced() {
                lemma_collected_forest(old(self)@.queue, listener.queue_index as nat);
            }
            let before = old(self)@.listeners;
            let i = choose|i: int| 0 <= i < before.len() && before[i] == listener;
            assert(old(self)@.groups.dom().contains(before[i].slab_index));
        }
        let acg = slab_remove(&mut self.local_acquirer_groups, listener.slab_index);
        self.registry.unregister(listener);
        proof {
            let before = old(self)@.listeners;
            let at = choose|at: int|
                crate::registry::first_at(before, listener, at) && self.registry@
                    == before.remove(at);
            let after = self.registry@;
            assert forall|i: int| 0 <= i < after.len() implies (#[trigger] after[i]).slab_index
                != listener.slab_index && before.contains(after[i]) by {
                if i < at {
                    assert(after[i] == before[i]);
                } else {
                    assert(after[i] == before[i + 1]);
                }
            }
            assert forall|key: usize|
                old(self)@.groups.remove(listener.slab_index).dom().contains(
                    key,
                ) implies exists|i: int|
                0 <= i < after.len() && (#[trigger] after[i]).slab_index == key by {
                let k = choose|k: int|
                    0 <= k < before.len() && (#[trigger] before[k]).slab_index == key;
                if k < at {
                    assert(after[k].slab_index == key);
                } else {
                    assert(k != at);
                    assert(after[k - 1].slab_index == key);
                }
            }
            assert forall|i: int, j: int| 0 <= i < j < after.len() implies (
            #[trigger] after[i]).slab_index != (#[trigger] after[j]).slab_index by {
                let a = if i < at { i } else { i + 1 };
                let b = if j < at { j } else { j + 1 };
                assert(after[i] == before[a]);
                assert(after[j] == before[b]);
            }
        }
        let raw = if self.registry.is_empty() {
            self.span_queue.into_iter_skip_to(listener.queue_index)
        } else {
            let raw = self.span_queue.iter_skip_to(listener.queue_index);
            self.gc();
            raw
        };
        let spans = Iter::new(raw).collect();
        (acg, spans)
    }

    /// A group for `event` that reports wherever the groups attached to this line report,
    /// or `None` where nobody listens or every collector has closed. Where somebody
    /// listens, a placeholder is pushed under the cursor, and the group's scope span hangs
    /// under it.
    pub fn registered_acquirer_group(&mut self, event: &'static str) -> (r: Option<AcquirerGroup>)
        requires
            old(self).wf(),
            old(self)@.listening() ==> old(self)@.queue.next_index() < usize::MAX,
        ensures
            final(self).wf(),
            final(self).same_sources(old(self)),
            final(self)@.listeners == old(self)@.listeners,
            final(self)@.groups == old(self)@.groups,
            !old(self)@.listening() ==> r is None && final(self)@ == old(self)@,
            old(self)@.listening() ==> exists|bridge_id: u64, now: u64|
                {
                    &&& final(self)@.queue == #[trigger] old(self)@.queue.bridged(
                        bridge_id,
                        now,
                        "<spawn>"@,
                    )
                    &&& r matches Some(g) ==> g.wf() && g.spec_scope_span().parent_id.0
                        == bridge_id && g.spec_scope_span().begin_cycles.0 == now
                        && g.spec_scope_span().event == event
                },
            r matches Some(g) ==> exists|
                entries: Seq<(usize, &Arc<AcquirerGroup>)>,
                shutdown: Seq<bool>,
            |
                by_key(old(self)@.groups, entries) && shutdown.len() == all_acquirers(
                    groups_of(entries),
                ).len() && g.spec_acquirers() == #[trigger] live_of(
                    all_acquirers(groups_of(entries)),
                    shutdown,
                ),
    {
        match self.start_external_span("<spawn>", event) {
            None => None,
            Some(es) => {
                let entries = slab_entries(&self.local_acquirer_groups);
                let n = entries.len();
                let mut groups: Vec<&AcquirerGroup> = Vec::new();
                let mut i: usize = 0;
                while i < n
                    invariant
                        n == entries.len(),
                        i <= n,
                        groups@ == groups_of(entries@.take(i as int)),
                    decreases n - i,
                {
                    let group: &AcquirerGroup = &**entries[i].1;
                    groups.push(group);
                    assert(groups@ =~= groups_of(entries@.take(i + 1)));
                    i = i + 1;
                }
                assert(entries@.take(n as int) =~= entries@);
                let r = AcquirerGroup::combine(&groups, es);
                proof {
                    if r is Some {
                        let g = r->0;
                        let shutdown = choose|shutdown: Seq<bool>|
                            shutdown.len() == all_acquirers(groups@).len() && g.wf()
                                && g.spec_scope_span() == es && g.spec_acquirers()
                                == #[trigger] live_of(all_acquirers(groups@), shutdown);
                        assert(g.spec_acquirers() == live_of(
                            all_acquirers(groups_of(entries@)),
                            shutdown,
                        ));
                    }
                }
                r
            },
        }
    }

    pub fn add_properties<F: FnOnce() -> Vec<(&'static str, String)>>(
        &mut self,
        span_handle: &SpanHandle,
        properties: F,
    )
        requires
            old(self).wf(),
            properties.requires(()),
        ensures
            final(self).wf(),
            final(self).same_sources(old(self)),
            final(self)@.listeners == old(self)@.listeners,
            final(self)@.groups == old(self)@.groups,
            !old(self)@.queue.holds(span_handle.spec_index() as nat) ==> final(self)@ == old(self)@,
            old(self)@.queue.holds(span_handle.spec_index() as nat) ==> exists|
                more: Vec<(&'static str, String)>,
            |
                properties.ensures((), more) && final(self)@.queue == #[trigger] old(self)@.queue.with_properties(span_handle.spec_index() as nat, property_views(more@)),
    {
        self.span_queue.add_properties(span_handle, properties);
        proof {
            lemma_queue_step_keeps_wf(old(self)@, self@);
            if old(self)@.queue.holds(span_handle.spec_index() as nat) {
                let more = choose|more: Vec<(&'static str, String)>|
                    properties.ensures((), more) && self.span_queue@ == #[trigger] old(self).span_queue@.with_properties(
                        span_handle.spec_index() as nat,
                        property_views(more@),
                    );
                assert(self@.queue == old(self)@.queue.with_properties(
                    span_handle.spec_index() as nat,
                    property_views(more@),
                ));
            }
        }
    }

    pub fn add_property<F: FnOnce() -> (&'static str, String)>(
        &mut self,
        span_handle: &SpanHandle,
        property: F,
    )
        requires
            old(self).wf(),
            property.requires(()),
        ensures
            final(self).wf(),
            final(self).same_sources(old(self)),
            final(self)@.listeners == old(self)@.listeners,
            final(self)@.groups == old(self)@.groups,
            !old(self)@.queue.holds(span_handle.spec_index() as nat) ==> final(self)@ == old(self)@,
            old(self)@.queue.holds(span_handle.spec_index() as nat) ==> exists|
                p: (&'static str, String),
            |
                property.ensures((), p) && final(self)@.queue == #[trigger] old(self)@.queue.with_properties(span_handle.spec_index() as nat, seq![property_view(p)]),
    {
        self.span_queue.add_property(span_handle, property);
        proof {
            lemma_queue_step_keeps_wf(old(self)@, self@);
            if old(self)@.queue.holds(span_handle.spec_index() as nat) {
                let p = choose|p: (&'static str, String)|
                    property.ensures((), p) && self.span_queue@ == #[trigger] old(self).span_queue@.with_properties(
                        span_handle.spec_index() as nat,
                        seq![property_view(p)],
                    );
                assert(self@.queue == old(self)@.queue.with_properties(
                    span_handle.spec_index() as nat,
                    seq![property_view(p)],
                ));
            }
        }
    }

    pub fn cycle_to_realtime(&self, cycle: Cycle) -> (r: Realtime)
        ensures
            r == self.spec_clock().realtime_of(cycle),
    {
        self.span_queue.cycle_to_realtime(cycle)
    }

    /// Drops from the queue what no listener owns any more.
    fn gc(&mut self)
        requires
            old(self).span_queue.wf(),
            old(self).registry.wf(),
        ensures
            final(self).span_queue.wf(),
            final(self).span_queue.same_sources(&old(self).span_queue),
            final(self).registry == old(self).registry,
            final(self).local_acquirer_groups == old(self).local_acquirer_groups,
            final(self).span_queue@ == if old(self).registry@.len() > 0 {
                old(self).span_queue@.evicted(old(self).registry@[0].queue_index as nat)
            } else {
                old(self).span_queue@
            },
            old(self).span_queue@.traced() ==> final(self).span_queue@.traced(),
    {
        if let Some(l) = self.registry.earliest() {
            self.span_queue.remove_before(l.queue_index);
        }
    }

    /// Where somebody listens: pushes a placeholder and returns a scope span under it.
    fn start_external_span(&mut self, placeholder_event: &'static str, event: &'static str) -> (r:
        Option<ScopeSpan>)
        requires
            old(self).wf(),
            old(self)@.listening() ==> old(self)@.queue.next_index() < usize::MAX,
        ensures
            final(self).wf(),
            final(self).same_sources(old(self)),
            final(self)@.listeners == old(self)@.listeners,
            final(self)@.groups == old(self)@.groups,
            final(self).local_acquirer_groups == old(self).local_acquirer_groups,
            !old(self)@.listening() ==> r is None && final(self)@ == old(self)@,
            old(self)@.listening() ==> (r matches Some(es) && es.event == event && final(self)@.queue == old(self)@.queue.bridged(
                es.parent_id.0,
                es.begin_cycles.0,
                placeholder_event@,
            )),
    {
        if self.registry.is_empty() {
            return None;
        }
        let es = self.span_queue.start_external_span(placeholder_event, event);
        proof {
            let bridge_id = choose|bridge_id: u64|
                es.parent_id.0 == bridge_id && self.span_queue@ == #[trigger] old(self).span_queue@.bridged(bridge_id, es.begin_cycles.0, placeholder_event@);
            assert(self@.queue == old(self)@.queue.bridged(
                es.parent_id.0,
                es.begin_cycles.0,
                placeholder_event@,
            ));
            lemma_queue_step_keeps_wf(old(self)@, self@);
        }
        Some(es)
    }
}

} // verus!
