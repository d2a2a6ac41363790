//! Batch-oriented tracing: per-thread span recording with fan-out to collectors.
//!
//! A thread records nested spans on its [`SpanLine`](span_line::SpanLine). Nothing is
//! recorded until a [`Scope`] is attached to the line; when the scope is detached, the
//! completed spans of its part of the line are sent to the scope's collectors.

use vstd::prelude::*;
use std::sync::Arc;
use std::sync::atomic::AtomicBool;
use crossbeam_channel::{Receiver, Sender};
use crate::cycle::{Clock, Cycle, Realtime};
use crate::span_id::{IdGenerator, TempIdGenerator};
use crate::span_line::SpanLine;

pub use crate::collector::Collector;
pub use crate::scope::Scope;
pub use crate::span::Span;
pub use crate::span_guard::LocalSpanGuard;

pub mod acquirer;
pub mod collections;
pub mod collector;
pub mod cycle;
pub mod local;
pub mod nesting;
pub mod registry;
pub mod scope;
pub mod scope_guard;
pub mod span;
pub mod span_guard;
pub mod span_id;
pub mod span_line;
pub mod span_queue;
pub mod tracer;
pub mod trapper;

verus! {

/// `crossbeam_channel::unbounded`: the two ends of a new channel without a capacity limit.
#[verifier::external_body]
fn unbounded_channel() -> (Sender<Vec<Span>>, Receiver<Vec<Span>>) {
    crossbeam_channel::unbounded()
}

/// A new trace: a scope for `event` whose scope span has no parent, and the collector to
/// which the scope reports.
pub fn root_scope<IG: IdGenerator, C: Clock>(span_line: &mut SpanLine<IG, C>, event: &'static str) -> (r:
    (Scope, Collector))
    ensures
        final(span_line).wf() == old(span_line).wf(),
        final(span_line).same_sources(old(span_line)),
        final(span_line)@ == old(span_line)@,
        r.0.spec_acquirer_group() matches Some(g) && g.wf() && g.spec_acquirers().len() == 1
            && g.spec_acquirers()[0].spec_closed() == r.1.spec_closed()
            && g.spec_scope_span().parent_id.0 == 0 && g.spec_scope_span().event == event,
{
    let (tx, rx) = unbounded_channel();
    let closed = Arc::new(AtomicBool::new(false));
    let scope = Scope::new_root_scope(span_line, event, Arc::new(tx), crate::acquirer::share(&closed));
    let collector = Collector::new(rx, closed);
    (scope, collector)
}

/// A scope for `event` that reports wherever the scopes attached to `span_line` report,
/// for work that continues elsewhere.
pub fn spawn_scope<IG: IdGenerator, C: Clock>(span_line: &mut SpanLine<IG, C>, event: &'static str) -> (r:
    Scope)
    requires
        old(span_line).wf(),
        old(span_line)@.listening() ==> old(span_line)@.queue.next_index() < usize::MAX,
    ensures
        final(span_line).wf(),
        final(span_line).same_sources(old(span_line)),
        final(span_line)@.listeners == old(span_line)@.listeners,
        final(span_line)@.groups == old(span_line)@.groups,
        !old(span_line)@.listening() ==> r.spec_acquirer_group() is None && final(span_line)@
            == old(span_line)@,
        old(span_line)@.listening() ==> exists|bridge_id: u64, now: u64|
            {
                &&& final(span_line)@.queue == #[trigger] old(span_line)@.queue.bridged(
                    bridge_id,
                    now,
                    "<spawn>"@,
                )
                &&& r.spec_acquirer_group() matches Some(g) ==> g.wf()
                    && g.spec_scope_span().parent_id.0 == bridge_id
                    && g.spec_scope_span().begin_cycles.0 == now && g.spec_scope_span().event
                    == event
            },
{
    Scope::new_scope(span_line, event)
}

/// Starts a span for `event` on `span_line`. With no scope attached to the line nothing is
/// recorded and the guard is inert.
pub fn new_span<IG: IdGenerator, C: Clock>(span_line: &mut SpanLine<IG, C>, event: &'static str) -> (r:
    LocalSpanGuard)
    requires
        old(span_line).wf(),
        old(span_line)@.listening() ==> old(span_line)@.queue.next_index() < usize::MAX,
    ensures
        final(span_line).wf(),
        final(span_line).same_sources(old(span_line)),
        final(span_line)@.listeners == old(span_line)@.listeners,
        final(span_line)@.groups == old(span_line)@.groups,
        !old(span_line)@.listening() ==> r.spec_index() is None && final(span_line)@ == old(span_line)@,
        old(span_line)@.listening() ==> r.spec_index() == Some(
            old(span_line)@.queue.next_index() as usize,
        ) && exists|id: u64, now: u64|
            final(span_line)@.queue == #[trigger] old(span_line)@.queue.started(id, now, event@),
{
    LocalSpanGuard::new(span_line, event)
}

/// Sets the upper half of the identifiers that `span_line` hands out from now on.
pub fn set_id_prefix<C: Clock>(span_line: &mut SpanLine<TempIdGenerator, C>, id_prefix: u32)
    ensures
        final(span_line).wf() == old(span_line).wf(),
        final(span_line)@ == old(span_line)@,
        final(span_line).spec_clock() == old(span_line).spec_clock(),
        final(span_line).spec_id_generator().spec_prefix() == id_prefix,
{
    span_line.id_generator_mut().set_prefix(id_prefix);
}

/// The wall-clock time of `cycle` on the clock of `span_line`.
pub fn cycle_to_realtime<IG: IdGenerator, C: Clock>(span_line: &SpanLine<IG, C>, cycle: Cycle) -> (r:
    Realtime)
    ensures
        r == span_line.spec_clock().realtime_of(cycle),
{
    span_line.cycle_to_realtime(cycle)
}

} // verus!
