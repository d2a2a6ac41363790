//! Making and ending acquirer groups on a span line.

use vstd::prelude::*;
use std::sync::Arc;
use crate::acquirer::{all_acquirers, into_last, live_of, Acquirer, AcquirerGroup};
use crate::cycle::Clock;
use crate::span::ScopeSpan;
use crate::span_id::IdGenerator;
use crate::span_line::{by_key, groups_of, SpanLine};

verus! {

/// A group that reports wherever the groups attached to `span_line` report, or `None` where
/// nobody listens or every collector has closed.
pub fn registered_acquirer_group<IG: IdGenerator, C: Clock>(
    span_line: &mut SpanLine<IG, C>,
    event: &'static str,
) -> (r: Option<AcquirerGroup>)
    requires
        old(span_line).wf(),
        old(span_line)@.listening() ==> old(span_line)@.queue.next_index() < usize::MAX,
    ensures
        final(span_line).wf(),
        final(span_line).same_sources(old(span_line)),
        final(span_line)@.listeners == old(span_line)@.listeners,
        final(span_line)@.groups == old(span_line)@.groups,
        !old(span_line)@.listening() ==> r is None && final(span_line)@ == old(span_line)@,
        old(span_line)@.listening() ==> exists|bridge_id: u64, now: u64|
            {
                &&& final(span_line)@.queue == #[trigger] old(span_line)@.queue.bridged(
                    bridge_id,
                    now,
                    "<spawn>"@,
                )
                &&& r matches Some(g) ==> g.wf() && g.spec_scope_span().parent_id.0 == bridge_id
                    && g.spec_scope_span().begin_cycles.0 == now && g.spec_scope_span().event
                    == event
            },
        r matches Some(g) ==> exists|
            entries: Seq<(usize, &Arc<AcquirerGroup>)>,
            shutdown: Seq<bool>,
        |
            by_key(old(span_line)@.groups, entries) && shutdown.len() == all_acquirers(
                groups_of(entries),
            ).len() && g.spec_acquirers() == #[trigger] live_of(
                all_acquirers(groups_of(entries)),
                shutdown,
            ),
{
    span_line.registered_acquirer_group(event)
}

/// A group of the one acquirer `acquirer`, with a scope span for `event` that has no parent.
pub fn root_acquirer_group<IG: IdGenerator, C: Clock>(
    span_line: &mut SpanLine<IG, C>,
    acquirer: Acquirer,
    event: &'static str,
) -> (r: AcquirerGroup)
    ensures
        final(span_line).wf() == old(span_line).wf(),
        final(span_line).same_sources(old(span_line)),
        final(span_line)@ == old(span_line)@,
        r.wf(),
        r.spec_acquirers() == seq![acquirer],
        r.spec_scope_span().parent_id.0 == 0,
        r.spec_scope_span().event == event,
{
    let span = span_line.start_root_external_span(event);
    let mut acquirers: Vec<Acquirer> = Vec::new();
    acquirers.push(acquirer);
    AcquirerGroup::new(span, acquirers)
}

/// Finishes `task_span` at the reading of the line's clock and sends it to every acquirer
/// of `acg`.
pub fn submit_task_span<IG: IdGenerator, C: Clock>(
    span_line: &SpanLine<IG, C>,
    acg: &AcquirerGroup,
    task_span: &ScopeSpan,
) {
    let s = span_line.finish_external_span(task_span);
    acg.submit_scope_span(s);
}

/// Gives up one handle to a group. Where it was the last one, the scope is over: the
/// group's scope span is finished and sent to every acquirer.
pub fn release_acquirer_group<IG: IdGenerator, C: Clock>(
    span_line: &SpanLine<IG, C>,
    acg: Arc<AcquirerGroup>,
) {
    match into_last(acg) {
        Some(group) => {
            let task_span = group.scope_span();
            submit_task_span(span_line, &group, &task_span);
        },
        None => {},
    }
}

} // verus!
