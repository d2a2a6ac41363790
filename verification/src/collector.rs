//! The consuming end of a trace: draining the channel and settling what arrived.

use vstd::prelude::*;
use std::collections::HashMap;
use std::sync::Arc;
use std::sync::atomic::{AtomicBool, Ordering};
use std::time::Duration;
use crossbeam_channel::Receiver;
use crate::cycle::{duration_nanos, Clock, Cycle};
use crate::span::{span_views, Span, SpanData};
use crate::span_id::{IdGenerator, SpanId};
use crate::span_line::SpanLine;

verus! {

broadcast use vstd::std_specs::hash::group_hash_axioms;

#[verifier::external_type_specification]
#[verifier::external_body]
#[verifier::reject_recursive_types(T)]
pub struct ExReceiver<T>(Receiver<T>);

/// `crossbeam_channel::Receiver::try_iter`, run to its end: the batches that are in the
/// channel, without waiting for more. Nothing is claimed of them.
#[verifier::external_body]
fn drain_batches(receiver: &Receiver<Vec<Span>>) -> Vec<Vec<Span>> {
    receiver.try_iter().collect()
}

/// For each placeholder of `spans`, by its identifier, the parent of the placeholder. Of
/// two placeholders with one identifier the later one counts.
pub open spec fn bridge_parents(spans: Seq<SpanData>) -> Map<u64, u64>
    decreases spans.len(),
{
    if spans.len() == 0 {
        Map::empty()
    } else if spans.last().is_spawn_bridge {
        bridge_parents(spans.drop_last()).insert(spans.last().id, spans.last().parent_id)
    } else {
        bridge_parents(spans.drop_last())
    }
}

/// A span that hangs under a placeholder is hung under the placeholder's parent.
pub open spec fn relinked(span: SpanData, bridges: Map<u64, u64>) -> SpanData {
    if bridges.dom().contains(span.parent_id) {
        span.with_parent(bridges[span.parent_id])
    } else {
        span
    }
}

/// `spans` without the placeholders.
pub open spec fn without_bridges(spans: Seq<SpanData>) -> Seq<SpanData>
    decreases spans.len(),
{
    if spans.len() == 0 {
        Seq::empty()
    } else if spans.last().is_spawn_bridge {
        without_bridges(spans.drop_last())
    } else {
        without_bridges(spans.drop_last()).push(spans.last())
    }
}

/// The spans with every placeholder taken out of the chain from child to parent, and out
/// of the spans.
pub open spec fn reconciled(spans: Seq<SpanData>) -> Seq<SpanData> {
    without_bridges(spans.map_values(|s: SpanData| relinked(s, bridge_parents(spans))))
}

/// The batches one after another.
pub open spec fn flattened(batches: Seq<Vec<Span>>) -> Seq<SpanData>
    decreases batches.len(),
{
    if batches.len() == 0 {
        Seq::empty()
    } else {
        flattened(batches.drop_last()) + span_views(batches.last()@)
    }
}

/// The place of the first span without a parent, or the length where there is none.
pub open spec fn first_root(spans: Seq<SpanData>) -> int
    decreases spans.len(),
{
    if spans.len() == 0 {
        0
    } else if spans[0].is_root() {
        0
    } else {
        1 + first_root(spans.skip(1))
    }
}

/// The wall-clock nanoseconds from the span's begin to its end on `clock`; 0 where the end
/// does not come after the begin.
pub open spec fn wall_nanos<C: Clock>(clock: &C, span: SpanData) -> int {
    let begin = clock.realtime_of(Cycle(span.begin_cycle)).ns;
    let end = clock.realtime_of(Cycle(span.end_cycle)).ns;
    if end >= begin {
        end - begin
    } else {
        0
    }
}

/// What a collector returns for the spans `spans` that it received: the first root span
/// alone where a threshold is given and that span lasted less; else the reconciled spans.
pub open spec fn settled<C: Clock>(
    spans: Seq<SpanData>,
    clock: &C,
    duration_threshold: Option<Duration>,
) -> Seq<SpanData> {
    let root = first_root(spans);
    if duration_threshold is Some && root < spans.len() && wall_nanos(clock, spans[root])
        < duration_nanos(duration_threshold.unwrap()) {
        seq![spans[root]]
    } else {
        reconciled(spans)
    }
}

/// The receiving end of one trace.
pub struct Collector {
    receiver: Receiver<Vec<Span>>,
    closed: Arc<AtomicBool>,
}

impl Collector {
    pub closed spec fn spec_receiver(&self) -> Receiver<Vec<Span>> {
        self.receiver
    }

    pub closed spec fn spec_closed(&self) -> Arc<AtomicBool> {
        self.closed
    }

    pub fn new(receiver: Receiver<Vec<Span>>, closed: Arc<AtomicBool>) -> (r: Self)
        ensures
            r.spec_receiver() == receiver,
            r.spec_closed() == closed,
    {
        Collector { receiver, closed }
    }

    /// Collects spans from traced routines.
    ///
    /// If passing `duration_threshold`, all spans will be reserved only when duration of the
    /// root span exceeds `duration_threshold`, otherwise only one span, the root span, will be
    /// returned.
    pub fn collect<IG: IdGenerator, C: Clock>(
        self,
        span_line: &SpanLine<IG, C>,
        duration_threshold: Option<Duration>,
    ) -> (r: Vec<Span>)
        ensures
            exists|received: Seq<SpanData>|
                span_views(r@) == #[trigger] settled(
                    received,
                    &span_line.spec_clock(),
                    duration_threshold,
                ),
    {
        let batches = drain_batches(&self.receiver);
        let spans = Collector::flatten(batches);
        self.closed.store(true, Ordering::SeqCst);
        let ghost received = span_views(spans@);
        let r = Collector::settle(spans, span_line.clock(), duration_threshold);
        assert(span_views(r@) == settled(received, &span_line.spec_clock(), duration_threshold));
        r
    }

    /// The spans of all batches, batch after batch.
    pub fn flatten(batches: Vec<Vec<Span>>) -> (r: Vec<Span>)
        ensures
            span_views(r@) == flattened(batches@),
    {
        let mut batches = batches;
        let ghost all = batches@;
        let n = batches.len();
        let mut out: Vec<Span> = Vec::new();
        let mut i: usize = 0;
        while i < n
            invariant
                n == batches.len(),
                n == all.len(),
                i <= n,
                forall|j: int| i <= j < n ==> batches[j] == all[j],
                span_views(out@) == flattened(all.take(i as int)),
            decreases n - i,
        {
            let mut batch: Vec<Span> = Vec::new();
            std::mem::swap(&mut batch, &mut batches[i]);
            let ghost held = out@;
            out.append(&mut batch);
            proof {
                assert(all.take(i + 1).drop_last() =~= all.take(i as int));
                assert(span_views(held + all[i as int]@) =~= span_views(held) + span_views(
                    all[i as int]@,
                ));
            }
            i = i + 1;
        }
        assert(all.take(n as int) =~= all);
        out
    }

    /// What `collect` returns for the spans `spans` that were received.
    pub fn settle<C: Clock>(spans: Vec<Span>, clock: &C, duration_threshold: Option<Duration>) -> (r:
        Vec<Span>)
        ensures
            span_views(r@) == settled(span_views(spans@), clock, duration_threshold),
    {
        match duration_threshold {
            Some(duration) => {
                let root = Collector::find_root(&spans);
                if root < spans.len() {
                    let span = &spans[root];
                    let begin = clock.cycle_to_realtime(span.begin_cycle).ns;
                    let end = clock.cycle_to_realtime(span.end_cycle).ns;
                    let duration_ns: u64 = if end >= begin {
                        end - begin
                    } else {
                        0
                    };
                    if (duration_ns as u128) < duration.as_nanos() {
                        let mut only: Vec<Span> = Vec::new();
                        only.push(span.clone());
                        assert(span_views(only@) =~= seq![span_views(spans@)[root as int]]);
                        return only;
                    }
                }
            },
            None => {},
        }
        Collector::remove_spawn_spans(spans)
    }

    /// The place of the first span of `spans` without a parent; the length where there is
    /// none.
    pub fn find_root(spans: &Vec<Span>) -> (r: usize)
        ensures
            r == first_root(span_views(spans@)),
            r <= spans.len(),
    {
        let n = spans.len();
        let ghost all = span_views(spans@);
        let mut i: usize = 0;
        assert(all.skip(0) =~= all);
        while i < n
            invariant
                n == spans.len(),
                all == span_views(spans@),
                i <= n,
                first_root(all) == i + first_root(all.skip(i as int)),
            decreases n - i,
        {
            if spans[i].is_root() {
                return i;
            }
            assert(all.skip(i as int).skip(1) =~= all.skip(i + 1));
            i = i + 1;
        }
        i
    }

    /// Takes every placeholder out: what hung under one hangs under its parent, and the
    /// placeholders themselves are dropped.
    pub fn remove_spawn_spans(spans: Vec<Span>) -> (r: Vec<Span>)
        ensures
            span_views(r@) == reconciled(span_views(spans@)),
    {
        let mut spans = spans;
        let ghost all = span_views(spans@);
        let n = spans.len();
        let mut spawn_spans: HashMap<u64, u64> = HashMap::new();
        let mut i: usize = 0;
        while i < n
            invariant
                n == spans.len(),
                all == span_views(spans@),
                i <= n,
                spawn_spans@ == bridge_parents(all.take(i as int)),
            decreases n - i,
        {
            assert(all.take(i + 1).drop_last() =~= all.take(i as int));
            if spans[i].is_spawn_bridge {
                spawn_spans.insert(spans[i].id.0, spans[i].parent_id.0);
            }
            i = i + 1;
        }
        assert(all.take(n as int) =~= all);
        let ghost bridges = bridge_parents(all);
        let ghost linked = all.map_values(|s: SpanData| relinked(s, bridges));

        let mut i: usize = 0;
        while i < n
            invariant
                n == spans.len(),
                n == all.len(),
                i <= n,
                spawn_spans@ == bridges,
                linked == all.map_values(|s: SpanData| relinked(s, bridges)),
                forall|j: int| 0 <= j < i ==> (#[trigger] spans[j])@ == linked[j],
                forall|j: int| i <= j < n ==> (#[trigger] spans[j])@ == all[j],
            decreases n - i,
        {
            let parent: u64 = spans[i].parent_id.0;
            match spawn_spans.get(&parent) {
                Some(p) => {
                    let p: u64 = *p;
                    spans[i].parent_id = SpanId(p);
                },
                None => {},
            }
            i = i + 1;
        }
        assert(span_views(spans@) =~= linked);

        let mut stack: Vec<Span> = Vec::new();
        while spans.len() > 0
            invariant
                linked == span_views(spans@) + span_views(stack@).reverse(),
            decreases spans.len(),
        {
            let ghost before = spans@;
            let ghost stacked = stack@;
            let span = spans.pop().unwrap();
            stack.push(span);
            assert(span_views(before) =~= span_views(spans@).push(span@));
            assert(span_views(stack@).reverse() =~= seq![span@] + span_views(stacked).reverse());
            assert(linked =~= span_views(spans@) + span_views(stack@).reverse());
        }
        assert(linked =~= span_views(stack@).reverse());

        let mut out: Vec<Span> = Vec::new();
        let ghost mut done: int = 0;
        while stack.len() > 0
            invariant
                0 <= done <= linked.len(),
                span_views(stack@).reverse() == linked.skip(done),
                span_views(out@) == without_bridges(linked.take(done)),
            decreases stack.len(),
        {
            let ghost before = stack@;
            let ghost kept = out@;
            let span = stack.pop().unwrap();
            proof {
                let rest = span_views(before).reverse();
                assert(rest.len() == before.len());
                assert(rest.len() == linked.len() - done);
                assert(rest[0] == span@);
                assert(linked.skip(done)[0] == linked[done]);
                assert(linked[done] == span@);
                assert(span_views(stack@).reverse() =~= rest.skip(1));
                assert(rest.skip(1) =~= linked.skip(done + 1));
                assert(linked.take(done + 1).drop_last() =~= linked.take(done));
            }
            if !span.is_spawn_bridge {
                out.push(span);
                assert(span_views(out@) =~= span_views(kept).push(span@));
            }
            proof {
                done = done + 1;
            }
        }
        assert(linked.take(done) =~= linked);
        out
    }
}

/// Nothing that is left after the placeholders are taken out is a placeholder.
pub proof fn lemma_without_bridges_has_none(spans: Seq<SpanData>)
    ensures
        forall|i: int|
            0 <= i < without_bridges(spans).len() ==> !(#[trigger] without_bridges(
                spans,
            )[i]).is_spawn_bridge,
    decreases spans.len(),
{
    if spans.len() > 0 {
        let front = without_bridges(spans.drop_last());
        lemma_without_bridges_has_none(spans.drop_last());
        assert forall|i: int| 0 <= i < without_bridges(spans).len() implies !(
        #[trigger] without_bridges(spans)[i]).is_spawn_bridge by {
            if i < front.len() {
                assert(without_bridges(spans)[i] == front[i]);
            }
        }
    }
}

/// Spans without a placeholder among them have no placeholder to go by, and taking the
/// placeholders out leaves them as they are.
pub proof fn lemma_no_bridges_fixed(spans: Seq<SpanData>)
    requires
        forall|i: int| 0 <= i < spans.len() ==> !(#[trigger] spans[i]).is_spawn_bridge,
    ensures
        bridge_parents(spans) == Map::<u64, u64>::empty(),
        without_bridges(spans) == spans,
        reconciled(spans) == spans,
    decreases spans.len(),
{
    if spans.len() > 0 {
        let front = spans.drop_last();
        assert forall|i: int| 0 <= i < front.len() implies !(#[trigger] front[i]).is_spawn_bridge by {
            assert(front[i] == spans[i]);
        }
        lemma_no_bridges_fixed(front);
        assert(!spans.last().is_spawn_bridge);
        assert(front.push(spans.last()) =~= spans);
    } else {
        assert(without_bridges(spans) =~= spans);
    }
    let bridges = bridge_parents(spans);
    assert(spans.map_values(|s: SpanData| relinked(s, bridges)) =~= spans);
}

/// Reconciling twice gives what reconciling once gives.
pub proof fn lemma_reconciled_idempotent(spans: Seq<SpanData>)
    ensures
        reconciled(reconciled(spans)) == reconciled(spans),
{
    let bridges = bridge_parents(spans);
    lemma_without_bridges_has_none(spans.map_values(|s: SpanData| relinked(s, bridges)));
    lemma_no_bridges_fixed(reconciled(spans));
}

/// Every span has no parent or has its parent among the spans.
pub open spec fn parents_present(spans: Seq<SpanData>) -> bool {
    forall|j: int|
        0 <= j < spans.len() ==> (#[trigger] spans[j]).parent_id == 0 || exists|i: int|
            0 <= i < spans.len() && (#[trigger] spans[i]).id == spans[j].parent_id
}

/// No placeholder hangs under a placeholder.
pub open spec fn bridges_apart(spans: Seq<SpanData>) -> bool {
    forall|b: int|
        0 <= b < spans.len() && (#[trigger] spans[b]).is_spawn_bridge ==> !bridge_parents(
            spans,
        ).dom().contains(spans[b].parent_id)
}

/// The placeholders' identifiers are those that `bridge_parents` knows, each with the
/// parent of a placeholder that has it.
pub proof fn lemma_bridge_parents(spans: Seq<SpanData>)
    ensures
        forall|b: int|
            0 <= b < spans.len() && (#[trigger] spans[b]).is_spawn_bridge ==> bridge_parents(
                spans,
            ).dom().contains(spans[b].id),
        forall|id: u64|
            bridge_parents(spans).dom().contains(id) ==> exists|b: int|
                0 <= b < spans.len() && (#[trigger] spans[b]).is_spawn_bridge && spans[b].id == id
                    && spans[b].parent_id == bridge_parents(spans)[id],
    decreases spans.len(),
{
    if spans.len() > 0 {
        let front = spans.drop_last();
        let last = spans.len() - 1;
        lemma_bridge_parents(front);
        assert forall|b: int|
            0 <= b < spans.len() && (#[trigger] spans[b]).is_spawn_bridge implies bridge_parents(
            spans,
        ).dom().contains(spans[b].id) by {
            if b < last {
                assert(front[b] == spans[b]);
            }
        }
        assert forall|id: u64| bridge_parents(spans).dom().contains(id) implies exists|b: int|
            0 <= b < spans.len() && (#[trigger] spans[b]).is_spawn_bridge && spans[b].id == id
                && spans[b].parent_id == bridge_parents(spans)[id] by {
            if spans[last].is_spawn_bridge && spans[last].id == id {
                assert(spans[last].parent_id == bridge_parents(spans)[id]);
            } else {
                assert(bridge_parents(front).dom().contains(id));
                let b = choose|b: int|
                    0 <= b < front.len() && (#[trigger] front[b]).is_spawn_bridge && front[b].id
                        == id && front[b].parent_id == bridge_parents(front)[id];
                assert(spans[b] == front[b]);
            }
        }
    }
}

/// The span `x` is one of `spans` and no placeholder.
pub open spec fn kept_of(spans: Seq<SpanData>, x: SpanData) -> bool {
    exists|j: int| 0 <= j < spans.len() && !(#[trigger] spans[j]).is_spawn_bridge && spans[j] == x
}

/// What is left when the placeholders are taken out are the other spans, all of them.
pub proof fn lemma_without_bridges_members(spans: Seq<SpanData>)
    ensures
        forall|k: int|
            0 <= k < without_bridges(spans).len() ==> kept_of(
                spans,
                #[trigger] without_bridges(spans)[k],
            ),
        forall|j: int|
            0 <= j < spans.len() && !(#[trigger] spans[j]).is_spawn_bridge ==> without_bridges(
                spans,
            ).contains(spans[j]),
    decreases spans.len(),
{
    if spans.len() > 0 {
        let front = spans.drop_last();
        let last = spans.len() - 1;
        let kept = without_bridges(front);
        let out = without_bridges(spans);
        lemma_without_bridges_members(front);
        assert forall|k: int| 0 <= k < out.len() implies kept_of(spans, #[trigger] out[k]) by {
            if k < kept.len() {
                assert(out[k] == kept[k]);
                assert(kept_of(front, kept[k]));
                let j = choose|j: int|
                    0 <= j < front.len() && !(#[trigger] front[j]).is_spawn_bridge && front[j]
                        == kept[k];
                assert(spans[j] == front[j]);
            } else {
                assert(spans[last] == out[k]);
            }
        }
        assert forall|j: int|
            0 <= j < spans.len() && !(#[trigger] spans[j]).is_spawn_bridge implies out.contains(
            spans[j],
        ) by {
            if j < last {
                assert(front[j] == spans[j]);
                assert(kept.contains(front[j]));
                let k = choose|k: int| 0 <= k < kept.len() && kept[k] == front[j];
                assert(out[k] == spans[j]);
            } else {
                assert(out[kept.len() as int] == spans[j]);
            }
        }
    }
}

/// Where every parent is among the spans and no placeholder hangs under a placeholder,
/// every parent is still among the spans once they are reconciled.
pub proof fn lemma_reconciled_parents_present(spans: Seq<SpanData>)
    requires
        parents_present(spans),
        bridges_apart(spans),
    ensures
        parents_present(reconciled(spans)),
{
    let bridges = bridge_parents(spans);
    let linked = spans.map_values(|s: SpanData| relinked(s, bridges));
    let out = reconciled(spans);
    lemma_bridge_parents(spans);
    lemma_without_bridges_members(linked);
    assert forall|k: int| 0 <= k < out.len() implies (#[trigger] out[k]).parent_id == 0 || exists|
        i: int,
    |
        0 <= i < out.len() && (#[trigger] out[i]).id == out[k].parent_id by {
        assert(kept_of(linked, out[k]));
        let j = choose|j: int|
            0 <= j < linked.len() && !(#[trigger] linked[j]).is_spawn_bridge && linked[j]
                == out[k];
        assert(linked[j] == relinked(spans[j], bridges));
        let parent = out[k].parent_id;
        // The parent is no placeholder's identifier.
        assert(!bridges.dom().contains(parent)) by {
            if bridges.dom().contains(spans[j].parent_id) {
                let b = choose|b: int|
                    0 <= b < spans.len() && (#[trigger] spans[b]).is_spawn_bridge && spans[b].id
                        == spans[j].parent_id && spans[b].parent_id
                        == bridges[spans[j].parent_id];
                assert(parent == spans[b].parent_id);
            }
        }
        if parent != 0 {
            // Some span has it as its identifier: its own parent's, or the parent's of the
            // placeholder under which it hung.
            let m = if bridges.dom().contains(spans[j].parent_id) {
                choose|b: int|
                    0 <= b < spans.len() && (#[trigger] spans[b]).is_spawn_bridge && spans[b].id
                        == spans[j].parent_id && spans[b].parent_id
                        == bridges[spans[j].parent_id]
            } else {
                j
            };
            assert(spans[m].parent_id == parent);
            let i = choose|i: int| 0 <= i < spans.len() && (#[trigger] spans[i]).id == parent;
            assert(!spans[i].is_spawn_bridge);
            assert(linked[i] == relinked(spans[i], bridges));
            assert(!linked[i].is_spawn_bridge);
            assert(out.contains(linked[i]));
            let at = choose|at: int| 0 <= at < out.len() && out[at] == linked[i];
            assert(out[at].id == parent);
        }
    }
}

} // verus!
