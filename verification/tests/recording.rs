//! Recording on a span line with a clock and identifiers that the test controls.

use batch_tracing::acquirer::{Acquirer, AcquirerGroup};
use batch_tracing::cycle::{Clock, Cycle, Realtime};
use batch_tracing::scope_guard::LocalScopeGuard;
use batch_tracing::span::ScopeSpan;
use batch_tracing::span_id::{IdGenerator, SpanId};
use batch_tracing::span_line::{Iter, SpanLine};
use batch_tracing::span_queue::SpanQueue;
use batch_tracing::{cycle_to_realtime, new_span, root_scope, spawn_scope, Span};
use std::cell::Cell;
use std::rc::Rc;
use std::time::Duration;

/// A clock that advances by ten cycles with every reading; one cycle is one nanosecond.
struct StepClock {
    now: Rc<Cell<u64>>,
}

impl Clock for StepClock {
    fn now(&self) -> Cycle {
        let next = self.now.get() + 10;
        self.now.set(next);
        Cycle(next)
    }

    fn realtime_of(&self, cycle: Cycle) -> Realtime {
        Realtime { ns: cycle.0 }
    }

    fn cycle_to_realtime(&self, cycle: Cycle) -> Realtime {
        self.realtime_of(cycle)
    }
}

/// Identifiers 1, 2, 3, ... with a count of those handed out.
struct CountingIds {
    handed_out: Rc<Cell<u64>>,
}

impl IdGenerator for CountingIds {
    fn next_id(&self) -> SpanId {
        let next = self.handed_out.get() + 1;
        self.handed_out.set(next);
        SpanId(next)
    }
}

type Line = SpanLine<CountingIds, StepClock>;

fn new_line() -> (Line, Rc<Cell<u64>>, Rc<Cell<u64>>) {
    let ids = Rc::new(Cell::new(0));
    let now = Rc::new(Cell::new(0));
    let line = SpanLine::new(CountingIds { handed_out: ids.clone() }, StepClock { now: now.clone() });
    (line, ids, now)
}

fn by_event<'a>(spans: &'a [Span], event: &str) -> &'a Span {
    let found: Vec<&Span> = spans.iter().filter(|s| s.event == event).collect();
    assert_eq!(found.len(), 1, "{}", event);
    found[0]
}

/// Two sibling spans "a" and "b", then "c" inside "d".
fn workload(line: &mut Line) {
    let a = new_span(line, "a");
    a.finish(line);
    let b = new_span(line, "b");
    b.finish(line);
    let d = new_span(line, "d");
    let c = new_span(line, "c");
    c.finish(line);
    d.finish(line);
}

#[test]
fn single_scope_gives_exact_spans() {
    let (mut line, _, _) = new_line();
    // id 1, begin 10
    let (mut scope, collector) = root_scope(&mut line, "root");
    let sg = scope.start_scope(&mut line);
    workload(&mut line);
    sg.finish(&mut line);
    scope.release(&line);
    let spans = collector.collect(&line, None);

    assert_eq!(spans.len(), 5);
    let root = by_event(&spans, "root");
    let a = by_event(&spans, "a");
    let b = by_event(&spans, "b");
    let c = by_event(&spans, "c");
    let d = by_event(&spans, "d");

    assert_eq!(root.id, SpanId(1));
    assert_eq!(root.parent_id, SpanId(0));
    assert_eq!(a.id, SpanId(2));
    assert_eq!(b.id, SpanId(3));
    assert_eq!(d.id, SpanId(4));
    assert_eq!(c.id, SpanId(5));

    assert_eq!(a.parent_id, root.id);
    assert_eq!(b.parent_id, root.id);
    assert_eq!(d.parent_id, root.id);
    assert_eq!(c.parent_id, d.id);

    assert_eq!((root.begin_cycle, root.end_cycle), (Cycle(10), Cycle(100)));
    assert_eq!((a.begin_cycle, a.end_cycle), (Cycle(20), Cycle(30)));
    assert_eq!((b.begin_cycle, b.end_cycle), (Cycle(40), Cycle(50)));
    assert_eq!((d.begin_cycle, d.end_cycle), (Cycle(60), Cycle(90)));
    assert_eq!((c.begin_cycle, c.end_cycle), (Cycle(70), Cycle(80)));

    assert_eq!(a.descendant_count, 0);
    assert_eq!(b.descendant_count, 0);
    assert_eq!(d.descendant_count, 1);
    assert_eq!(c.descendant_count, 0);

    // Batches arrive in the order in which they were sent: the spans, then the root.
    let order: Vec<&str> = spans.iter().map(|s| s.event).collect();
    assert_eq!(order, vec!["a", "b", "d", "c", "root"]);
}

#[test]
fn children_lie_within_their_parents() {
    let (mut line, _, _) = new_line();
    let (mut scope, collector) = root_scope(&mut line, "root");
    let sg = scope.start_scope(&mut line);
    workload(&mut line);
    workload(&mut line);
    sg.finish(&mut line);
    scope.release(&line);
    let spans = collector.collect(&line, None);
    assert_eq!(spans.len(), 9);
    for span in &spans {
        assert!(span.begin_cycle.0 != 0 && span.end_cycle.0 != 0);
        assert!(span.end_cycle >= span.begin_cycle);
        if !span.is_root() {
            let parent = spans.iter().find(|p| p.id == span.parent_id).unwrap();
            assert!(span.begin_cycle >= parent.begin_cycle);
            assert!(span.end_cycle <= parent.end_cycle);
        }
    }
    // The descendant count is the number of spans under a span, at any depth.
    for span in &spans {
        let mut under = 0;
        for other in &spans {
            let mut at = other;
            while let Some(parent) = spans.iter().find(|p| p.id == at.parent_id) {
                if parent.id == span.id {
                    under += 1;
                    break;
                }
                at = parent;
            }
        }
        if span.event != "root" {
            assert_eq!(span.descendant_count, under, "{}", span.event);
        }
    }
}

#[test]
fn no_listener_no_record_no_identifier() {
    let (mut line, ids, now) = new_line();
    for _ in 0..10_000 {
        let g = new_span(&mut line, "x");
        assert!(!g.is_active());
        let g = g.with_property(&mut line, || -> (&'static str, String) {
            unreachable!()
        });
        g.finish(&mut line);
    }
    assert_eq!(line.next_index(), 0);
    assert_eq!(ids.get(), 0);
    assert_eq!(now.get(), 0);
}

#[test]
fn three_scopes_see_the_same_spans() {
    let (mut line, _, _) = new_line();
    let (mut s1, c1) = root_scope(&mut line, "root1");
    let (mut s2, c2) = root_scope(&mut line, "root2");
    let (mut s3, c3) = root_scope(&mut line, "root3");
    let g1 = s1.start_scope(&mut line);
    let g2 = s2.start_scope(&mut line);
    let g3 = s3.start_scope(&mut line);
    workload(&mut line);
    g1.finish(&mut line);
    g2.finish(&mut line);
    g3.finish(&mut line);
    s1.release(&line);
    s2.release(&line);
    s3.release(&line);
    let t1 = c1.collect(&line, None);
    let t2 = c2.collect(&line, None);
    let t3 = c3.collect(&line, None);
    for t in [&t1, &t2, &t3] {
        assert_eq!(t.len(), 5);
    }
    for event in ["a", "b", "c", "d"] {
        let x = by_event(&t1, event);
        for t in [&t2, &t3] {
            let y = by_event(t, event);
            assert_eq!(x.id, y.id);
            assert_eq!(x.begin_cycle, y.begin_cycle);
            assert_eq!(x.end_cycle, y.end_cycle);
        }
    }
    let r1 = by_event(&t1, "root1").id;
    let r2 = by_event(&t2, "root2").id;
    let r3 = by_event(&t3, "root3").id;
    assert!(r1 != r2 && r2 != r3 && r1 != r3);
    assert_eq!(by_event(&t1, "a").parent_id, r1);
    assert_eq!(by_event(&t2, "a").parent_id, r2);
    assert_eq!(by_event(&t3, "a").parent_id, r3);
    assert_eq!(by_event(&t3, "c").parent_id, by_event(&t3, "d").id);
}

#[test]
fn scope_attached_inside_a_span_gets_later_spans_only() {
    let (mut line, _, _) = new_line();
    let (mut outer, outer_collector) = root_scope(&mut line, "outer");
    let (mut inner, inner_collector) = root_scope(&mut line, "inner");
    let og = outer.start_scope(&mut line);
    let a = new_span(&mut line, "a");
    let ig = inner.start_scope(&mut line);
    let b = new_span(&mut line, "b");
    b.finish(&mut line);
    ig.finish(&mut line);
    a.finish(&mut line);
    og.finish(&mut line);
    inner.release(&line);
    outer.release(&line);

    let inner_spans = inner_collector.collect(&line, None);
    let events: Vec<&str> = inner_spans.iter().map(|s| s.event).collect();
    assert_eq!(events, vec!["b", "inner"]);
    assert_eq!(by_event(&inner_spans, "b").parent_id, by_event(&inner_spans, "inner").id);

    let outer_spans = outer_collector.collect(&line, None);
    let events: Vec<&str> = outer_spans.iter().map(|s| s.event).collect();
    assert_eq!(events, vec!["a", "b", "outer"]);
    assert_eq!(by_event(&outer_spans, "b").parent_id, by_event(&outer_spans, "a").id);
    assert_eq!(by_event(&outer_spans, "a").parent_id, by_event(&outer_spans, "outer").id);
    assert_eq!(by_event(&outer_spans, "a").descendant_count, 1);
}

#[test]
fn detached_scope_leaves_the_open_span_out() {
    let (mut line, _, _) = new_line();
    let (mut scope, collector) = root_scope(&mut line, "A");
    let sg = scope.start_scope(&mut line);
    let one = new_span(&mut line, "one");
    one.finish(&mut line);
    let two = new_span(&mut line, "two");
    two.finish(&mut line);
    let three = new_span(&mut line, "three");
    sg.finish(&mut line);
    assert_eq!(line.next_index(), 3);
    // The span is gone from the line: finishing it changes nothing.
    three.finish(&mut line);
    scope.release(&line);

    let spans = collector.collect(&line, None);
    let events: Vec<&str> = spans.iter().map(|s| s.event).collect();
    assert_eq!(events, vec!["one", "two", "A"]);
    let root = by_event(&spans, "A").id;
    assert_eq!(by_event(&spans, "one").parent_id, root);
    assert_eq!(by_event(&spans, "two").parent_id, root);
}

#[test]
fn unfinished_outer_span_keeps_finished_children() {
    let (mut line, _, _) = new_line();
    let (mut scope, collector) = root_scope(&mut line, "A");
    let sg = scope.start_scope(&mut line);
    let outer = new_span(&mut line, "outer");
    let x = new_span(&mut line, "x");
    let y = new_span(&mut line, "y");
    y.finish(&mut line);
    x.finish(&mut line);
    sg.finish(&mut line);
    outer.finish(&mut line);
    scope.release(&line);
    let spans = collector.collect(&line, None);
    let events: Vec<&str> = spans.iter().map(|s| s.event).collect();
    assert_eq!(events, vec!["x", "y", "A"]);
    assert_eq!(by_event(&spans, "x").parent_id, by_event(&spans, "A").id);
    assert_eq!(by_event(&spans, "y").parent_id, by_event(&spans, "x").id);
}

#[test]
fn cross_thread_spans_hang_under_the_spawning_span() {
    let (mut line, ids, now) = new_line();
    let (mut scope, collector) = root_scope(&mut line, "root");
    let sg = scope.start_scope(&mut line);
    let a = new_span(&mut line, "a");
    let mut remote = spawn_scope(&mut line, "remote");
    assert!(remote.is_active());
    a.finish(&mut line);

    // Another thread with a line of its own, on the same clock and identifiers.
    let mut other: Line =
        SpanLine::new(CountingIds { handed_out: ids.clone() }, StepClock { now: now.clone() });
    let rg = remote.start_scope(&mut other);
    let w = new_span(&mut other, "work");
    w.finish(&mut other);
    rg.finish(&mut other);
    remote.release(&other);

    sg.finish(&mut line);
    scope.release(&line);
    let spans = collector.collect(&line, None);
    let mut events: Vec<&str> = spans.iter().map(|s| s.event).collect();
    events.sort();
    assert_eq!(events, vec!["a", "remote", "root", "work"]);
    let a = by_event(&spans, "a");
    assert_eq!(by_event(&spans, "remote").parent_id, a.id);
    assert_eq!(by_event(&spans, "work").parent_id, by_event(&spans, "remote").id);
    assert_eq!(a.parent_id, by_event(&spans, "root").id);
    // The placeholder counted as a descendant of "a" while it was on the line.
    assert_eq!(a.descendant_count, 1);
}

#[test]
fn threshold_compares_the_root_duration() {
    // The root lasts from cycle 10 to cycle 100, that is 90 ns on this clock.
    for (threshold, expected) in [(91u64, 1usize), (90, 5), (1_000_000_000, 1), (0, 5)] {
        let (mut line, _, _) = new_line();
        let (mut scope, collector) = root_scope(&mut line, "root");
        let sg = scope.start_scope(&mut line);
        workload(&mut line);
        sg.finish(&mut line);
        scope.release(&line);
        let spans = collector.collect(&line, Some(Duration::from_nanos(threshold)));
        assert_eq!(spans.len(), expected, "threshold {}", threshold);
        if expected == 1 {
            assert_eq!(spans[0].event, "root");
        }
    }
}

#[test]
fn threshold_without_a_root_keeps_every_span() {
    let (mut line, _, _) = new_line();
    let (mut scope, collector) = root_scope(&mut line, "root");
    let sg = scope.start_scope(&mut line);
    workload(&mut line);
    sg.finish(&mut line);
    // The scope is still held: its scope span has not been sent.
    let spans = collector.collect(&line, Some(Duration::from_secs(1)));
    assert_eq!(spans.len(), 4);
    scope.release(&line);
}

#[test]
fn properties_are_kept_in_order() {
    let (mut line, _, _) = new_line();
    let (mut scope, collector) = root_scope(&mut line, "root");
    let sg = scope.start_scope(&mut line);
    let g = new_span(&mut line, "a");
    let g = g.with_property(&mut line, || ("k1", "v1".to_string()));
    let g = g.with_properties(&mut line, || {
        vec![("k2", "v2".to_string()), ("k3", "v3".to_string())]
    });
    let g = g.with_property(&mut line, || ("k1", "again".to_string()));
    g.finish(&mut line);
    sg.finish(&mut line);
    scope.release(&line);
    let spans = collector.collect(&line, None);
    let a = by_event(&spans, "a");
    assert_eq!(
        a.properties,
        vec![
            ("k1", "v1".to_string()),
            ("k2", "v2".to_string()),
            ("k3", "v3".to_string()),
            ("k1", "again".to_string()),
        ]
    );
    assert!(by_event(&spans, "root").properties.is_empty());
}

#[test]
fn span_queue_records_a_stack() {
    let ids = Rc::new(Cell::new(0));
    let now = Rc::new(Cell::new(0));
    let mut queue = SpanQueue::new(CountingIds { handed_out: ids }, StepClock { now });
    assert_eq!(queue.next_index(), 0);
    let a = queue.start_span("a");
    let b = queue.start_span("b");
    assert_eq!((a.index(), b.index()), (0, 1));
    let es = queue.start_external_span("<spawn>", "remote");
    assert_eq!(queue.next_index(), 3);
    queue.add_property(&b, || ("k", "v".to_string()));
    queue.finish_span(b);
    queue.finish_span(a);

    let spans = queue.iter_skip_to(0);
    assert_eq!(spans.len(), 3);
    assert_eq!((spans[0].id, spans[0].parent_id), (SpanId(1), SpanId(0)));
    assert_eq!((spans[1].id, spans[1].parent_id), (SpanId(2), SpanId(1)));
    assert_eq!((spans[2].id, spans[2].parent_id), (SpanId(3), SpanId(2)));
    assert!(spans[2].is_spawn_bridge);
    assert_eq!(spans[2].begin_cycle, spans[2].end_cycle);
    assert_eq!(spans[2].event, "<spawn>");
    assert_eq!((es.id, es.parent_id, es.begin_cycles), (SpanId(4), SpanId(3), Cycle(30)));
    assert_eq!(es.event, "remote");
    assert_eq!(spans[0].descendant_count, 2);
    assert_eq!(spans[1].descendant_count, 1);
    assert_eq!((spans[1].begin_cycle, spans[1].end_cycle), (Cycle(20), Cycle(40)));
    assert_eq!((spans[0].begin_cycle, spans[0].end_cycle), (Cycle(10), Cycle(50)));
    assert_eq!(spans[1].properties, vec![("k", "v".to_string())]);

    // The cursor is back at the start: the next span has no parent.
    let c = queue.start_span("c");
    assert_eq!(c.index(), 3);
    queue.remove_before(3);
    let rest = queue.iter_skip_to(0);
    assert_eq!(rest.len(), 1);
    assert_eq!(rest[0].parent_id, SpanId(0));
    assert_eq!(rest[0].end_cycle, Cycle(0));

    // A handle to an evicted span changes nothing.
    let stale = queue.start_span_with(SpanId(77), Cycle(1), "stale");
    let taken = queue.into_iter_skip_to(4);
    assert_eq!(taken.len(), 1);
    assert_eq!(taken[0].id, SpanId(77));
    assert_eq!(taken[0].parent_id, SpanId(5));
    assert_eq!(queue.next_index(), 5);
    queue.finish_span(stale);
    queue.finish_span(c);
    assert_eq!(queue.iter_skip_to(0).len(), 0);
    let d = queue.start_span("d");
    assert_eq!(d.index(), 5);
    assert_eq!(queue.iter_skip_to(0)[0].parent_id, SpanId(77));

    let root = queue.start_root_external_span("root");
    assert_eq!(root.parent_id, SpanId(0));
    let finished = queue.finish_external_span(&root);
    assert_eq!(finished.id, root.id);
    assert_eq!(finished.begin_cycle, root.begin_cycles);
    assert!(finished.end_cycle > finished.begin_cycle);
    assert_eq!(queue.cycle_to_realtime(Cycle(42)), Realtime { ns: 42 });
}

fn span(id: u64, parent: u64, begin: u64, end: u64, descendants: usize) -> Span {
    let mut s = Span::begin_with(SpanId(id), SpanId(parent), Cycle(begin), "s");
    s.end_with(Cycle(end), descendants);
    s
}

#[test]
fn filter_lets_finished_subtrees_through() {
    // 1 open; 2 finished with child 3; 4 open; 5 finished.
    let raw = vec![
        span(1, 0, 10, 0, 0),
        span(2, 1, 20, 50, 1),
        span(3, 2, 30, 40, 0),
        span(4, 1, 60, 0, 0),
        span(5, 4, 70, 80, 0),
    ];
    let out = Iter::new(raw).collect();
    let got: Vec<(u64, u64)> = out.iter().map(|s| (s.id.0, s.parent_id.0)).collect();
    assert_eq!(got, vec![(2, 0), (3, 2), (5, 0)]);
}

#[test]
fn filter_takes_descendants_as_they_are() {
    // The descendants of a finished span pass even when they look unfinished, and a count
    // that reaches past the end takes what there is.
    let raw = vec![span(1, 9, 10, 50, 1), span(2, 1, 20, 0, 0), span(3, 9, 60, 70, 5), span(4, 3, 61, 0, 0)];
    let mut iter = Iter::new(raw);
    let first = iter.next().unwrap();
    assert_eq!((first.id, first.parent_id), (SpanId(1), SpanId(0)));
    let second = iter.next().unwrap();
    assert_eq!((second.id, second.parent_id, second.end_cycle), (SpanId(2), SpanId(1), Cycle(0)));
    let rest = iter.collect();
    let got: Vec<(u64, u64)> = rest.iter().map(|s| (s.id.0, s.parent_id.0)).collect();
    assert_eq!(got, vec![(3, 0), (4, 3)]);
    assert!(Iter::new(vec![]).next().is_none());
    assert!(Iter::new(vec![span(1, 0, 1, 0, 0)]).next().is_none());
}

#[test]
fn scope_span_becomes_a_span() {
    let es = ScopeSpan::new(SpanId(5), SpanId(2), Cycle(100), "task");
    let s = es.to_span(Cycle(250));
    assert_eq!((s.id, s.parent_id), (SpanId(5), SpanId(2)));
    assert_eq!((s.begin_cycle, s.end_cycle), (Cycle(100), Cycle(250)));
    assert_eq!(s.event, "task");
    assert!(s.properties.is_empty());
    assert_eq!(s.descendant_count, 0);
    assert!(!s.is_spawn_bridge);
    assert!(!s.is_root());
    assert!(ScopeSpan::new(SpanId(5), SpanId(0), Cycle(1), "r").to_span(Cycle(2)).is_root());
    let copy = s.clone();
    assert_eq!(copy.id, s.id);
    assert_eq!(copy.properties, s.properties);
}

#[test]
fn line_converts_cycles_on_its_clock() {
    let (line, _, _) = new_line();
    assert_eq!(cycle_to_realtime(&line, Cycle(1234)), Realtime { ns: 1234 });
    assert_eq!(line.cycle_to_realtime(Cycle(7)).ns, 7);
}

#[test]
fn guard_with_no_group_is_inert() {
    let (mut line, _, _) = new_line();
    let guard = LocalScopeGuard::new(&mut line, None);
    assert!(!line.is_listening());
    guard.finish(&mut line);
    assert!(!line.is_listening());
}

#[test]
fn group_hangs_roots_under_its_scope_span() {
    let (tx, rx) = crossbeam_channel::unbounded();
    let closed = std::sync::Arc::new(std::sync::atomic::AtomicBool::new(false));
    let acquirer = Acquirer::new(std::sync::Arc::new(tx), closed);
    assert!(!acquirer.is_shutdown());
    let group = AcquirerGroup::new(
        ScopeSpan::new(SpanId(9), SpanId(0), Cycle(1), "task"),
        vec![acquirer.clone(), acquirer],
    );
    let mut spans = vec![span(1, 0, 10, 20, 0), span(2, 1, 11, 12, 0), span(3, 0, 30, 40, 0)];
    group.modify_root_spans(&mut spans);
    let parents: Vec<u64> = spans.iter().map(|s| s.parent_id.0).collect();
    assert_eq!(parents, vec![9, 1, 9]);

    group.submit(vec![span(4, 0, 1, 2, 0), span(5, 4, 1, 2, 0)]);
    group.submit_scope_span(group.scope_span().to_span(Cycle(99)));
    let batches: Vec<Vec<Span>> = rx.try_iter().collect();
    // Two acquirers on one channel: every batch arrives twice.
    assert_eq!(batches.len(), 4);
    for batch in &batches[..2] {
        let got: Vec<(u64, u64)> = batch.iter().map(|s| (s.id.0, s.parent_id.0)).collect();
        assert_eq!(got, vec![(4, 9), (5, 4)]);
    }
    for batch in &batches[2..] {
        assert_eq!(batch.len(), 1);
        assert_eq!((batch[0].id, batch[0].end_cycle), (SpanId(9), Cycle(99)));
    }
}
