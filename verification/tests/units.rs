//! The parts on their own: queue, registry, clock, identifiers, groups, collector.

use batch_tracing::acquirer::{copy_spans, Acquirer, AcquirerGroup};
use batch_tracing::collections::queue::FixedIndexQueue;
use batch_tracing::cycle::{saturating_nanos, Anchor, Clock, Cycle, DefaultClock, Realtime};
use batch_tracing::local::{
    registered_acquirer_group, release_acquirer_group, root_acquirer_group, submit_task_span,
};
use batch_tracing::registry::{Listener, Registry};
use batch_tracing::span::ScopeSpan;
use batch_tracing::span_id::{IdGenerator, SpanId, TempIdGenerator};
use batch_tracing::span_line::SpanLine;
use batch_tracing::tracer::Tracer;
use batch_tracing::trapper::Trapper;
use batch_tracing::{new_span, set_id_prefix, Collector, Span};
use crossbeam_channel::{unbounded, Receiver};
use std::sync::atomic::{AtomicBool, AtomicU32, Ordering};
use std::sync::Arc;
use std::time::Duration;

fn span(id: u64, parent: u64, begin: u64, end: u64, descendants: usize, bridge: bool) -> Span {
    Span {
        id: SpanId(id),
        parent_id: SpanId(parent),
        begin_cycle: Cycle(begin),
        event: "s",
        properties: vec![],
        end_cycle: Cycle(end),
        descendant_count: descendants,
        is_spawn_bridge: bridge,
    }
}

fn links(spans: &[Span]) -> Vec<(u64, u64)> {
    spans.iter().map(|s| (s.id.0, s.parent_id.0)).collect()
}

fn process_line() -> SpanLine<TempIdGenerator, DefaultClock> {
    SpanLine::new(TempIdGenerator::new(), DefaultClock::new(Anchor::sample().unwrap()))
}

fn acquirer() -> (Acquirer, Receiver<Vec<Span>>, Arc<AtomicBool>) {
    let (tx, rx) = unbounded();
    let closed = Arc::new(AtomicBool::new(false));
    (Acquirer::new(Arc::new(tx), closed.clone()), rx, closed)
}

#[test]
fn queue_indices_stay_stable() {
    let mut q: FixedIndexQueue<&'static str> = FixedIndexQueue::new();
    assert!(q.is_empty());
    assert_eq!((q.front_index(), q.next_index()), (0, 0));
    assert_eq!(q.push_back("a"), 0);
    assert_eq!(q.push_back("b"), 1);
    assert_eq!(q.push_back("c"), 2);
    assert_eq!(q.len(), 3);
    assert_eq!(q.get(1), Some(&"b"));
    assert_eq!(q.get(3), None);
    assert!(q.idx_is_valid(2) && !q.idx_is_valid(3));

    q.remove_before(2);
    assert_eq!((q.front_index(), q.next_index(), q.len()), (2, 3, 1));
    assert_eq!(q.get(1), None);
    assert_eq!(q.get(2), Some(&"c"));
    assert!(!q.idx_is_valid(1));

    // An index that was passed already changes nothing.
    q.remove_before(0);
    assert_eq!((q.front_index(), q.len()), (2, 1));

    assert_eq!(q.push_back("d"), 3);
    *q.get_mut(3) = "D";
    *q.get_mut(2) = "C";
    assert_eq!(q.iter_ref_skip_to(0), vec![&"C", &"D"]);
    assert_eq!(q.iter_ref_skip_to(3), vec![&"D"]);
    assert_eq!(q.iter_ref_skip_to(9), Vec::<&&str>::new());

    // An index beyond the end drops everything and stops at the next index.
    q.remove_before(100);
    assert_eq!((q.front_index(), q.next_index(), q.len()), (4, 4, 0));
    assert_eq!(q.push_back("e"), 4);
    assert_eq!(q.push_back("f"), 5);
    assert_eq!(q.iter_skip_to(5), vec!["f"]);
    assert_eq!((q.front_index(), q.next_index(), q.len()), (6, 6, 0));
    assert_eq!(q.push_back("g"), 6);
}

#[test]
fn registry_orders_by_queue_index() {
    let mut r = Registry::new();
    assert!(r.is_empty());
    assert_eq!(r.earliest(), None);
    let a = Listener::new(5, 0);
    let b = Listener::new(3, 1);
    let c = Listener::new(5, 2);
    let d = Listener::new(4, 3);
    r.register(a);
    r.register(b);
    r.register(c);
    r.register(d);
    assert_eq!(r.len(), 4);
    assert_eq!(r.earliest(), Some(b));
    assert!(r.contains(c));

    r.unregister(b);
    assert_eq!(r.earliest(), Some(d));
    r.unregister(d);
    // Of two listeners with one queue index the one registered first is the earliest.
    assert_eq!(r.earliest(), Some(a));
    r.unregister(Listener::new(5, 7));
    assert_eq!(r.len(), 2);
    r.unregister(a);
    assert_eq!(r.earliest(), Some(c));
    r.unregister(c);
    assert!(r.is_empty());
    assert!(Registry::default().is_empty());
}

#[test]
fn anchor_maps_cycles_to_nanoseconds() {
    // Two cycles last one nanosecond.
    let a = Anchor::new(Realtime { ns: 1_000 }, Cycle(100), 2_000_000_000).unwrap();
    assert_eq!(a.cycle_to_realtime(Cycle(100)), Realtime { ns: 1_000 });
    assert_eq!(a.cycle_to_realtime(Cycle(300)), Realtime { ns: 1_100 });
    assert_eq!(a.cycle_to_realtime(Cycle(301)), Realtime { ns: 1_100 });
    assert_eq!(a.cycle_to_realtime(Cycle(0)), Realtime { ns: 950 });
    assert_eq!(a.cycle_to_realtime(Cycle(99)), Realtime { ns: 1_000 });
    assert_eq!((a.realtime(), a.cycle(), a.cycles_per_second()), (Realtime { ns: 1_000 }, Cycle(100), 2_000_000_000));

    // Three cycles a second: one cycle lasts a third of a second, rounded down.
    let slow = Anchor::new(Realtime { ns: 0 }, Cycle(0), 3).unwrap();
    assert_eq!(slow.cycle_to_realtime(Cycle(1)).ns, 333_333_333);
    assert_eq!(slow.cycle_to_realtime(Cycle(2)).ns, 666_666_666);
    assert_eq!(slow.cycle_to_realtime(Cycle(3)).ns, 1_000_000_000);
}

#[test]
fn anchor_stays_inside_u64() {
    let early = Anchor::new(Realtime { ns: 10 }, Cycle(1_000), 1_000_000_000).unwrap();
    assert_eq!(early.cycle_to_realtime(Cycle(0)), Realtime { ns: 0 });
    assert_eq!(early.cycle_to_realtime(Cycle(990)), Realtime { ns: 0 });
    assert_eq!(early.cycle_to_realtime(Cycle(991)), Realtime { ns: 1 });

    let late = Anchor::new(Realtime { ns: u64::MAX - 5 }, Cycle(0), 1_000_000_000).unwrap();
    assert_eq!(late.cycle_to_realtime(Cycle(5)), Realtime { ns: u64::MAX });
    assert_eq!(late.cycle_to_realtime(Cycle(6)), Realtime { ns: u64::MAX });
    assert_eq!(late.cycle_to_realtime(Cycle(u64::MAX)), Realtime { ns: u64::MAX });

    let fast = Anchor::new(Realtime { ns: 7 }, Cycle(0), 1).unwrap();
    assert_eq!(fast.cycle_to_realtime(Cycle(u64::MAX)), Realtime { ns: u64::MAX });
}

#[test]
fn anchor_goes_by_the_readings() {
    let a = Anchor::from_readings(Cycle(42), Ok(Duration::from_nanos(1_234))).unwrap();
    assert_eq!(
        (a.realtime(), a.cycle(), a.cycles_per_second()),
        (Realtime { ns: 1_234 }, Cycle(42), 1_000_000_000)
    );
    assert_eq!(a.cycle_to_realtime(Cycle(52)), Realtime { ns: 1_244 });
    assert_eq!(saturating_nanos(&Duration::new(3, 7)), 3_000_000_007);
    assert_eq!(saturating_nanos(&Duration::from_secs(u64::MAX)), u64::MAX);
    // More nanoseconds than 64 bits hold are held at the largest value.
    let late = Anchor::from_readings(Cycle(0), Ok(Duration::from_secs(u64::MAX))).unwrap();
    assert_eq!(late.realtime(), Realtime { ns: u64::MAX });
    // A wall clock before the epoch gives no anchor.
    let now = std::time::SystemTime::now();
    let before_epoch = std::time::UNIX_EPOCH.duration_since(now);
    assert!(before_epoch.is_err());
    assert!(Anchor::from_readings(Cycle(42), before_epoch).is_none());
}

#[test]
fn anchor_needs_a_rate() {
    assert!(Anchor::new(Realtime { ns: 1 }, Cycle(1), 0).is_none());
    assert!(Anchor::new(Realtime { ns: 1 }, Cycle(1), 1).is_some());
}

#[test]
fn conversion_never_runs_backwards() {
    let a = Anchor::new(Realtime { ns: 5_000 }, Cycle(7_000), 2_400_000_000).unwrap();
    let mut last = 0;
    for cycle in (0..20_000u64).step_by(7) {
        let ns = a.cycle_to_realtime(Cycle(cycle)).ns;
        assert!(ns >= last);
        last = ns;
    }
}

#[test]
fn process_clock_reads_the_counter() {
    let anchor = Anchor::sample().unwrap();
    assert_eq!(anchor.cycles_per_second(), 1_000_000_000);
    let clock = DefaultClock::new(anchor);
    let first = clock.now();
    let second = clock.now();
    assert!(first.0 != 0);
    assert!(second >= first);
    // The wall clock of the sample is after 2020 and the conversion goes through it.
    assert!(anchor.realtime().ns > 1_577_836_800_000_000_000);
    assert_eq!(clock.cycle_to_realtime(anchor.cycle()), anchor.realtime());
    assert_eq!(clock.anchor().cycle(), anchor.cycle());
    let later = clock.cycle_to_realtime(Cycle(anchor.cycle().0 + 1_000));
    assert_eq!(later.ns, anchor.realtime().ns + 1_000);
}

#[test]
fn cycle_and_id_are_plain_values() {
    assert!(Cycle::new(0).is_zero());
    assert!(!Cycle::new(3).is_zero());
    assert_eq!(Cycle::new(3), Cycle(3));
    assert_eq!(SpanId::new(8), SpanId(8));
    assert!(Cycle(1) < Cycle(2));
}

#[test]
fn identifiers_count_up_under_the_prefix() {
    let ids = TempIdGenerator::new();
    assert_eq!(ids.prefix(), 0);
    assert_eq!(ids.next_id(), SpanId(100));
    assert_eq!(ids.next_id(), SpanId(101));

    let counter = Arc::new(AtomicU32::new(7));
    let mut one = TempIdGenerator::with_counter(counter.clone());
    let two = TempIdGenerator::with_counter(counter.clone());
    one.set_prefix(3);
    assert_eq!(one.next_id(), SpanId((3u64 << 32) + 7));
    assert_eq!(two.next_id(), SpanId(8));
    assert_eq!(one.next_id(), SpanId((3u64 << 32) + 9));
    assert_eq!(counter.load(Ordering::SeqCst), 10);
    assert_eq!(TempIdGenerator::compose(u32::MAX, u32::MAX), SpanId(u64::MAX));
    assert_eq!(TempIdGenerator::compose(1, 0), SpanId(1 << 32));
}

#[test]
fn prefix_shows_in_recorded_spans() {
    let mut line = process_line();
    set_id_prefix(&mut line, 0xABCD);
    let (mut scope, collector) = batch_tracing::root_scope(&mut line, "root");
    let sg = scope.start_scope(&mut line);
    let g = new_span(&mut line, "a");
    g.finish(&mut line);
    sg.finish(&mut line);
    scope.release(&line);
    let spans = collector.collect(&line, None);
    assert_eq!(spans.len(), 2);
    for s in &spans {
        assert_eq!(s.id.0 >> 32, 0xABCD);
    }
}

#[test]
fn reconciliation_takes_placeholders_out() {
    // 1 is the root; 2 is a placeholder under 1; 3 hangs under the placeholder; 4 under 3.
    let spans = vec![
        span(3, 2, 30, 40, 0, false),
        span(4, 3, 31, 32, 0, false),
        span(1, 0, 10, 90, 0, false),
        span(2, 1, 20, 20, 0, true),
    ];
    let out = Collector::remove_spawn_spans(spans);
    assert_eq!(links(&out), vec![(3, 1), (4, 3), (1, 0)]);
}

#[test]
fn reconciliation_twice_is_reconciliation_once() {
    let spans = vec![
        span(5, 2, 30, 40, 0, false),
        span(2, 1, 20, 20, 0, true),
        span(6, 7, 30, 40, 0, false),
        span(7, 2, 25, 25, 0, true),
        span(1, 0, 10, 90, 0, false),
        span(8, 9, 10, 90, 0, false),
    ];
    let once = Collector::remove_spawn_spans(spans);
    // One hop only: what hung under 7 now hangs under 2, which is gone.
    assert_eq!(links(&once), vec![(5, 1), (6, 2), (1, 0), (8, 9)]);
    let twice = Collector::remove_spawn_spans(copy_spans(&once));
    assert_eq!(links(&twice), links(&once));
    assert_eq!(Collector::remove_spawn_spans(vec![]).len(), 0);
}

#[test]
fn later_placeholder_with_the_same_identifier_counts() {
    let spans = vec![
        span(2, 1, 20, 20, 0, true),
        span(5, 2, 30, 40, 0, false),
        span(2, 9, 20, 20, 0, true),
    ];
    assert_eq!(links(&Collector::remove_spawn_spans(spans)), vec![(5, 9)]);
}

struct Halved;

impl Clock for Halved {
    fn realtime_of(&self, cycle: Cycle) -> Realtime {
        Realtime { ns: cycle.0 / 2 }
    }

    fn now(&self) -> Cycle {
        Cycle(1)
    }

    fn cycle_to_realtime(&self, cycle: Cycle) -> Realtime {
        self.realtime_of(cycle)
    }
}

#[test]
fn settling_goes_by_the_first_root() {
    let batch = || {
        vec![
            span(3, 1, 30, 40, 0, false),
            span(1, 0, 100, 300, 0, false),
            span(2, 1, 20, 20, 0, true),
            span(9, 0, 0, 1_000_000, 0, false),
        ]
    };
    // The first root lasts 200 cycles, 100 ns on this clock.
    let short = Collector::settle(batch(), &Halved, Some(Duration::from_nanos(101)));
    assert_eq!(links(&short), vec![(1, 0)]);
    let long = Collector::settle(batch(), &Halved, Some(Duration::from_nanos(100)));
    assert_eq!(links(&long), vec![(3, 1), (1, 0), (9, 0)]);
    let all = Collector::settle(batch(), &Halved, None);
    assert_eq!(links(&all), vec![(3, 1), (1, 0), (9, 0)]);
    assert_eq!(Collector::find_root(&batch()), 1);
    assert_eq!(Collector::find_root(&[span(3, 1, 30, 40, 0, false)].to_vec()), 1);

    // A root that ends before it begins counts as lasting no time.
    let odd = vec![span(1, 0, 300, 100, 0, false), span(2, 1, 1, 2, 0, false)];
    assert_eq!(Collector::settle(odd, &Halved, Some(Duration::from_nanos(1))).len(), 1);
    // A threshold beyond what 64 bits hold is still a threshold.
    let huge = Duration::from_secs(u64::MAX);
    assert_eq!(Collector::settle(batch(), &Halved, Some(huge)).len(), 1);
}

#[test]
fn batches_are_flattened_in_order() {
    let flat = Collector::flatten(vec![
        vec![span(1, 0, 1, 2, 0, false), span(2, 0, 1, 2, 0, false)],
        vec![],
        vec![span(3, 0, 1, 2, 0, false)],
    ]);
    assert_eq!(links(&flat), vec![(1, 0), (2, 0), (3, 0)]);
}

#[test]
fn collector_closes_its_flag() {
    let (tx, rx) = unbounded();
    let closed = Arc::new(AtomicBool::new(false));
    tx.send(vec![span(1, 0, 1, 2, 0, false)]).unwrap();
    tx.send(vec![span(2, 1, 1, 1, 0, true), span(3, 2, 1, 2, 0, false)]).unwrap();
    let collector = Collector::new(rx, closed.clone());
    let line = process_line();
    let spans = collector.collect(&line, None);
    assert_eq!(links(&spans), vec![(1, 0), (3, 1)]);
    assert!(closed.load(Ordering::SeqCst));
    // What is sent after the collection is lost.
    assert!(tx.send(vec![]).is_err());
}

#[test]
fn combine_leaves_closed_collectors_out() {
    let (a1, rx1, _) = acquirer();
    let (a2, rx2, closed2) = acquirer();
    let (a3, rx3, _) = acquirer();
    let task = |id| ScopeSpan::new(SpanId(id), SpanId(0), Cycle(1), "task");
    let g1 = AcquirerGroup::new(task(1), vec![a1, a2]);
    let g2 = AcquirerGroup::new(task(2), vec![a3]);
    assert_eq!(g1.acquirers().len(), 2);

    closed2.store(true, Ordering::SeqCst);
    let combined = AcquirerGroup::combine(&vec![&g1, &g2], task(3)).unwrap();
    assert_eq!(combined.acquirers().len(), 2);
    assert_eq!(combined.scope_span().id, SpanId(3));
    combined.submit(vec![span(10, 0, 1, 2, 0, false)]);
    assert_eq!(links(&rx1.try_iter().flatten().collect::<Vec<_>>()), vec![(10, 3)]);
    assert_eq!(rx2.try_iter().count(), 0);
    assert_eq!(links(&rx3.try_iter().flatten().collect::<Vec<_>>()), vec![(10, 3)]);

    assert!(AcquirerGroup::combine(&vec![], task(4)).is_none());
}

#[test]
fn with_live_goes_by_the_flags_given() {
    let (a1, rx1, _) = acquirer();
    let (a2, rx2, _) = acquirer();
    let (a3, rx3, _) = acquirer();
    let task = ScopeSpan::new(SpanId(3), SpanId(0), Cycle(1), "task");
    let candidates = vec![&a1, &a2, &a3];
    let group = AcquirerGroup::with_live(&candidates, &vec![true, false, false], task).unwrap();
    assert_eq!(group.acquirers().len(), 2);
    group.submit_scope_span(task.to_span(Cycle(5)));
    assert_eq!(rx1.try_iter().count(), 0);
    assert_eq!(rx2.try_iter().count(), 1);
    assert_eq!(rx3.try_iter().count(), 1);
    assert!(AcquirerGroup::with_live(&candidates, &vec![true, true, true], task).is_none());
    assert!(AcquirerGroup::with_live(&vec![], &vec![], task).is_none());
}

#[test]
fn submitting_to_a_gone_collector_is_ignored() {
    let (a1, rx1, _) = acquirer();
    drop(rx1);
    a1.submit(vec![span(1, 0, 1, 2, 0, false)]);
    let group = AcquirerGroup::new(ScopeSpan::new(SpanId(1), SpanId(0), Cycle(1), "t"), vec![a1]);
    group.submit(vec![span(1, 0, 1, 2, 0, false)]);
}

#[test]
fn scope_span_is_sent_when_the_last_handle_goes() {
    let line = process_line();
    let (a1, rx1, _) = acquirer();
    let group = Arc::new(AcquirerGroup::new(
        ScopeSpan::new(SpanId(1), SpanId(0), Cycle(1), "task"),
        vec![a1],
    ));
    let second = group.clone();
    release_acquirer_group(&line, group);
    assert_eq!(rx1.try_iter().count(), 0);
    release_acquirer_group(&line, second);
    let sent: Vec<Span> = rx1.try_iter().flatten().collect();
    assert_eq!(links(&sent), vec![(1, 0)]);
    assert_eq!(sent[0].event, "task");
    assert!(sent[0].end_cycle.0 > 1);
}

#[test]
fn line_registers_and_collects() {
    let mut line = process_line();
    let (a1, rx1, _) = acquirer();
    let (a2, _rx2, _) = acquirer();
    assert!(line.start_span("quiet").is_none());
    assert!(registered_acquirer_group(&mut line, "nobody").is_none());

    let g1 = Arc::new(root_acquirer_group(&mut line, a1, "one"));
    let g2 = Arc::new(root_acquirer_group(&mut line, a2, "two"));
    assert_eq!(g1.scope_span().parent_id, SpanId(0));
    assert_eq!(g1.scope_span().event, "one");
    let l1 = line.register_now(g1.clone());
    assert_eq!(l1.queue_index, 0);
    assert!(line.is_listening() && line.is_registered(l1));
    let h = line.start_span("a").unwrap();
    assert_eq!(h.index(), 0);
    let l2 = line.register_now(g2.clone());
    assert_eq!(l2.queue_index, 1);
    assert!(l1.slab_index != l2.slab_index);
    let h2 = line.start_span("b").unwrap();
    line.add_property(&h2, || ("k", "v".to_string()));
    line.add_properties(&h2, || vec![("k2", "v2".to_string())]);
    line.finish_span(h2);
    line.finish_span(h);

    let spawned = registered_acquirer_group(&mut line, "spawned").unwrap();
    assert_eq!(spawned.acquirers().len(), 2);
    assert_eq!(spawned.scope_span().event, "spawned");

    // The first listener leaves: it gets copies, and the queue keeps what the second owns.
    let (back1, spans1) = line.unregister_and_collect(l1);
    assert!(Arc::ptr_eq(&back1, &g1));
    assert_eq!(spans1.iter().map(|s| s.event).collect::<Vec<_>>(), vec!["a", "b", "<spawn>"]);
    assert_eq!(spans1[0].parent_id, SpanId(0));
    assert_eq!(spans1[1].parent_id, spans1[0].id);
    assert_eq!(spans1[1].properties.len(), 2);
    assert_eq!(spawned.scope_span().parent_id, spans1[2].id);
    assert_eq!(spawned.scope_span().begin_cycles, spans1[2].begin_cycle);
    assert!(!line.is_registered(l1) && line.is_registered(l2));

    // The last listener takes the rest, and the queue is empty.
    let (back2, spans2) = line.unregister_and_collect(l2);
    assert!(Arc::ptr_eq(&back2, &g2));
    assert_eq!(spans2.iter().map(|s| s.event).collect::<Vec<_>>(), vec!["b", "<spawn>"]);
    assert_eq!(spans2[0].parent_id, SpanId(0));
    assert!(!line.is_listening());
    assert_eq!(line.next_index(), 3);
    assert!(line.start_span("quiet").is_none());

    submit_task_span(&line, &g1, &g1.scope_span());
    let sent: Vec<Span> = rx1.try_iter().flatten().collect();
    assert_eq!(sent.len(), 1);
    assert_eq!(sent[0].event, "one");
}

#[test]
fn trapper_catches_and_submits() {
    let mut line = process_line();
    let (a1, rx1, _) = acquirer();
    let mut tracer = Tracer::root(&mut line, a1, "root");
    let mut trapper = tracer.new_trapper();
    assert!(trapper.listener().is_none());
    trapper.set_trap(&mut line);
    assert!(line.is_listening());
    assert!(line.is_registered(trapper.listener().unwrap()));
    // Setting a set trap changes nothing.
    trapper.set_trap(&mut line);
    let g = new_span(&mut line, "a");
    g.finish(&mut line);
    let child = Tracer::spawn(&mut line, "child");
    trapper.pull(&mut line);
    assert!(!line.is_listening());
    trapper.pull(&mut line);
    assert_eq!(rx1.try_iter().count(), 0);
    trapper.submit(&line);
    trapper.submit(&line);
    let sent: Vec<Span> = rx1.try_iter().flatten().collect();
    assert_eq!(sent.iter().map(|s| s.event).collect::<Vec<_>>(), vec!["a", "<spawn>"]);

    let mut child = child;
    child.release(&line);
    tracer.release(&line);
    let sent: Vec<Span> = rx1.try_iter().flatten().collect();
    assert_eq!(sent.iter().map(|s| s.event).collect::<Vec<_>>(), vec!["child", "root"]);

    let mut idle = Trapper::new(None);
    idle.set_trap(&mut line);
    idle.pull(&mut line);
    idle.submit(&line);
    assert!(!line.is_listening());
    assert!(Tracer::spawn(&mut line, "nobody").new_trapper().listener().is_none());
}
