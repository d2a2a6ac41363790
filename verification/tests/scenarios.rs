//! End-to-end runs of the tracing pipeline on the process clock.

use batch_tracing::cycle::{Anchor, DefaultClock};
use batch_tracing::span_id::TempIdGenerator;
use batch_tracing::span_line::SpanLine;
use batch_tracing::{new_span, root_scope, spawn_scope, Span};
use std::time::Duration;

type Line = SpanLine<TempIdGenerator, DefaultClock>;

fn new_line() -> Line {
    let anchor = Anchor::sample().expect("unexpected time drift");
    SpanLine::new(TempIdGenerator::new(), DefaultClock::new(anchor))
}

fn rec(line: &mut Line, mut i: u32) {
    let g = new_span(line, "rec span");
    i -= 1;
    if i > 0 {
        rec(line, i);
    }
    g.finish(line);
}

fn four_spans(line: &mut Line) {
    // wide
    for _ in 0..2 {
        let g = new_span(line, "iter span");
        g.finish(line);
    }
    // deep
    rec(line, 2);
}

fn count_event(spans: &[Span], event: &str) -> usize {
    spans.iter().filter(|s| s.event == event).count()
}

#[test]
fn single_thread_single_scope() {
    let mut line = new_line();
    let spans = {
        let (mut root_scope, collector) = root_scope(&mut line, "root");
        let sg = root_scope.start_scope(&mut line);

        four_spans(&mut line);

        sg.finish(&mut line);
        root_scope.release(&line);
        collector
    }
    .collect(&line, None);

    assert_eq!(spans.len(), 5);
    assert_eq!(count_event(&spans, "root"), 1);
    assert_eq!(count_event(&spans, "iter span"), 2);
    assert_eq!(count_event(&spans, "rec span"), 2);
}

#[test]
fn single_thread_multiple_scopes() {
    let mut line = new_line();
    let (spans1, spans2, spans3) = {
        let (c1, c2, c3) = {
            let (mut root_scope1, collector1) = root_scope(&mut line, "root1");
            let (mut root_scope2, collector2) = root_scope(&mut line, "root2");
            let (mut root_scope3, collector3) = root_scope(&mut line, "root3");

            let sg1 = root_scope1.start_scope(&mut line);
            let sg2 = root_scope2.start_scope(&mut line);
            let sg3 = root_scope3.start_scope(&mut line);

            four_spans(&mut line);

            sg3.finish(&mut line);
            sg2.finish(&mut line);
            sg1.finish(&mut line);
            root_scope3.release(&line);
            root_scope2.release(&line);
            root_scope1.release(&line);
            (collector1, collector2, collector3)
        };

        (c1.collect(&line, None), c2.collect(&line, None), c3.collect(&line, None))
    };

    assert_eq!(spans1.len(), 5);
    assert_eq!(spans2.len(), 5);
    assert_eq!(spans3.len(), 5);

    // The same events at the same cycles in every trace, under three different roots.
    for spans in [&spans2, &spans3] {
        for (a, b) in spans1.iter().zip(spans.iter()) {
            if a.event != "root1" {
                assert_eq!(a.event, b.event);
                assert_eq!(a.begin_cycle, b.begin_cycle);
                assert_eq!(a.end_cycle, b.end_cycle);
                assert_eq!(a.id, b.id);
            }
        }
    }
    let root_of = |spans: &[Span]| spans.iter().find(|s| s.is_root()).unwrap().id;
    assert_ne!(root_of(&spans1), root_of(&spans2));
    assert_ne!(root_of(&spans2), root_of(&spans3));
    assert_ne!(root_of(&spans1), root_of(&spans3));
}

/// The work of one worker: it attaches the scope it was given to its own line.
fn worker(scope: &mut batch_tracing::Scope) {
    let mut line = new_line();
    let sg = scope.start_scope(&mut line);
    four_spans(&mut line);
    sg.finish(&mut line);
    scope.release(&line);
}

#[test]
fn multiple_threads_single_scope() {
    let mut line = new_line();
    let spans = {
        let (mut scope, collector) = root_scope(&mut line, "root");

        let sg = scope.start_scope(&mut line);

        for _ in 0..4 {
            let mut scope = spawn_scope(&mut line, "cross-thread");
            worker(&mut scope);
        }

        four_spans(&mut line);

        sg.finish(&mut line);
        scope.release(&line);
        collector
    }
    .collect(&line, None);

    assert_eq!(spans.len(), 25);
    assert_eq!(count_event(&spans, "<spawn>"), 0);
    assert_eq!(count_event(&spans, "cross-thread"), 4);
    assert!(spans.iter().all(|s| !s.is_spawn_bridge));
}

#[test]
fn multiple_threads_multiple_scopes() {
    let mut line = new_line();
    let (spans1, spans2) = {
        let (c1, c2) = {
            let (mut scope1, collector1) = root_scope(&mut line, "root1");
            let (mut scope2, collector2) = root_scope(&mut line, "root2");

            let sg1 = scope1.start_scope(&mut line);
            let sg2 = scope2.start_scope(&mut line);

            for _ in 0..4 {
                let mut scope = spawn_scope(&mut line, "cross-thread");
                worker(&mut scope);
            }

            four_spans(&mut line);

            sg2.finish(&mut line);
            sg1.finish(&mut line);
            scope2.release(&line);
            scope1.release(&line);
            (collector1, collector2)
        };

        (c1.collect(&line, None), c2.collect(&line, None))
    };

    assert_eq!(spans1.len(), 25);
    assert_eq!(spans2.len(), 25);
}

#[test]
fn every_parent_is_in_the_trace() {
    let mut line = new_line();
    let (mut scope, collector) = root_scope(&mut line, "root");
    let sg = scope.start_scope(&mut line);
    for _ in 0..3 {
        let mut scope = spawn_scope(&mut line, "cross-thread");
        worker(&mut scope);
    }
    four_spans(&mut line);
    sg.finish(&mut line);
    scope.release(&line);
    let spans = collector.collect(&line, None);

    let roots: Vec<&Span> = spans.iter().filter(|s| s.is_root()).collect();
    assert_eq!(roots.len(), 1);
    assert_eq!(roots[0].event, "root");
    for span in &spans {
        if !span.is_root() {
            let parent = spans.iter().find(|p| p.id == span.parent_id);
            assert!(parent.is_some(), "{} hangs in the air", span.event);
        }
        assert!(span.begin_cycle.0 != 0);
        assert!(span.end_cycle.0 >= span.begin_cycle.0);
    }
}

#[test]
fn short_root_is_returned_alone() {
    let mut line = new_line();
    let (mut scope, collector) = root_scope(&mut line, "root");
    let sg = scope.start_scope(&mut line);
    four_spans(&mut line);
    sg.finish(&mut line);
    scope.release(&line);

    let spans = collector.collect(&line, Some(Duration::from_secs(1)));
    assert_eq!(spans.len(), 1);
    assert_eq!(spans[0].event, "root");
    assert!(spans[0].is_root());
}

#[test]
fn long_enough_root_keeps_every_span() {
    let mut line = new_line();
    let (mut scope, collector) = root_scope(&mut line, "root");
    let sg = scope.start_scope(&mut line);
    four_spans(&mut line);
    sg.finish(&mut line);
    scope.release(&line);

    let spans = collector.collect(&line, Some(Duration::from_nanos(0)));
    assert_eq!(spans.len(), 5);
}

#[test]
fn nothing_is_recorded_without_a_scope() {
    let mut line = new_line();
    for _ in 0..10_000 {
        let g = new_span(&mut line, "x");
        assert!(!g.is_active());
        g.finish(&mut line);
    }
    assert_eq!(line.next_index(), 0);
    assert!(!line.is_listening());
}

#[test]
fn collector_of_an_unused_scope_gets_the_root_only() {
    let mut line = new_line();
    let (mut scope, collector) = root_scope(&mut line, "root");
    scope.release(&line);
    let spans = collector.collect(&line, None);
    assert_eq!(spans.len(), 1);
    assert_eq!(spans[0].event, "root");
}

#[test]
fn spawn_scope_without_listener_is_inert() {
    let mut line = new_line();
    let mut scope = spawn_scope(&mut line, "nobody");
    assert!(!scope.is_active());
    let sg = scope.start_scope(&mut line);
    assert!(!line.is_listening());
    let g = new_span(&mut line, "x");
    assert!(!g.is_active());
    g.finish(&mut line);
    sg.finish(&mut line);
    scope.release(&line);
    assert_eq!(line.next_index(), 0);
}

#[test]
fn closed_collector_is_left_out_of_spawned_scopes() {
    let mut line = new_line();
    let (mut scope1, collector1) = root_scope(&mut line, "root1");
    let (mut scope2, collector2) = root_scope(&mut line, "root2");
    let sg1 = scope1.start_scope(&mut line);
    let sg2 = scope2.start_scope(&mut line);

    // The first collector closes while its scope is still attached.
    let early = collector1.collect(&line, None);
    assert_eq!(early.len(), 0);

    let mut spawned = spawn_scope(&mut line, "cross-thread");
    assert!(spawned.is_active());
    worker(&mut spawned);

    sg2.finish(&mut line);
    sg1.finish(&mut line);
    scope2.release(&line);
    scope1.release(&line);

    let spans2 = collector2.collect(&line, None);
    // root2, the worker's scope span and its four spans; the placeholder is gone.
    assert_eq!(spans2.len(), 6);
    assert_eq!(count_event(&spans2, "cross-thread"), 1);
}
