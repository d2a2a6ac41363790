//! The span record and the scope span that bridges execution contexts.

use vstd::prelude::*;
use crate::cycle::Cycle;
use crate::span_id::SpanId;

verus! {

/// What a [`Span`] holds, as plain mathematical values.
pub struct SpanData {
    pub id: u64,
    pub parent_id: u64,
    pub begin_cycle: u64,
    pub end_cycle: u64,
    pub event: Seq<char>,
    pub properties: Seq<(Seq<char>, Seq<char>)>,
    pub descendant_count: nat,
    pub is_spawn_bridge: bool,
}

impl SpanData {
    /// A span is finished once its end cycle is set.
    pub open spec fn finished(self) -> bool {
        self.end_cycle != 0
    }

    pub open spec fn is_root(self) -> bool {
        self.parent_id == 0
    }

    pub open spec fn with_parent(self, parent_id: u64) -> SpanData {
        SpanData { parent_id, ..self }
    }

    pub open spec fn with_end(self, end_cycle: u64, descendant_count: nat) -> SpanData {
        SpanData { end_cycle, descendant_count, ..self }
    }

    pub open spec fn with_property(self, property: (Seq<char>, Seq<char>)) -> SpanData {
        SpanData { properties: self.properties.push(property), ..self }
    }

    pub open spec fn with_properties(self, more: Seq<(Seq<char>, Seq<char>)>) -> SpanData {
        SpanData { properties: self.properties + more, ..self }
    }

    /// A span that has just begun: no end, no properties, no descendants.
    pub open spec fn begun(id: u64, parent_id: u64, begin_cycle: u64, event: Seq<char>) -> SpanData {
        SpanData {
            id,
            parent_id,
            begin_cycle,
            end_cycle: 0,
            event,
            properties: Seq::empty(),
            descendant_count: 0,
            is_spawn_bridge: false,
        }
    }

    /// The zero-duration placeholder pushed where work leaves for another context.
    pub open spec fn bridge(id: u64, parent_id: u64, cycle: u64, event: Seq<char>) -> SpanData {
        SpanData {
            end_cycle: cycle,
            is_spawn_bridge: true,
            ..SpanData::begun(id, parent_id, cycle, event)
        }
    }
}

/// A timed, named interval with a parent and key/value properties.
#[derive(Debug)]
pub struct Span {
    pub id: SpanId,
    pub parent_id: SpanId,
    pub begin_cycle: Cycle,
    pub event: &'static str,
    pub properties: Vec<(&'static str, String)>,
    /// 0 until the span is finished.
    pub end_cycle: Cycle,
    /// The number of spans recorded between this span's start and its finish.
    pub descendant_count: usize,
    /// Marks the placeholder that links a parent to work recorded elsewhere.
    pub is_spawn_bridge: bool,
}

pub open spec fn property_view(p: (&'static str, String)) -> (Seq<char>, Seq<char>) {
    (p.0@, p.1@)
}

pub open spec fn property_views(props: Seq<(&'static str, String)>) -> Seq<(Seq<char>, Seq<char>)> {
    props.map_values(|p: (&'static str, String)| property_view(p))
}

impl View for Span {
    type V = SpanData;

    open spec fn view(&self) -> SpanData {
        SpanData {
            id: self.id.0,
            parent_id: self.parent_id.0,
            begin_cycle: self.begin_cycle.0,
            end_cycle: self.end_cycle.0,
            event: self.event@,
            properties: property_views(self.properties@),
            descendant_count: self.descendant_count as nat,
            is_spawn_bridge: self.is_spawn_bridge,
        }
    }
}

/// The views of a sequence of spans, in order.
pub open spec fn span_views(spans: Seq<Span>) -> Seq<SpanData> {
    spans.map_values(|s: Span| s@)
}

impl Clone for Span {
    fn clone(&self) -> (r: Self)
        ensures
            r@ == self@,
    {
        let mut properties: Vec<(&'static str, String)> = Vec::new();
        let n = self.properties.len();
        let mut i: usize = 0;
        while i < n
            invariant
                n == self.properties.len(),
                i <= n,
                properties.len() == i,
                forall|j: int| 0 <= j < i ==> property_view(#[trigger] properties[j]) == property_view(self.properties[j]),
            decreases n - i,
        {
            let key: &'static str = self.properties[i].0;
            let value: String = self.properties[i].1.clone();
            properties.push((key, value));
            i = i + 1;
        }
        assert(property_views(properties@) =~= property_views(self.properties@));
        Span {
            id: self.id,
            parent_id: self.parent_id,
            begin_cycle: self.begin_cycle,
            event: self.event,
            properties,
            end_cycle: self.end_cycle,
            descendant_count: self.descendant_count,
            is_spawn_bridge: self.is_spawn_bridge,
        }
    }
}

impl Span {
    pub fn begin_with(id: SpanId, parent_id: SpanId, begin_cycles: Cycle, event: &'static str) -> (r:
        Self)
        ensures
            r@ == SpanData::begun(id.0, parent_id.0, begin_cycles.0, event@),
    {
        let r = Span {
            id,
            parent_id,
            begin_cycle: begin_cycles,
            event,
            properties: Vec::new(),
            end_cycle: Cycle(0),
            descendant_count: 0,
            is_spawn_bridge: false,
        };
        assert(r@.properties =~= Seq::empty());
        r
    }

    pub fn end_with(&mut self, end_cycles: Cycle, descendant_count: usize)
        ensures
            final(self)@ == old(self)@.with_end(end_cycles.0, descendant_count as nat),
    {
        self.end_cycle = end_cycles;
        self.descendant_count = descendant_count;
    }

    pub fn is_root(&self) -> (r: bool)
        ensures
            r == self@.is_root(),
    {
        self.parent_id.0 == 0
    }
}

/// A span whose end is set by dropping a handle that may travel between threads, not by a
/// stack frame.
#[derive(Copy, Clone, Debug)]
pub struct ScopeSpan {
    pub id: SpanId,
    pub parent_id: SpanId,
    pub begin_cycles: Cycle,
    pub event: &'static str,
}

impl ScopeSpan {
    pub fn new(id: SpanId, parent_id: SpanId, begin_cycles: Cycle, event: &'static str) -> (r: Self)
        ensures
            r.id == id,
            r.parent_id == parent_id,
            r.begin_cycles == begin_cycles,
            r.event == event,
    {
        ScopeSpan { id, parent_id, begin_cycles, event }
    }

    /// What `to_span` returns for the end cycle `end_cycle`.
    pub open spec fn completed(&self, end_cycle: u64) -> SpanData {
        SpanData::begun(self.id.0, self.parent_id.0, self.begin_cycles.0, self.event@).with_end(
            end_cycle,
            0,
        )
    }

    pub fn to_span(&self, end_cycles: Cycle) -> (r: Span)
        ensures
            r@ == self.completed(end_cycles.0),
    {
        let r = Span {
            id: self.id,
            parent_id: self.parent_id,
            begin_cycle: self.begin_cycles,
            event: self.event,
            properties: Vec::new(),
            end_cycle: end_cycles,
            descendant_count: 0,
            is_spawn_bridge: false,
        };
        assert(r@.properties =~= Seq::empty());
        r
    }
}

} // verus!
