//! Span identifiers and the generators that hand them out.

use vstd::prelude::*;
use std::sync::Arc;
use std::sync::atomic::{AtomicU32, Ordering};

verus! {

/// Identifier of a span. The value 0 is reserved: as a parent it means "no parent".
#[derive(Copy, Clone, Debug, PartialEq, Eq, Structural, Hash)]
pub struct SpanId(pub u64);

impl SpanId {
    pub fn new(id: u64) -> (r: Self)
        ensures
            r.0 == id,
    {
        SpanId(id)
    }
}

/// A source of span identifiers. Nothing is asked of an implementation: the recording
/// functions state what they do with whatever identifier comes back.
pub trait IdGenerator {
    fn next_id(&self) -> SpanId;
}

/// The value at which a fresh counter starts.
pub const FIRST_COUNT: u32 = 100;

/// The number of values the counter half of an identifier can take.
pub const COUNTER_SPAN: u64 = 0x1_0000_0000;

/// The identifier made of `prefix` in the upper 32 bits and `count` in the lower 32.
pub open spec fn prefixed_id(prefix: u32, count: u32) -> u64 {
    (prefix * COUNTER_SPAN + count) as u64
}

/// Hands out identifiers from a counter that may be shared between threads. The upper half
/// of each identifier is the generator's prefix, the lower half the counter's reading.
pub struct TempIdGenerator {
    prefix: u32,
    counter: Arc<AtomicU32>,
}

impl TempIdGenerator {
    pub closed spec fn spec_prefix(&self) -> u32 {
        self.prefix
    }

    /// The counter from which the generator draws.
    pub closed spec fn spec_counter(&self) -> Arc<AtomicU32> {
        self.counter
    }

    /// A generator with prefix 0 and a counter of its own, starting at `FIRST_COUNT`.
    pub fn new() -> (r: Self)
        ensures
            r.spec_prefix() == 0,
    {
        TempIdGenerator { prefix: 0, counter: Arc::new(AtomicU32::new(FIRST_COUNT)) }
    }

    /// A generator with prefix 0 that draws from `counter`, which others may hold too.
    pub fn with_counter(counter: Arc<AtomicU32>) -> (r: Self)
        ensures
            r.spec_prefix() == 0,
            r.spec_counter() == counter,
    {
        TempIdGenerator { prefix: 0, counter }
    }

    #[verifier::when_used_as_spec(spec_prefix)]
    pub fn prefix(&self) -> (r: u32)
        ensures
            r == self.spec_prefix(),
    {
        self.prefix
    }

    pub fn set_prefix(&mut self, id_prefix: u32)
        ensures
            final(self).spec_prefix() == id_prefix,
            final(self).spec_counter() == old(self).spec_counter(),
    {
        self.prefix = id_prefix;
    }

    /// Advances the counter by one and returns the reading before the step.
    fn take_count(&self) -> u32 {
        self.counter.fetch_add(1, Ordering::SeqCst)
    }

    /// The identifier for one reading of the counter.
    pub fn compose(prefix: u32, count: u32) -> (r: SpanId)
        ensures
            r.0 == prefixed_id(prefix, count),
    {
        SpanId((prefix as u64) * COUNTER_SPAN + (count as u64))
    }
}

impl IdGenerator for TempIdGenerator {
    fn next_id(&self) -> (r: SpanId)
        ensures
            exists|count: u32| r.0 == prefixed_id(self.spec_prefix(), count),
    {
        let count = self.take_count();
        let id = TempIdGenerator::compose(self.prefix, count);
        assert(id.0 == prefixed_id(self.spec_prefix(), count));
        id
    }
}

} // verus!
