//! Collectors' endpoints on the recording side, and the groups that fan batches out to them.

use vstd::prelude::*;
use std::sync::Arc;
use std::sync::atomic::{AtomicBool, Ordering};
use crossbeam_channel::Sender;
use crate::span::{span_views, ScopeSpan, Span, SpanData};

verus! {

#[verifier::external_type_specification]
#[verifier::external_body]
#[verifier::reject_recursive_types(T)]
pub struct ExSender<T>(Sender<T>);

/// `crossbeam_channel::Sender::send`: hands `spans` to the channel. The call fails only when
/// every receiver is gone; the batch is then dropped. Nothing comes back.
#[verifier::external_body]
fn send_batch(sender: &Sender<Vec<Span>>, spans: Vec<Span>) {
    sender.send(spans).ok();
}

/// `Arc::clone`: one more handle to the same value.
#[verifier::external_body]
pub(crate) fn share<T>(handle: &Arc<T>) -> (r: Arc<T>)
    ensures
        r == *handle,
{
    Arc::clone(handle)
}

/// `Arc::into_inner`: the value itself where `handle` was the last handle to it, else
/// nothing. Which of the two depends on the other handles.
#[verifier::external_body]
pub(crate) fn into_last<T>(handle: Arc<T>) -> (r: Option<T>)
    ensures
        r matches Some(value) ==> value == *handle,
{
    Arc::into_inner(handle)
}

/// One interested collector: the sending end of its channel and its closed flag, both of
/// them shared. Once set, the flag stays set.
pub struct Acquirer {
    sender: Arc<Sender<Vec<Span>>>,
    closed: Arc<AtomicBool>,
}

impl Acquirer {
    pub closed spec fn spec_sender(&self) -> Arc<Sender<Vec<Span>>> {
        self.sender
    }

    pub closed spec fn spec_closed(&self) -> Arc<AtomicBool> {
        self.closed
    }

    pub fn new(sender: Arc<Sender<Vec<Span>>>, closed: Arc<AtomicBool>) -> (r: Self)
        ensures
            r.spec_sender() == sender,
            r.spec_closed() == closed,
    {
        Acquirer { sender, closed }
    }

    /// Sends one batch to the collector. A collector that is gone is ignored.
    pub fn submit(&self, spans: Vec<Span>) {
        send_batch(&self.sender, spans);
    }

    /// Reads the collector's closed flag.
    pub fn is_shutdown(&self) -> bool {
        self.closed.load(Ordering::SeqCst)
    }
}

impl Clone for Acquirer {
    fn clone(&self) -> (r: Self)
        ensures
            r == *self,
    {
        Acquirer { sender: share(&self.sender), closed: share(&self.closed) }
    }
}

/// Every span that had no parent gets `parent_id`; the others stay as they are.
pub open spec fn rerooted(spans: Seq<SpanData>, parent_id: u64) -> Seq<SpanData> {
    spans.map_values(
        |s: SpanData|
            if s.is_root() {
                s.with_parent(parent_id)
            } else {
                s
            },
    )
}

/// The acquirers that `refs` refers to, in order.
pub open spec fn values_of(refs: Seq<&Acquirer>) -> Seq<Acquirer> {
    refs.map_values(|a: &Acquirer| *a)
}

/// The acquirers of `groups`, group after group.
pub open spec fn all_acquirers(groups: Seq<&AcquirerGroup>) -> Seq<Acquirer>
    decreases groups.len(),
{
    if groups.len() == 0 {
        Seq::empty()
    } else {
        all_acquirers(groups.drop_last()) + groups.last().spec_acquirers()
    }
}

/// Those of `acquirers` whose flag in `shutdown` is not set, in order.
pub open spec fn live_of(acquirers: Seq<Acquirer>, shutdown: Seq<bool>) -> Seq<Acquirer>
    decreases acquirers.len(),
{
    if acquirers.len() == 0 {
        Seq::empty()
    } else if shutdown.last() {
        live_of(acquirers.drop_last(), shutdown.drop_last())
    } else {
        live_of(acquirers.drop_last(), shutdown.drop_last()).push(acquirers.last())
    }
}

/// The acquirers to which one scope reports, with the scope span that stands for the
/// scope's lifetime.
pub struct AcquirerGroup {
    /// A span represents task processing
    scope_span: ScopeSpan,
    acquirers: Vec<Acquirer>,
}

impl AcquirerGroup {
    pub closed spec fn spec_scope_span(&self) -> ScopeSpan {
        self.scope_span
    }

    pub closed spec fn spec_acquirers(&self) -> Seq<Acquirer> {
        self.acquirers@
    }

    /// A group has at least one acquirer.
    pub open spec fn wf(&self) -> bool {
        self.spec_acquirers().len() > 0
    }

    pub fn new(span: ScopeSpan, acquirers: Vec<Acquirer>) -> (r: Self)
        requires
            acquirers.len() > 0,
        ensures
            r.wf(),
            r.spec_scope_span() == span,
            r.spec_acquirers() == acquirers@,
    {
        AcquirerGroup { scope_span: span, acquirers }
    }

    #[verifier::when_used_as_spec(spec_scope_span)]
    pub fn scope_span(&self) -> (r: ScopeSpan)
        ensures
            r == self.spec_scope_span(),
    {
        self.scope_span
    }

    pub fn acquirers(&self) -> (r: &Vec<Acquirer>)
        ensures
            r@ == self.spec_acquirers(),
    {
        &self.acquirers
    }

    /// A group for `external_span` that reports to the acquirers of `groups` whose closed flag
    /// reads unset; `None` where no flag does.
    pub fn combine(groups: &Vec<&AcquirerGroup>, external_span: ScopeSpan) -> (r: Option<Self>)
        ensures
            exists|shutdown: Seq<bool>|
                shutdown.len() == all_acquirers(groups@).len() && match r {
                    Some(g) => g.wf() && g.spec_scope_span() == external_span
                        && g.spec_acquirers() == #[trigger] live_of(all_acquirers(groups@), shutdown),
                    None => live_of(all_acquirers(groups@), shutdown).len() == 0,
                },
    {
        let mut candidates: Vec<&Acquirer> = Vec::new();
        let mut shutdown: Vec<bool> = Vec::new();
        let n = groups.len();
        let mut i: usize = 0;
        while i < n
            invariant
                n == groups.len(),
                i <= n,
                shutdown.len() == candidates.len(),
                values_of(candidates@) == all_acquirers(groups@.take(i as int)),
            decreases n - i,
        {
            let group: &AcquirerGroup = groups[i];
            let m = group.acquirers.len();
            let ghost before = values_of(candidates@);
            let mut j: usize = 0;
            while j < m
                invariant
                    m == group.acquirers.len(),
                    j <= m,
                    shutdown.len() == candidates.len(),
                    values_of(candidates@) == before + group.acquirers@.take(
                        j as int,
                    ),
                decreases m - j,
            {
                let acquirer = &group.acquirers[j];
                let ghost gathered = candidates@;
                shutdown.push(acquirer.is_shutdown());
                candidates.push(acquirer);
                proof {
                    let taken = group.acquirers@.take(j as int);
                    assert(group.acquirers@.take(j + 1) =~= taken.push(*acquirer));
                    assert(values_of(gathered.push(acquirer)) =~= values_of(gathered).push(
                        *acquirer,
                    ));
                    assert((before + taken).push(*acquirer) =~= before + taken.push(*acquirer));
                }
                j = j + 1;
            }
            assert(group.acquirers@.take(m as int) =~= group.acquirers@);
            assert(groups@.take(i + 1).drop_last() =~= groups@.take(i as int));
            i = i + 1;
        }
        assert(groups@.take(n as int) =~= groups@);
        let r = AcquirerGroup::with_live(&candidates, &shutdown, external_span);
        assert(match r {
            Some(g) => g.wf() && g.spec_scope_span() == external_span && g.spec_acquirers()
                == live_of(all_acquirers(groups@), shutdown@),
            None => live_of(all_acquirers(groups@), shutdown@).len() == 0,
        });
        r
    }

    /// A group for `external_span` that reports to those of `candidates` whose flag in
    /// `shutdown` is not set; `None` where all flags are set.
    pub fn with_live(candidates: &Vec<&Acquirer>, shutdown: &Vec<bool>, external_span: ScopeSpan) -> (r:
        Option<Self>)
        requires
            shutdown.len() == candidates.len(),
        ensures
            r is Some <==> live_of(values_of(candidates@), shutdown@).len() > 0,
            r matches Some(g) ==> g.wf() && g.spec_scope_span() == external_span
                && g.spec_acquirers() == live_of(
                values_of(candidates@),
                shutdown@,
            ),
    {
        let ghost all = values_of(candidates@);
        let mut acquirers: Vec<Acquirer> = Vec::new();
        let n = candidates.len();
        let mut i: usize = 0;
        while i < n
            invariant
                n == candidates.len(),
                n == shutdown.len(),
                i <= n,
                all == values_of(candidates@),
                acquirers@ == live_of(all.take(i as int), shutdown@.take(i as int)),
            decreases n - i,
        {
            assert(all.take(i + 1).drop_last() =~= all.take(i as int));
            assert(shutdown@.take(i + 1).drop_last() =~= shutdown@.take(i as int));
            if !shutdown[i] {
                acquirers.push(candidates[i].clone());
            }
            i = i + 1;
        }
        assert(all.take(n as int) =~= all);
        assert(shutdown@.take(n as int) =~= shutdown@);
        if acquirers.len() == 0 {
            None
        } else {
            Some(AcquirerGroup { scope_span: external_span, acquirers })
        }
    }

    /// Hangs every parentless span of `spans` under the group's scope span and sends the
    /// batch to every acquirer.
    pub fn submit(&self, spans: Vec<Span>) {
        let mut spans = spans;
        self.modify_root_spans(&mut spans);
        self.submit_to_acquirers(spans);
    }

    /// Sends the one finished scope span to every acquirer.
    pub fn submit_scope_span(&self, task_span: Span) {
        let mut batch: Vec<Span> = Vec::new();
        batch.push(task_span);
        self.submit_to_acquirers(batch);
    }

    /// Gives every parentless span of `spans` the group's scope span as its parent.
    pub fn modify_root_spans(&self, spans: &mut Vec<Span>)
        ensures
            span_views(final(spans)@) == rerooted(
                span_views(old(spans)@),
                self.spec_scope_span().id.0,
            ),
    {
        let n = spans.len();
        let mut i: usize = 0;
        while i < n
            invariant
                n == spans.len(),
                n == old(spans).len(),
                i <= n,
                forall|j: int|
                    0 <= j < i ==> (#[trigger] spans[j])@ == rerooted(
                        span_views(old(spans)@),
                        self.spec_scope_span().id.0,
                    )[j],
                forall|j: int| i <= j < n ==> (#[trigger] spans[j])@ == old(spans)[j]@,
            decreases n - i,
        {
            if spans[i].is_root() {
                spans[i].parent_id = self.scope_span.id;
            }
            i = i + 1;
        }
        assert(span_views(spans@) =~= rerooted(
            span_views(old(spans)@),
            self.spec_scope_span().id.0,
        ));
    }

    /// Sends `spans` to every acquirer: a copy to each but the first, the batch itself to the
    /// first.
    pub fn submit_to_acquirers(&self, spans: Vec<Span>) {
        let n = self.acquirers.len();
        let mut i: usize = 1;
        while i < n
            invariant
                n == self.acquirers.len(),
                1 <= i,
            decreases n - i,
        {
            let copy = copy_spans(&spans);
            self.acquirers[i].submit(copy);
            i = i + 1;
        }
        if n > 0 {
            self.acquirers[0].submit(spans);
        }
    }
}

/// A copy of every span, in order.
pub fn copy_spans(spans: &Vec<Span>) -> (r: Vec<Span>)
    ensures
        span_views(r@) == span_views(spans@),
{
    let n = spans.len();
    let mut out: Vec<Span> = Vec::new();
    let mut i: usize = 0;
    while i < n
        invariant
            n == spans.len(),
            i <= n,
            out.len() == i,
            forall|j: int| 0 <= j < i ==> (#[trigger] out[j])@ == spans[j]@,
        decreases n - i,
    {
        out.push(spans[i].clone());
        i = i + 1;
    }
    assert(span_views(out@) =~= span_views(spans@));
    out
}

} // verus!
