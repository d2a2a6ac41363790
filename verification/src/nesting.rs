//! What holds of a span queue that is used as a stack, and of the batches collected from it.

use vstd::prelude::*;
use crate::span::SpanData;
use crate::acquirer::rerooted;
use crate::span_line::{collected, emitted};
use crate::span_queue::QueueState;

verus! {

/// The span at `i` stands around the span at `j`: it came before, and it is still open or
/// counts `j` among its descendants.
pub open spec fn encloses(s: Seq<SpanData>, i: int, j: int) -> bool {
    0 <= i < j < s.len() && (!s[i].finished() || j <= i + s[i].descendant_count)
}

/// The span at `i` is the innermost of those that stand around the span at `j`.
pub open spec fn nearest(s: Seq<SpanData>, i: int, j: int) -> bool {
    encloses(s, i, j) && forall|k: int| i < k < j ==> !encloses(s, k, j)
}

/// No span stands around the span at `j`.
pub open spec fn top(s: Seq<SpanData>, j: int) -> bool {
    forall|i: int| 0 <= i < j ==> !encloses(s, i, j)
}

/// The span at `i` is open and every later span is finished.
pub open spec fn innermost_open(s: Seq<SpanData>, i: int) -> bool {
    0 <= i < s.len() && !s[i].finished() && forall|k: int| i < k < s.len() ==> (#[trigger] s[k]).finished()
}

/// No span begins at cycle 0, none ends before it begins, and none begins before an
/// earlier one.
pub open spec fn timed(s: Seq<SpanData>) -> bool {
    &&& forall|i: int| 0 <= i < s.len() ==> (#[trigger] s[i]).begin_cycle != 0
    &&& forall|i: int|
        0 <= i < s.len() && (#[trigger] s[i]).finished() ==> s[i].end_cycle >= s[i].begin_cycle
    &&& forall|i: int, j: int|
        0 <= i <= j < s.len() ==> (#[trigger] s[i]).begin_cycle <= (#[trigger] s[j]).begin_cycle
}

/// The descendants of a finished span follow it directly, are finished themselves, and
/// keep their own descendants and their end inside the span's. An open span counts none.
pub open spec fn ranged(s: Seq<SpanData>) -> bool {
    &&& forall|i: int|
        0 <= i < s.len() ==> if (#[trigger] s[i]).finished() {
            i + s[i].descendant_count < s.len()
        } else {
            s[i].descendant_count == 0
        }
    &&& forall|i: int, j: int|
        0 <= i < j < s.len() && (#[trigger] s[i]).finished() && j <= i + s[i].descendant_count ==> (
        #[trigger] s[j]).finished() && j + s[j].descendant_count <= i + s[i].descendant_count
            && s[j].end_cycle <= s[i].end_cycle
}

/// The parent of a span is the innermost span around it.
pub open spec fn parented(s: Seq<SpanData>) -> bool {
    forall|i: int, j: int| #[trigger] nearest(s, i, j) ==> s[j].parent_id == s[i].id
}

/// No identifier is 0 and none occurs twice.
pub open spec fn distinct(s: Seq<SpanData>) -> bool {
    &&& forall|i: int| 0 <= i < s.len() ==> (#[trigger] s[i]).id != 0
    &&& forall|i: int, j: int| 0 <= i < j < s.len() ==> (#[trigger] s[i]).id != (#[trigger] s[j]).id
}

/// The spans were recorded by starts and finishes that pair up like brackets.
pub open spec fn nested(s: Seq<SpanData>) -> bool {
    timed(s) && ranged(s) && parented(s) && distinct(s)
}

/// The cursor is the innermost open span, where there is one.
pub open spec fn follows(s: Seq<SpanData>, cursor: u64) -> bool {
    forall|i: int| #[trigger] innermost_open(s, i) ==> cursor == s[i].id
}

/// No cycle of `s` is later than `now`.
pub open spec fn not_after(s: Seq<SpanData>, now: u64) -> bool {
    forall|i: int|
        0 <= i < s.len() ==> (#[trigger] s[i]).begin_cycle <= now && s[i].end_cycle <= now
}

/// No span of `s` has the identifier `id`, and `id` is not 0.
pub open spec fn fresh(s: Seq<SpanData>, id: u64) -> bool {
    id != 0 && forall|i: int| 0 <= i < s.len() ==> (#[trigger] s[i]).id != id
}

impl QueueState {
    /// The queue was used as a stack so far, and its cursor is where a stack's top is.
    pub open spec fn traced(self) -> bool {
        nested(self.spans) && follows(self.spans, self.cursor)
    }

    /// The span with index `index` is the one that a stack would finish next.
    pub open spec fn is_innermost(self, index: nat) -> bool {
        self.holds(index) && innermost_open(self.spans, index - self.front)
    }

    /// The queue is traced, and a span or a placeholder with the identifier `id` may be
    /// pushed at `now`: the identifier is new, and nothing recorded is later than `now`.
    pub open spec fn grows_in_order(self, id: u64, now: u64) -> bool {
        self.traced() && fresh(self.spans, id) && now != 0 && not_after(self.spans, now)
    }

    /// The queue is traced, and the span with index `index` may finish at `now`: it is the
    /// innermost open span, or not in the queue at all, and nothing recorded is later than
    /// `now`.
    pub open spec fn finishes_in_order(self, index: nat, now: u64) -> bool {
        self.traced() && (self.holds(index) ==> self.is_innermost(index)) && now != 0
            && not_after(self.spans, now)
    }
}

/// A new queue is traced.
pub proof fn lemma_empty_traced(front: nat, cursor: u64)
    ensures
        (QueueState { front, spans: Seq::empty(), cursor }).traced(),
{
}

/// Among the spans around `j` there is an innermost one.
pub proof fn lemma_nearest_exists(s: Seq<SpanData>, i: int, j: int) -> (k: int)
    requires
        encloses(s, i, j),
    ensures
        i <= k,
        nearest(s, k, j),
    decreases j - i,
{
    if forall|m: int| i < m < j ==> !encloses(s, m, j) {
        i
    } else {
        let m = choose|m: int| i < m < j && encloses(s, m, j);
        lemma_nearest_exists(s, m, j)
    }
}

/// Starting a span with a new identifier, no earlier than anything recorded, keeps the
/// queue traced.
pub proof fn lemma_started_traced(q: QueueState, id: u64, now: u64, event: Seq<char>)
    requires
        q.grows_in_order(id, now),
    ensures
        q.started(id, now, event).traced(),
        not_after(q.started(id, now, event).spans, now),
{
    let s = q.spans;
    let t = q.started(id, now, event).spans;
    let n = s.len() as int;
    assert(t.len() == n + 1);
    assert forall|i: int| 0 <= i < n implies #[trigger] t[i] == s[i] by {}
    assert(!t[n].finished());
    assert(timed(t));
    assert(ranged(t)) by {
        assert forall|i: int, j: int|
            0 <= i < j < t.len() && (#[trigger] t[i]).finished() && j <= i
                + t[i].descendant_count implies (#[trigger] t[j]).finished() && j
            + t[j].descendant_count <= i + t[i].descendant_count && t[j].end_cycle
            <= t[i].end_cycle by {
            assert(t[i] == s[i]);
            assert(j < n);
            assert(t[j] == s[j]);
        }
    }
    assert(distinct(t));
    assert(parented(t)) by {
        assert forall|i: int, j: int| #[trigger] nearest(t, i, j) implies t[j].parent_id
            == t[i].id by {
            if j < n {
                assert(encloses(s, i, j));
                assert forall|k: int| i < k < j implies !encloses(s, k, j) by {
                    assert(!encloses(t, k, j));
                }
                assert(nearest(s, i, j));
            } else {
                // Every finished span has its descendants before the new span, so the
                // innermost span around the new one is open, and no later one is.
                assert(!s[i].finished());
                assert forall|k: int| i < k < n implies (#[trigger] s[k]).finished() by {
                    if !s[k].finished() {
                        assert(encloses(t, k, j));
                    }
                }
                assert(innermost_open(s, i));
            }
        }
    }
    assert(follows(t, id)) by {
        assert forall|i: int| #[trigger] innermost_open(t, i) implies id == t[i].id by {
            if i < n {
                assert(t[n].finished());
            }
        }
    }
}

/// Pushing a placeholder with a new identifier, no earlier than anything recorded, keeps
/// the queue traced.
pub proof fn lemma_bridged_traced(q: QueueState, id: u64, now: u64, event: Seq<char>)
    requires
        q.grows_in_order(id, now),
    ensures
        q.bridged(id, now, event).traced(),
        not_after(q.bridged(id, now, event).spans, now),
{
    let s = q.spans;
    let t = q.bridged(id, now, event).spans;
    let n = s.len() as int;
    assert(t.len() == n + 1);
    assert forall|i: int| 0 <= i < n implies #[trigger] t[i] == s[i] by {}
    assert(t[n].finished() && t[n].descendant_count == 0);
    assert(timed(t));
    assert(ranged(t)) by {
        assert forall|i: int, j: int|
            0 <= i < j < t.len() && (#[trigger] t[i]).finished() && j <= i
                + t[i].descendant_count implies (#[trigger] t[j]).finished() && j
            + t[j].descendant_count <= i + t[i].descendant_count && t[j].end_cycle
            <= t[i].end_cycle by {
            assert(t[i] == s[i]);
            assert(j < n);
            assert(t[j] == s[j]);
        }
    }
    assert(distinct(t));
    assert(parented(t)) by {
        assert forall|i: int, j: int| #[trigger] nearest(t, i, j) implies t[j].parent_id
            == t[i].id by {
            if j < n {
                assert(encloses(s, i, j));
                assert forall|k: int| i < k < j implies !encloses(s, k, j) by {
                    assert(!encloses(t, k, j));
                }
                assert(nearest(s, i, j));
            } else {
                assert(!s[i].finished());
                assert forall|k: int| i < k < n implies (#[trigger] s[k]).finished() by {
                    if !s[k].finished() {
                        assert(encloses(t, k, j));
                    }
                }
                assert(innermost_open(s, i));
            }
        }
    }
    assert(follows(t, q.cursor)) by {
        assert forall|i: int| #[trigger] innermost_open(t, i) implies q.cursor == t[i].id by {
            assert(i < n);
            assert forall|k: int| i < k < n implies (#[trigger] s[k]).finished() by {
                assert(t[k].finished());
            }
            assert(innermost_open(s, i));
        }
    }
}

/// Finishing the innermost open span, no earlier than anything recorded, keeps the queue
/// traced; so does a finish that names no span of the queue.
pub proof fn lemma_finished_traced(q: QueueState, index: nat, now: u64)
    requires
        q.finishes_in_order(index, now),
    ensures
        q.finished(index, now).traced(),
        not_after(q.finished(index, now).spans, now),
{
    if q.holds(index) {
        let s = q.spans;
        let t = q.finished(index, now).spans;
        let n = s.len() as int;
        let a = index - q.front;
        let cursor = s[a].parent_id;
        assert(t.len() == n);
        assert forall|i: int| 0 <= i < n && i != a implies #[trigger] t[i] == s[i] by {}
        assert(t[a].finished() && t[a].descendant_count == n - a - 1);
        assert(t[a].id == s[a].id && t[a].parent_id == s[a].parent_id && t[a].begin_cycle
            == s[a].begin_cycle);
        assert(timed(t)) by {
            assert forall|i: int, j: int| 0 <= i <= j < t.len() implies (
            #[trigger] t[i]).begin_cycle <= (#[trigger] t[j]).begin_cycle by {
                assert(t[i].begin_cycle == s[i].begin_cycle);
                assert(t[j].begin_cycle == s[j].begin_cycle);
            }
        }
        // No finished span before `a` reaches `a`: its descendants are finished.
        assert forall|i: int| 0 <= i < a && (#[trigger] s[i]).finished() implies i
            + s[i].descendant_count < a by {
            if i + s[i].descendant_count >= a {
                assert(s[a].finished());
            }
        }
        assert(ranged(t)) by {
            assert forall|i: int|
                0 <= i < t.len() implies if (#[trigger] t[i]).finished() {
                i + t[i].descendant_count < t.len()
            } else {
                t[i].descendant_count == 0
            } by {
                if i != a {
                    assert(t[i] == s[i]);
                }
            }
            assert forall|i: int, j: int|
                0 <= i < j < t.len() && (#[trigger] t[i]).finished() && j <= i
                    + t[i].descendant_count implies (#[trigger] t[j]).finished() && j
                + t[j].descendant_count <= i + t[i].descendant_count && t[j].end_cycle
                <= t[i].end_cycle by {
                if i == a {
                    assert(s[j].finished());
                    assert(t[j] == s[j]);
                } else {
                    assert(t[i] == s[i]);
                    assert(j != a);
                    assert(t[j] == s[j]);
                }
            }
        }
        assert(distinct(t)) by {
            assert forall|i: int| 0 <= i < t.len() implies (#[trigger] t[i]).id != 0 by {
                assert(t[i].id == s[i].id);
            }
            assert forall|i: int, j: int| 0 <= i < j < t.len() implies (#[trigger] t[i]).id != (
            #[trigger] t[j]).id by {
                assert(t[i].id == s[i].id);
                assert(t[j].id == s[j].id);
            }
        }
        // Around any span the same spans stand as before.
        assert forall|i: int, j: int| encloses(t, i, j) == encloses(s, i, j) by {
            if 0 <= i < j < n {
                if i == a {
                    assert(!s[a].finished());
                } else {
                    assert(t[i] == s[i]);
                }
            }
        }
        assert(parented(t)) by {
            assert forall|i: int, j: int| #[trigger] nearest(t, i, j) implies t[j].parent_id
                == t[i].id by {
                assert(encloses(s, i, j));
                assert forall|k: int| i < k < j implies !encloses(s, k, j) by {
                    assert(!encloses(t, k, j));
                }
                assert(nearest(s, i, j));
                assert(t[j].parent_id == s[j].parent_id);
                assert(t[i].id == s[i].id);
            }
        }
        assert(follows(t, cursor)) by {
            assert forall|i: int| #[trigger] innermost_open(t, i) implies cursor == t[i].id by {
                assert(i != a);
                if i > a {
                    assert(s[i].finished());
                    assert(t[i] == s[i]);
                } else {
                    assert(encloses(s, i, a));
                    assert forall|k: int| i < k < a implies !encloses(s, k, a) by {
                        assert(t[k].finished());
                        assert(t[k] == s[k]);
                    }
                    assert(nearest(s, i, a));
                }
            }
        }
        assert(not_after(t, now)) by {
            assert forall|i: int| 0 <= i < t.len() implies (#[trigger] t[i]).begin_cycle <= now
                && t[i].end_cycle <= now by {
                if i != a {
                    assert(t[i] == s[i]);
                }
            }
        }
    }
}

/// Dropping spans at the front keeps the queue traced.
pub proof fn lemma_evicted_traced(q: QueueState, index: nat)
    requires
        q.traced(),
    ensures
        q.evicted(index).traced(),
{
    lemma_suffix_nested(q.spans, q.position(index));
    let s = q.spans;
    let a = q.position(index);
    let t = q.evicted(index).spans;
    assert forall|i: int| #[trigger] innermost_open(t, i) implies q.cursor == t[i].id by {
        assert(t[i] == s[i + a]);
        assert forall|k: int| i + a < k < s.len() implies (#[trigger] s[k]).finished() by {
            assert(t[k - a].finished());
        }
        assert(innermost_open(s, i + a));
    }
}

/// Taking every span out leaves a traced queue.
pub proof fn lemma_drained_traced(q: QueueState)
    ensures
        q.drained().traced(),
{
}

/// Adding properties to a span keeps the queue traced.
pub proof fn lemma_with_properties_traced(
    q: QueueState,
    index: nat,
    more: Seq<(Seq<char>, Seq<char>)>,
)
    requires
        q.traced(),
    ensures
        q.with_properties(index, more).traced(),
{
    if q.holds(index) {
        let s = q.spans;
        let t = q.with_properties(index, more).spans;
        let a = index - q.front;
        assert forall|i: int| 0 <= i < s.len() implies same_shape(#[trigger] t[i], s[i]) by {
            if i != a {
                assert(t[i] == s[i]);
            }
        }
        lemma_same_shape_nested(s, t);
        assert forall|i: int| #[trigger] innermost_open(t, i) implies q.cursor == t[i].id by {
            assert(same_shape(t[i], s[i]));
            assert forall|k: int| i < k < s.len() implies (#[trigger] s[k]).finished() by {
                assert(same_shape(t[k], s[k]));
            }
            assert(innermost_open(s, i));
        }
    }
}

/// Two spans that differ in their event and properties at most.
pub open spec fn same_shape(a: SpanData, b: SpanData) -> bool {
    a.id == b.id && a.parent_id == b.parent_id && a.begin_cycle == b.begin_cycle && a.end_cycle
        == b.end_cycle && a.descendant_count == b.descendant_count
}

/// Nesting goes by identifiers, cycles and counts alone.
pub proof fn lemma_same_shape_nested(s: Seq<SpanData>, t: Seq<SpanData>)
    requires
        nested(s),
        t.len() == s.len(),
        forall|i: int| 0 <= i < s.len() ==> same_shape(#[trigger] t[i], s[i]),
    ensures
        nested(t),
{
    assert forall|i: int, j: int| encloses(t, i, j) == encloses(s, i, j) by {
        if 0 <= i < j < s.len() {
            assert(same_shape(t[i], s[i]));
        }
    }
    assert(timed(t)) by {
        assert forall|i: int, j: int| 0 <= i <= j < t.len() implies (#[trigger] t[i]).begin_cycle
            <= (#[trigger] t[j]).begin_cycle by {
            assert(same_shape(t[i], s[i]));
            assert(same_shape(t[j], s[j]));
        }
        assert forall|i: int| 0 <= i < t.len() implies (#[trigger] t[i]).begin_cycle != 0 by {
            assert(same_shape(t[i], s[i]));
        }
        assert forall|i: int| 0 <= i < t.len() && (#[trigger] t[i]).finished() implies t[i].end_cycle
            >= t[i].begin_cycle by {
            assert(same_shape(t[i], s[i]));
        }
    }
    assert(ranged(t)) by {
        assert forall|i: int|
            0 <= i < t.len() implies if (#[trigger] t[i]).finished() {
            i + t[i].descendant_count < t.len()
        } else {
            t[i].descendant_count == 0
        } by {
            assert(same_shape(t[i], s[i]));
        }
        assert forall|i: int, j: int|
            0 <= i < j < t.len() && (#[trigger] t[i]).finished() && j <= i
                + t[i].descendant_count implies (#[trigger] t[j]).finished() && j
            + t[j].descendant_count <= i + t[i].descendant_count && t[j].end_cycle
            <= t[i].end_cycle by {
            assert(same_shape(t[i], s[i]));
            assert(same_shape(t[j], s[j]));
        }
    }
    assert(distinct(t)) by {
        assert forall|i: int| 0 <= i < t.len() implies (#[trigger] t[i]).id != 0 by {
            assert(same_shape(t[i], s[i]));
        }
        assert forall|i: int, j: int| 0 <= i < j < t.len() implies (#[trigger] t[i]).id != (
        #[trigger] t[j]).id by {
            assert(same_shape(t[i], s[i]));
            assert(same_shape(t[j], s[j]));
        }
    }
    assert(parented(t)) by {
        assert forall|i: int, j: int| #[trigger] nearest(t, i, j) implies t[j].parent_id
            == t[i].id by {
            assert(encloses(s, i, j));
            assert forall|k: int| i < k < j implies !encloses(s, k, j) by {
                assert(!encloses(t, k, j));
            }
            assert(nearest(s, i, j));
            assert(same_shape(t[i], s[i]));
            assert(same_shape(t[j], s[j]));
        }
    }
}

/// What is left of nested spans when spans at the front are dropped is nested.
pub proof fn lemma_suffix_nested(s: Seq<SpanData>, a: int)
    requires
        nested(s),
        0 <= a <= s.len(),
    ensures
        nested(s.skip(a)),
{
    let t = s.skip(a);
    assert forall|i: int| 0 <= i < t.len() implies #[trigger] t[i] == s[i + a] by {}
    assert forall|i: int, j: int| 0 <= i implies encloses(t, i, j) == encloses(s, i + a, j + a) by {
        if 0 <= i < j < t.len() {
            assert(t[i] == s[i + a]);
        }
    }
    assert(timed(t)) by {
        assert forall|i: int, j: int| 0 <= i <= j < t.len() implies (#[trigger] t[i]).begin_cycle
            <= (#[trigger] t[j]).begin_cycle by {
            assert(t[i] == s[i + a]);
            assert(t[j] == s[j + a]);
        }
    }
    assert(ranged(t)) by {
        assert forall|i: int|
            0 <= i < t.len() implies if (#[trigger] t[i]).finished() {
            i + t[i].descendant_count < t.len()
        } else {
            t[i].descendant_count == 0
        } by {
            assert(t[i] == s[i + a]);
        }
        assert forall|i: int, j: int|
            0 <= i < j < t.len() && (#[trigger] t[i]).finished() && j <= i
                + t[i].descendant_count implies (#[trigger] t[j]).finished() && j
            + t[j].descendant_count <= i + t[i].descendant_count && t[j].end_cycle
            <= t[i].end_cycle by {
            assert(t[i] == s[i + a]);
            assert(t[j] == s[j + a]);
        }
    }
    assert(distinct(t)) by {
        assert forall|i: int, j: int| 0 <= i < j < t.len() implies (#[trigger] t[i]).id != (
        #[trigger] t[j]).id by {
            assert(t[i] == s[i + a]);
            assert(t[j] == s[j + a]);
        }
    }
    assert(parented(t)) by {
        assert forall|i: int, j: int| #[trigger] nearest(t, i, j) implies t[j].parent_id
            == t[i].id by {
            let ia = i + a;
            let ja = j + a;
            assert(encloses(s, ia, ja));
            assert forall|k: int| ia < k < ja implies !encloses(s, k, ja) by {
                assert(!encloses(t, k - a, j));
            }
            assert(nearest(s, ia, ja));
            assert(t[i] == s[i + a]);
            assert(t[j] == s[j + a]);
        }
    }
}

/// A batch as it leaves a span line: nested spans, all of them finished, those that no span
/// of the batch stands around without a parent.
pub open spec fn forest(out: Seq<SpanData>) -> bool {
    &&& nested(out)
    &&& forall|k: int| 0 <= k < out.len() ==> (#[trigger] out[k]).finished()
    &&& forall|j: int| 0 <= j < out.len() && #[trigger] top(out, j) ==> out[j].parent_id == 0
}

/// The span `x` has the identifier and the begin of a span of `s` at `a` or later.
pub open spec fn taken_from(x: SpanData, s: Seq<SpanData>, a: int) -> bool {
    exists|j: int| a <= j < s.len() && (#[trigger] s[j]).id == x.id && s[j].begin_cycle == x.begin_cycle
}

/// Every span of `out` stems from a span of `s` at `a` or later.
pub open spec fn sourced(out: Seq<SpanData>, s: Seq<SpanData>, a: int) -> bool {
    forall|k: int| 0 <= k < out.len() ==> taken_from(#[trigger] out[k], s, a)
}

/// No finished span before `a` reaches `a` or beyond.
pub open spec fn boundary(s: Seq<SpanData>, a: int) -> bool {
    forall|i: int| 0 <= i < a && (#[trigger] s[i]).finished() ==> i + s[i].descendant_count < a
}

/// While spans are pending, they are let through as they are.
pub proof fn lemma_emitted_pending(input: Seq<SpanData>, pending: nat)
    requires
        pending <= input.len(),
    ensures
        emitted(input, pending) == input.take(pending as int) + emitted(
            input.skip(pending as int),
            0,
        ),
    decreases pending,
{
    if pending == 0 {
        assert(input.skip(0) =~= input);
        assert(input.take(0) + emitted(input, 0) =~= emitted(input, 0));
    } else {
        let rest = input.skip(1);
        lemma_emitted_pending(rest, (pending - 1) as nat);
        assert(rest.skip(pending - 1) =~= input.skip(pending as int));
        assert(seq![input[0]] + rest.take(pending - 1) =~= input.take(pending as int));
        assert(seq![input[0]] + (rest.take(pending - 1) + emitted(input.skip(pending as int), 0))
            =~= input.take(pending as int) + emitted(input.skip(pending as int), 0));
    }
}

/// A finished span with its descendants, put before a batch from later spans, gives a
/// batch again.
proof fn lemma_segment_forest(s: Seq<SpanData>, a: int, rest: Seq<SpanData>) -> (out: Seq<SpanData>)
    requires
        nested(s),
        0 <= a < s.len(),
        s[a].finished(),
        boundary(s, a),
        forest(rest),
        sourced(rest, s, a + s[a].descendant_count + 1),
    ensures
        out == seq![s[a].with_parent(0)] + s.subrange(a + 1, a + s[a].descendant_count + 1) + rest,
        forest(out),
        sourced(out, s, a),
{
    let d = s[a].descendant_count as int;
    let out = seq![s[a].with_parent(0)] + s.subrange(a + 1, a + d + 1) + rest;
    let n = out.len() as int;
    assert(n == d + 1 + rest.len());
    assert(out[0] == s[a].with_parent(0));
    assert forall|k: int| 1 <= k <= d implies #[trigger] out[k] == s[a + k] by {}
    assert forall|k: int| d < k < n implies #[trigger] out[k] == rest[k - d - 1] by {}
    // The first d + 1 spans are those of s from a on, in all but the parent of the first.
    assert forall|k: int| 0 <= k <= d implies same_shape(#[trigger] out[k], s[a + k].with_parent(
        out[k].parent_id,
    )) && s[a + k].finished() && a + k + s[a + k].descendant_count <= a + d by {
        if k > 0 {
            assert(out[k] == s[a + k]);
            assert(s[a].finished() && a < a + k <= a + d);
            assert(s[a + k].finished());
        }
    }
    assert forall|k: int| 0 <= k < n implies (#[trigger] out[k]).finished() by {
        if k <= d {
            assert(same_shape(out[k], s[a + k].with_parent(out[k].parent_id)));
        } else {
            assert(out[k] == rest[k - d - 1]);
        }
    }
    assert(sourced(out, s, a)) by {
        assert forall|k: int| 0 <= k < n implies taken_from(#[trigger] out[k], s, a) by {
            if k <= d {
                assert(same_shape(out[k], s[a + k].with_parent(out[k].parent_id)));
                assert(s[a + k].id == out[k].id);
            } else {
                assert(taken_from(rest[k - d - 1], s, a + d + 1));
                let j = choose|j: int|
                    a + d + 1 <= j < s.len() && (#[trigger] s[j]).id == rest[k - d - 1].id
                        && s[j].begin_cycle == rest[k - d - 1].begin_cycle;
                assert(s[j].id == out[k].id);
            }
        }
    }
    // Which spans stand around which.
    assert forall|i: int, j: int| 0 <= i <= d implies (encloses(out, i, j) <==> j <= d && encloses(
        s,
        a + i,
        a + j,
    )) by {
        assert(same_shape(out[i], s[a + i].with_parent(out[i].parent_id)));
    }
    assert forall|i: int, j: int| d < i implies (encloses(out, i, j) <==> encloses(
        rest,
        i - d - 1,
        j - d - 1,
    )) by {
        if i < j < n {
            assert(out[i] == rest[i - d - 1]);
        }
    }
    assert(timed(out)) by {
        assert forall|i: int| 0 <= i < n implies (#[trigger] out[i]).begin_cycle != 0 by {
            if i <= d {
                assert(same_shape(out[i], s[a + i].with_parent(out[i].parent_id)));
            } else {
                assert(out[i] == rest[i - d - 1]);
            }
        }
        assert forall|i: int| 0 <= i < n && (#[trigger] out[i]).finished() implies out[i].end_cycle
            >= out[i].begin_cycle by {
            if i <= d {
                assert(same_shape(out[i], s[a + i].with_parent(out[i].parent_id)));
            } else {
                assert(out[i] == rest[i - d - 1]);
            }
        }
        assert forall|i: int, j: int| 0 <= i <= j < n implies (#[trigger] out[i]).begin_cycle <= (
        #[trigger] out[j]).begin_cycle by {
            if j <= d {
                assert(same_shape(out[i], s[a + i].with_parent(out[i].parent_id)));
                assert(same_shape(out[j], s[a + j].with_parent(out[j].parent_id)));
            } else if i > d {
                assert(out[i] == rest[i - d - 1]);
                assert(out[j] == rest[j - d - 1]);
            } else {
                assert(same_shape(out[i], s[a + i].with_parent(out[i].parent_id)));
                assert(taken_from(rest[j - d - 1], s, a + d + 1));
                let m = choose|m: int|
                    a + d + 1 <= m < s.len() && (#[trigger] s[m]).id == rest[j - d - 1].id
                        && s[m].begin_cycle == rest[j - d - 1].begin_cycle;
                assert(s[a + i].begin_cycle <= s[m].begin_cycle);
            }
        }
    }
    assert(ranged(out)) by {
        assert forall|i: int|
            0 <= i < n implies if (#[trigger] out[i]).finished() {
            i + out[i].descendant_count < n
        } else {
            out[i].descendant_count == 0
        } by {
            if i <= d {
                assert(same_shape(out[i], s[a + i].with_parent(out[i].parent_id)));
            } else {
                assert(out[i] == rest[i - d - 1]);
            }
        }
        assert forall|i: int, j: int|
            0 <= i < j < n && (#[trigger] out[i]).finished() && j <= i
                + out[i].descendant_count implies (#[trigger] out[j]).finished() && j
            + out[j].descendant_count <= i + out[i].descendant_count && out[j].end_cycle
            <= out[i].end_cycle by {
            if i <= d {
                assert(same_shape(out[i], s[a + i].with_parent(out[i].parent_id)));
                assert(j <= d);
                assert(same_shape(out[j], s[a + j].with_parent(out[j].parent_id)));
                assert(s[a + i].finished() && a + i < a + j <= a + i + s[a + i].descendant_count);
            } else {
                assert(out[i] == rest[i - d - 1]);
                assert(out[j] == rest[j - d - 1]);
            }
        }
    }
    assert(distinct(out)) by {
        assert forall|i: int| 0 <= i < n implies (#[trigger] out[i]).id != 0 by {
            if i <= d {
                assert(same_shape(out[i], s[a + i].with_parent(out[i].parent_id)));
            } else {
                assert(out[i] == rest[i - d - 1]);
            }
        }
        assert forall|i: int, j: int| 0 <= i < j < n implies (#[trigger] out[i]).id != (
        #[trigger] out[j]).id by {
            if j <= d {
                assert(same_shape(out[i], s[a + i].with_parent(out[i].parent_id)));
                assert(same_shape(out[j], s[a + j].with_parent(out[j].parent_id)));
            } else if i > d {
                assert(out[i] == rest[i - d - 1]);
                assert(out[j] == rest[j - d - 1]);
            } else {
                assert(same_shape(out[i], s[a + i].with_parent(out[i].parent_id)));
                assert(taken_from(rest[j - d - 1], s, a + d + 1));
                let m = choose|m: int|
                    a + d + 1 <= m < s.len() && (#[trigger] s[m]).id == rest[j - d - 1].id
                        && s[m].begin_cycle == rest[j - d - 1].begin_cycle;
                assert(s[a + i].id != s[m].id);
            }
        }
    }
    assert(parented(out)) by {
        assert forall|i: int, j: int| #[trigger] nearest(out, i, j) implies out[j].parent_id
            == out[i].id by {
            if i <= d {
                let ia = a + i;
                let ja = a + j;
                assert(encloses(s, ia, ja));
                assert forall|k: int| ia < k < ja implies !encloses(s, k, ja) by {
                    assert(!encloses(out, k - a, j));
                }
                assert(nearest(s, ia, ja));
                assert(out[j] == s[ja]);
                assert(same_shape(out[i], s[ia].with_parent(out[i].parent_id)));
            } else {
                let ir = i - d - 1;
                let jr = j - d - 1;
                assert(encloses(rest, ir, jr));
                assert forall|k: int| ir < k < jr implies !encloses(rest, k, jr) by {
                    assert(!encloses(out, k + d + 1, j));
                }
                assert(nearest(rest, ir, jr));
                assert(out[i] == rest[ir]);
                assert(out[j] == rest[jr]);
            }
        }
    }
    assert forall|j: int| 0 <= j < n && #[trigger] top(out, j) implies out[j].parent_id == 0 by {
        if j == 0 {
        } else if j <= d {
            assert(encloses(s, a, a + j));
            assert(encloses(out, 0, j));
        } else {
            let jr = j - d - 1;
            assert forall|i: int| 0 <= i < jr implies !encloses(rest, i, jr) by {
                assert(!encloses(out, i + d + 1, j));
            }
            assert(top(rest, jr));
            assert(out[j] == rest[jr]);
        }
    }
    out
}

/// What is collected from nested spans, from a place that lies in no finished span's
/// descendants, is a batch.
pub proof fn lemma_emitted_forest(s: Seq<SpanData>, a: int)
    requires
        nested(s),
        0 <= a <= s.len(),
        boundary(s, a),
    ensures
        forest(emitted(s.skip(a), 0)),
        sourced(emitted(s.skip(a), 0), s, a),
    decreases s.len() - a,
{
    let input = s.skip(a);
    if a < s.len() {
        assert(input[0] == s[a]);
        assert(input.skip(1) =~= s.skip(a + 1));
        if !s[a].finished() {
            assert(boundary(s, a + 1));
            lemma_emitted_forest(s, a + 1);
            let out = emitted(s.skip(a + 1), 0);
            assert forall|k: int| 0 <= k < out.len() implies taken_from(#[trigger] out[k], s, a) by {
                assert(taken_from(out[k], s, a + 1));
            }
        } else {
            let d = s[a].descendant_count as int;
            let b = a + d + 1;
            assert(boundary(s, b)) by {
                assert forall|i: int| 0 <= i < b && (#[trigger] s[i]).finished() implies i
                    + s[i].descendant_count < b by {
                    if i > a {
                        assert(s[a].finished() && a < i <= a + d);
                    }
                }
            }
            lemma_emitted_forest(s, b);
            let rest = emitted(s.skip(b), 0);
            let out = lemma_segment_forest(s, a, rest);
            let after = s.skip(a + 1);
            lemma_emitted_pending(after, d as nat);
            assert(after.take(d) =~= s.subrange(a + 1, b));
            assert(after.skip(d) =~= s.skip(b));
            assert(emitted(input, 0) == seq![s[a].with_parent(0)] + emitted(after, d as nat));
            assert(seq![s[a].with_parent(0)] + (s.subrange(a + 1, b) + rest) =~= out);
        }
    }
}

/// The completed spans collected from a traced queue, from any index on, are a batch.
pub proof fn lemma_collected_forest(q: QueueState, index: nat)
    requires
        q.traced(),
    ensures
        forest(collected(q.from(index))),
{
    let s = q.from(index);
    lemma_suffix_nested(q.spans, q.position(index));
    assert(s.skip(0) =~= s);
    lemma_emitted_forest(s, 0);
}

/// In a batch every span is finished: it begins and ends at a cycle other than 0, and it
/// does not end before it begins.
pub proof fn lemma_forest_cycles(out: Seq<SpanData>, k: int)
    requires
        forest(out),
        0 <= k < out.len(),
    ensures
        out[k].begin_cycle != 0,
        out[k].end_cycle != 0,
        out[k].end_cycle >= out[k].begin_cycle,
{
}

/// In a batch a span with a parent has it earlier in the batch, and lies within the
/// parent's cycles. The parent is the innermost span around it.
pub proof fn lemma_forest_parent(out: Seq<SpanData>, j: int) -> (i: int)
    requires
        forest(out),
        0 <= j < out.len(),
        out[j].parent_id != 0,
    ensures
        0 <= i < j,
        nearest(out, i, j),
        out[i].id == out[j].parent_id,
        out[i].begin_cycle <= out[j].begin_cycle,
        out[j].end_cycle <= out[i].end_cycle,
{
    assert(!top(out, j));
    let e = choose|e: int| 0 <= e < j && encloses(out, e, j);
    let i = lemma_nearest_exists(out, e, j);
    assert(out[i].finished());
    i
}

/// Every span hangs under the span with the identifier `scope_span_id` or under an earlier
/// span of the batch.
pub open spec fn hung_under(batch: Seq<SpanData>, scope_span_id: u64) -> bool {
    forall|j: int|
        0 <= j < batch.len() ==> (#[trigger] batch[j]).parent_id == scope_span_id || exists|i: int|
            0 <= i < j && (#[trigger] batch[i]).id == batch[j].parent_id
}

/// Once a group has hung the parentless spans of a batch under its scope span, every span
/// of the batch hangs under the scope span or under an earlier span of the batch.
pub proof fn lemma_rerooted_parents(out: Seq<SpanData>, scope_span_id: u64)
    requires
        forest(out),
    ensures
        hung_under(rerooted(out, scope_span_id), scope_span_id),
{
    let hung = rerooted(out, scope_span_id);
    assert forall|j: int| 0 <= j < hung.len() implies (#[trigger] hung[j]).parent_id
        == scope_span_id || exists|i: int|
        0 <= i < j && (#[trigger] hung[i]).id == hung[j].parent_id by {
        if out[j].parent_id != 0 {
            let i = lemma_forest_parent(out, j);
            assert(hung[i].id == out[i].id);
            assert(hung[j].parent_id == out[j].parent_id);
        }
    }
}

/// The place in `out` of the parent of the span at `j`; -1 where no earlier span has the
/// parent's identifier.
pub open spec fn parent_place(out: Seq<SpanData>, j: int) -> int {
    if exists|i: int| 0 <= i < j && (#[trigger] out[i]).id == out[j].parent_id {
        choose|i: int| 0 <= i < j && (#[trigger] out[i]).id == out[j].parent_id
    } else {
        -1
    }
}

/// The span at `j` hangs under the span at `k`, directly or through other spans.
pub open spec fn descends(out: Seq<SpanData>, j: int, k: int) -> bool
    decreases j,
{
    if 0 <= k < j < out.len() {
        let p = parent_place(out, j);
        p == k || (k < p < j && descends(out, p, k))
    } else {
        false
    }
}

/// In a batch the spans that hang under a span, directly or through others, are those
/// that follow it as far as its descendant count reaches.
pub proof fn lemma_descends_range(out: Seq<SpanData>, j: int, k: int)
    requires
        forest(out),
        0 <= k < out.len(),
    ensures
        descends(out, j, k) <==> k < j <= k + out[k].descendant_count,
    decreases j,
{
    if k < j < out.len() {
        let p = parent_place(out, j);
        if out[j].parent_id == 0 {
            assert(p == -1);
            if j <= k + out[k].descendant_count {
                assert(encloses(out, k, j));
                let e = lemma_nearest_exists(out, k, j);
                assert(out[e].id == 0);
            }
        } else {
            let e = lemma_forest_parent(out, j);
            assert(out[e].id == out[j].parent_id);
            assert(p == e);
            assert(out[e].finished());
            assert(j <= e + out[e].descendant_count);
            if e > k {
                lemma_descends_range(out, e, k);
                if e <= k + out[k].descendant_count {
                    assert(out[k].finished());
                } else if j <= k + out[k].descendant_count {
                    assert(false);
                }
            } else if e < k {
                if j <= k + out[k].descendant_count {
                    assert(encloses(out, k, j));
                }
            }
        }
    } else if j >= out.len() {
        assert(out[k].finished());
    }
}

/// The places of the spans of `out` that hang under the span at `k`.
pub open spec fn descendants(out: Seq<SpanData>, k: int) -> Set<int> {
    Set::new(|j: int| descends(out, j, k))
}

/// In a batch the descendant count of a span is the number of spans that hang under it,
/// directly or through others.
pub proof fn lemma_descendant_count(out: Seq<SpanData>, k: int)
    requires
        forest(out),
        0 <= k < out.len(),
    ensures
        descendants(out, k).finite(),
        descendants(out, k).len() == out[k].descendant_count,
{
    let d = out[k].descendant_count as int;
    assert forall|j: int| descends(out, j, k) <==> k + 1 <= j < k + d + 1 by {
        lemma_descends_range(out, j, k);
    }
    vstd::set_lib::lemma_int_range(k + 1, k + d + 1);
    assert(descendants(out, k) =~= vstd::set_lib::set_int_range(k + 1, k + d + 1));
}

} // verus!
