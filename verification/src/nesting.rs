//! Counting functions over event buffers and the lemmas that keep the
//! nesting-depth invariant alive: an event's recorded depth equals the number
//! of earlier events that are still live at its start time.

use vstd::prelude::*;

use crate::model::TraceEvent;

verus! {

/// Index `i` appears on the stack.
pub open spec fn in_stack(st: Seq<usize>, i: int) -> bool {
    exists|k: int| 0 <= k < st.len() && (#[trigger] st[k]) as int == i
}

/// An event is live at time `t` when it is still open, or closed only after `t`.
pub open spec fn live_at(e: TraceEvent, t: u64) -> bool {
    e.end_time == 0 || e.end_time > t
}

/// Number of events in `s` that are live at time `t`.
pub open spec fn cnt_live(s: Seq<TraceEvent>, t: u64) -> int
    decreases s.len(),
{
    if s.len() == 0 {
        0
    } else {
        cnt_live(s.drop_last(), t) + if live_at(s.last(), t) {
            1int
        } else {
            0int
        }
    }
}

/// Number of events in `s` that are still open.
pub open spec fn cnt_open(s: Seq<TraceEvent>) -> int
    decreases s.len(),
{
    if s.len() == 0 {
        0
    } else {
        cnt_open(s.drop_last()) + if s.last().end_time == 0 {
            1int
        } else {
            0int
        }
    }
}

/// Liveness counts agree on sequences whose elements are pointwise equally live.
pub proof fn lemma_cnt_live_congruence(s1: Seq<TraceEvent>, s2: Seq<TraceEvent>, t: u64)
    requires
        s1.len() == s2.len(),
        forall|i: int| 0 <= i < s1.len() ==> (live_at(#[trigger] s1[i], t) <==> live_at(s2[i], t)),
    ensures
        cnt_live(s1, t) == cnt_live(s2, t),
    decreases s1.len(),
{
    if s1.len() > 0 {
        lemma_cnt_live_congruence(s1.drop_last(), s2.drop_last(), t);
    }
}

/// When every closed event in `s` closed no later than `t`, being live at `t`
/// is the same as being open.
pub proof fn lemma_cnt_live_eq_open(s: Seq<TraceEvent>, t: u64)
    requires
        forall|i: int| 0 <= i < s.len() && (#[trigger] s[i]).end_time != 0 ==> s[i].end_time <= t,
    ensures
        cnt_live(s, t) == cnt_open(s),
    decreases s.len(),
{
    if s.len() > 0 {
        lemma_cnt_live_eq_open(s.drop_last(), t);
    }
}

/// Appending one event adds its openness to the open count.
pub proof fn lemma_cnt_open_push(s: Seq<TraceEvent>, e: TraceEvent)
    ensures
        cnt_open(s.push(e)) == cnt_open(s) + if e.end_time == 0 {
            1int
        } else {
            0int
        },
{
    assert(s.push(e).drop_last() =~= s);
}

/// Closing one open event lowers the open count by exactly one.
pub proof fn lemma_cnt_open_close(s: Seq<TraceEvent>, i: int, e2: TraceEvent)
    requires
        0 <= i < s.len(),
        s[i].end_time == 0,
        e2.end_time != 0,
    ensures
        cnt_open(s.update(i, e2)) == cnt_open(s) - 1,
    decreases s.len(),
{
    if i == s.len() - 1 {
        assert(s.update(i, e2).drop_last() =~= s.drop_last());
        assert(s.update(i, e2).last() == e2);
    } else {
        assert(s.update(i, e2).drop_last() =~= s.drop_last().update(i, e2));
        lemma_cnt_open_close(s.drop_last(), i, e2);
        assert(s.update(i, e2).last() == s.last());
    }
}

/// Taking a prefix is unaffected by a later push.
pub proof fn lemma_take_push(s: Seq<TraceEvent>, e: TraceEvent, j: int)
    requires
        0 <= j <= s.len(),
    ensures
        s.push(e).take(j) =~= s.take(j),
{
}

/// Taking a prefix is unaffected by an update at or past the prefix end.
pub proof fn lemma_take_update(s: Seq<TraceEvent>, i: int, e: TraceEvent, j: int)
    requires
        0 <= j <= i < s.len(),
    ensures
        s.update(i, e).take(j) =~= s.take(j),
{
}

/// Membership in a stack extended by one entry.
pub proof fn lemma_in_stack_push(st: Seq<usize>, v: usize, i: int)
    ensures
        in_stack(st.push(v), i) <==> (in_stack(st, i) || i
            == v as int),
{
    if in_stack(st.push(v), i) {
        let k = choose|k: int| 0 <= k < st.push(v).len() && (#[trigger] st.push(v)[k]) as int == i;
        if k < st.len() {
            assert(st[k] as int == i);
        }
    }
    if in_stack(st, i) {
        let k = choose|k: int| 0 <= k < st.len() && (#[trigger] st[k]) as int == i;
        assert(st.push(v)[k] as int == i);
    }
    if i == v as int {
        assert(st.push(v)[st.len() as int] as int == i);
    }
}

/// Membership in a strictly increasing stack with its top removed.
pub proof fn lemma_in_stack_drop_last(st: Seq<usize>, i: int)
    requires
        st.len() > 0,
        forall|k1: int, k2: int|
            0 <= k1 < k2 < st.len() ==> (#[trigger] st[k1]) < (#[trigger] st[k2]),
    ensures
        in_stack(st.drop_last(), i) <==> (in_stack(st, i) && i
            != st.last() as int),
{
    if in_stack(st.drop_last(), i) {
        let k = choose|k: int|
            0 <= k < st.drop_last().len() && (#[trigger] st.drop_last()[k]) as int == i;
        assert(st[k] as int == i);
        assert(st[k] < st[st.len() - 1]);
    }
    if in_stack(st, i) && i != st.last() as int {
        let k = choose|k: int| 0 <= k < st.len() && (#[trigger] st[k]) as int == i;
        assert(k != st.len() - 1);
        assert(st.drop_last()[k] as int == i);
    }
}

/// The open count never exceeds the length of the buffer.
pub proof fn lemma_cnt_open_bounds(s: Seq<TraceEvent>)
    ensures
        0 <= cnt_open(s) <= s.len(),
    decreases s.len(),
{
    if s.len() > 0 {
        lemma_cnt_open_bounds(s.drop_last());
    }
}

} // verus!
