//! The recording hot path: pushing and popping scope events, attaching tags
//! and marking frame boundaries. Every operation is total and fail-open: when
//! no session records, a buffer is exhausted or a pop is malformed, the call
//! is a no-op.

use vstd::prelude::*;

use crate::engine::{engine_wf, Engine, EngineModel, ThreadModel, MAX_NAME_LEN};
use crate::model::{FrameMark, SessionState, TagModel, TagValue, TagValueModel, TraceEvent, TraceTag};
use crate::nesting::{
    cnt_live, cnt_open, in_stack, lemma_cnt_live_congruence, lemma_cnt_live_eq_open,
    lemma_cnt_open_bounds, lemma_cnt_open_close, lemma_cnt_open_push, lemma_in_stack_drop_last,
    lemma_in_stack_push, lemma_take_push, lemma_take_update, live_at,
};

verus! {

/// A push is recorded: a session records, the clock can advance, the thread
/// and description are known, and the thread's event buffer has room.
pub open spec fn can_push(e: EngineModel, tid: u32, desc: u64) -> bool {
    &&& e.state is Recording
    &&& e.clock < u64::MAX
    &&& (tid as int) < e.threads.len()
    &&& 1 <= desc <= e.registry.len()
    &&& e.threads[tid as int].events.len() < e.capacity
}

/// The event a successful push records.
pub open spec fn pushed_event(e: EngineModel, tid: u32, desc: u64) -> TraceEvent {
    TraceEvent {
        description_id: desc,
        start_time: e.clock,
        end_time: 0,
        thread_id: tid,
        depth: e.threads[tid as int].stack.len() as u16,
        truncated: false,
    }
}

/// Transition of `push_event`: a recorded push appends the event, opens it on
/// the stack and advances the clock, answering the 1-based buffer handle;
/// anything else leaves the engine unchanged and answers 0.
pub open spec fn push_event_spec(e: EngineModel, tid: u32, desc: u64) -> (EngineModel, u64) {
    if can_push(e, tid, desc) {
        let t = e.threads[tid as int];
        let idx = t.events.len();
        (
            (EngineModel {
                clock: (e.clock + 1) as u64,
                threads: e.threads.update(
                    tid as int,
                    (ThreadModel {
                        stack: t.stack.push(idx as usize),
                        events: t.events.push(pushed_event(e, tid, desc)),
                        ..t
                    }),
                ),
                ..e
            }),
            (idx + 1) as u64,
        )
    } else {
        (e, 0)
    }
}

/// A pop closes its event: a session records, the clock can advance, and the
/// handle names exactly the innermost open event of that thread.
pub open spec fn can_pop(e: EngineModel, tid: u32, handle: u64) -> bool {
    &&& e.state is Recording
    &&& e.clock < u64::MAX
    &&& (tid as int) < e.threads.len()
    &&& e.threads[tid as int].stack.len() > 0
    &&& handle == e.threads[tid as int].stack.last() as u64 + 1
}

/// Transition of `pop_event`: a matching pop stamps the end time of the
/// innermost open event, removes it from the stack and advances the clock; a
/// malformed pop (wrong handle, empty stack, no session) changes nothing.
pub open spec fn pop_event_spec(e: EngineModel, tid: u32, handle: u64) -> EngineModel {
    if can_pop(e, tid, handle) {
        let t = e.threads[tid as int];
        let idx = t.stack.last() as int;
        let closed = TraceEvent { end_time: e.clock, ..t.events[idx] };
        EngineModel {
            clock: (e.clock + 1) as u64,
            threads: e.threads.update(
                tid as int,
                (ThreadModel { stack: t.stack.drop_last(), events: t.events.update(idx, closed), ..t }),
            ),
            ..e
        }
    } else {
        e
    }
}

/// A tag is recorded: a session records, the clock can advance, the thread
/// and description are known, the tag buffer has room and a string payload
/// fits its 16-bit length prefix.
pub open spec fn can_tag(e: EngineModel, tid: u32, desc: u64, v: TagValueModel) -> bool {
    &&& e.state is Recording
    &&& e.clock < u64::MAX
    &&& (tid as int) < e.threads.len()
    &&& 1 <= desc <= e.registry.len()
    &&& e.threads[tid as int].tags.len() < e.capacity
    &&& (v matches TagValueModel::Str(s) ==> s.len() <= MAX_NAME_LEN)
}

/// Transition of `attach_tag`: a recorded tag is appended with the current
/// clock as its timestamp; anything else changes nothing.
pub open spec fn attach_tag_spec(e: EngineModel, tid: u32, desc: u64, v: TagValueModel) -> (
    EngineModel,
    bool,
) {
    if can_tag(e, tid, desc, v) {
        let t = e.threads[tid as int];
        (
            (EngineModel {
                clock: (e.clock + 1) as u64,
                threads: e.threads.update(
                    tid as int,
                    (ThreadModel {
                        tags: t.tags.push(
                            (TagModel {
                                description_id: desc,
                                thread_id: tid,
                                timestamp: e.clock,
                                value: v,
                            }),
                        ),
                        ..t
                    }),
                ),
                ..e
            }),
            true,
        )
    } else {
        (e, false)
    }
}

/// Transition of `next_frame`: during a recording session the frame counter
/// advances and a boundary marker is stamped; outside one nothing happens.
pub open spec fn next_frame_spec(e: EngineModel) -> EngineModel {
    if e.state is Recording && e.clock < u64::MAX {
        EngineModel {
            clock: (e.clock + 1) as u64,
            frame_counter: (e.frame_counter + 1) as u64,
            frames: e.frames.push(
                (FrameMark { number: (e.frame_counter + 1) as u64, timestamp: e.clock }),
            ),
            ..e
        }
    } else {
        e
    }
}

impl Engine {
    /// Open a scope: record an event on `thread_id`'s buffer with the current
    /// clock as start time and the thread's nesting depth, and answer its
    /// handle (buffer index plus one). Answers 0 — and records nothing — when
    /// no session records, the thread or description is unknown, or the
    /// buffer is exhausted.
    pub fn push_event(&mut self, thread_id: u32, description_id: u64) -> (handle: u64)
        requires
            engine_wf(old(self)@),
        ensures
            engine_wf(final(self)@),
            (final(self)@, handle) == push_event_spec(old(self)@, thread_id, description_id),
    {
        if !matches!(self.state, SessionState::Recording) {
            return 0;
        }
        if self.clock == u64::MAX {
            return 0;
        }
        if thread_id as usize >= self.threads.len() {
            return 0;
        }
        if description_id == 0 || description_id > self.registry.len() as u64 {
            return 0;
        }
        let now = self.clock;
        let cap = self.capacity;
        let tidx = thread_id as usize;
        let t = &mut self.threads[tidx];
        if t.events.len() >= cap {
            assert(self@ =~~= old(self)@);
            return 0;
        }
        let idx = t.events.len();
        proof {
            lemma_cnt_open_bounds(t.events@);
        }
        let depth = t.stack.len() as u16;
        let ev = TraceEvent {
            description_id,
            start_time: now,
            end_time: 0,
            thread_id,
            depth,
            truncated: false,
        };
        t.events.push(ev);
        t.stack.push(idx);
        self.clock = now + 1;
        proof {
            let e0 = old(self)@;
            let m = push_event_spec(e0, thread_id, description_id).0;
            let t0 = e0.threads[tidx as int];
            assert(self@.threads =~~= m.threads);
            assert(self@ =~~= m);
            // Well-formedness of the updated thread.
            let t1 = m.threads[tidx as int];
            let clk = m.clock;
            assert forall|k: int| 0 <= k < t1.stack.len() implies (#[trigger] t1.events[
                t1.stack[k] as int]).depth as int == k && t1.events[t1.stack[k] as int].end_time
                == 0 && t1.stack[k] < t1.events.len() by {
                if k < t0.stack.len() {
                    assert(t0.stack[k] == t1.stack[k]);
                    assert(t1.events[t1.stack[k] as int] == t0.events[t0.stack[k] as int]);
                } else {
                    assert(t1.stack[k] == idx as usize);
                }
            }
            assert forall|i: int| 0 <= i < t1.events.len() implies ((#[trigger] t1.events[i]).end_time
                == 0 <==> in_stack(t1.stack, i)) by {
                lemma_in_stack_push(t0.stack, idx as usize, i);
                if i < t0.events.len() {
                    assert(t0.events[i] == t1.events[i]);
                }
            }
            lemma_cnt_open_push(t0.events, pushed_event(e0, thread_id, description_id));
            // Depth of the new event counts the live events before it.
            lemma_cnt_live_eq_open(t0.events, now);
            assert(t1.events.take(idx as int) =~= t0.events);
            assert forall|j: int| 0 <= j < t1.events.len() implies (#[trigger] t1.events[j]).depth
                as int == cnt_live(t1.events.take(j), t1.events[j].start_time) by {
                if j < t0.events.len() {
                    lemma_take_push(t0.events, pushed_event(e0, thread_id, description_id), j);
                    assert(t1.events[j] == t0.events[j]);
                }
            }
            assert(engine_wf(self@));
        }
        idx as u64 + 1
    }

    /// Close a scope: stamp the end time of the event named by `handle` and
    /// remove it from the thread's stack. A malformed pop — no recording
    /// session, unknown thread, empty stack, or a handle that is not the
    /// innermost open event — is silently ignored.
    #[verifier::rlimit(100)]
    pub fn pop_event(&mut self, thread_id: u32, handle: u64)
        requires
            engine_wf(old(self)@),
        ensures
            engine_wf(final(self)@),
            final(self)@ == pop_event_spec(old(self)@, thread_id, handle),
    {
        if !matches!(self.state, SessionState::Recording) {
            return ;
        }
        if self.clock == u64::MAX {
            return ;
        }
        if thread_id as usize >= self.threads.len() {
            return ;
        }
        let now = self.clock;
        let tidx = thread_id as usize;
        let t = &mut self.threads[tidx];
        if t.stack.len() == 0 {
            assert(self@ =~~= old(self)@);
            return ;
        }
        let top = t.stack[t.stack.len() - 1];
        if (top as u64) + 1 != handle {
            assert(self@ =~~= old(self)@);
            return ;
        }
        let idx = top;
        let mut ev = t.events[idx];
        ev.end_time = now;
        t.events[idx] = ev;
        t.stack.pop();
        self.clock = now + 1;
        proof {
            let e0 = old(self)@;
            let m = pop_event_spec(e0, thread_id, handle);
            let t0 = e0.threads[tidx as int];
            assert(t0.stack.drop_last() =~= self@.threads[tidx as int].stack);
            assert(self@.threads =~~= m.threads);
            assert(self@ =~~= m);
            let t1 = m.threads[tidx as int];
            let i0 = idx as int;
            // Stack well-formedness after removing the top.
            assert forall|k: int| 0 <= k < t1.stack.len() implies (#[trigger] t1.events[
                t1.stack[k] as int]).depth as int == k && t1.events[t1.stack[k] as int].end_time
                == 0 && t1.stack[k] < t1.events.len() by {
                assert(t1.stack[k] == t0.stack[k]);
                assert(t0.stack[k] < t0.stack[t0.stack.len() - 1]);
                assert(t1.events[t1.stack[k] as int] == t0.events[t0.stack[k] as int]);
            }
            assert forall|i: int| 0 <= i < t1.events.len() implies ((#[trigger] t1.events[i]).end_time
                == 0 <==> in_stack(t1.stack, i)) by {
                lemma_in_stack_drop_last(t0.stack, i);
                if i != i0 {
                    assert(t1.events[i] == t0.events[i]);
                }
            }
            lemma_cnt_open_close(t0.events, i0, t1.events[i0]);
            // Depth bookkeeping is unchanged by closing an event.
            assert forall|j: int| 0 <= j < t1.events.len() implies (#[trigger] t1.events[j]).depth
                as int == cnt_live(t1.events.take(j), t1.events[j].start_time) by {
                if j <= i0 {
                    lemma_take_update(t0.events, i0, t1.events[i0], j);
                    if j < i0 {
                        assert(t1.events[j] == t0.events[j]);
                    }
                } else {
                    assert(t1.events[j] == t0.events[j]);
                    let pre0 = t0.events.take(j);
                    let pre1 = t1.events.take(j);
                    assert forall|p: int| 0 <= p < pre0.len() implies (live_at(
                        #[trigger] pre0[p],
                        t0.events[j].start_time,
                    ) <==> live_at(pre1[p], t0.events[j].start_time)) by {
                        assert(pre0[p] == t0.events[p]);
                        assert(pre1[p] == t1.events[p]);
                    }
                    lemma_cnt_live_congruence(pre0, pre1, t0.events[j].start_time);
                }
            }
            // Interval nesting: everything after the closed event closed first.
            assert forall|i: int, j: int|
                0 <= i < j < t1.events.len() && (#[trigger] t1.events[i]).end_time != 0 && (
                #[trigger] t1.events[j]).start_time < t1.events[i].end_time implies {
                &&& t1.events[j].end_time != 0
                &&& t1.events[j].end_time <= t1.events[i].end_time
                &&& t1.events[j].depth > t1.events[i].depth
            } by {
                if i == i0 {
                    // j was pushed after the closed event; it cannot still be
                    // open because the closed event was the innermost.
                    if t0.events[j].end_time == 0 {
                        let k = choose|k: int|
                            0 <= k < t0.stack.len() && (#[trigger] t0.stack[k]) as int == j;
                        if k < t0.stack.len() - 1 {
                            assert(t0.stack[k] < t0.stack[t0.stack.len() - 1]);
                        }
                    }
                } else if j == i0 {
                    // The old invariant rules this pairing out: the closed
                    // event was open, so no earlier closed event ends past
                    // its start.
                    assert(t0.events[j].end_time == 0);
                }
            }
            assert(engine_wf(self@));
        }
    }

    /// Attach a typed tag on `thread_id`'s buffer, stamped with the current
    /// clock; association with an enclosing event is established at read time
    /// by thread and timestamp containment. Answers whether the tag was
    /// recorded; a tag that cannot be recorded is dropped silently.
    pub fn attach_tag(
        &mut self,
        thread_id: u32,
        description_id: u64,
        value: TagValue,
    ) -> (recorded: bool)
        requires
            engine_wf(old(self)@),
        ensures
            engine_wf(final(self)@),
            (final(self)@, recorded) == attach_tag_spec(
                old(self)@,
                thread_id,
                description_id,
                value@,
            ),
    {
        if !matches!(self.state, SessionState::Recording) {
            return false;
        }
        if self.clock == u64::MAX {
            return false;
        }
        if thread_id as usize >= self.threads.len() {
            return false;
        }
        if description_id == 0 || description_id > self.registry.len() as u64 {
            return false;
        }
        if let TagValue::Str(s) = &value {
            if s.len() > MAX_NAME_LEN {
                return false;
            }
        }
        let now = self.clock;
        let cap = self.capacity;
        let tidx = thread_id as usize;
        let t = &mut self.threads[tidx];
        if t.tags.len() >= cap {
            assert(self@ =~~= old(self)@);
            return false;
        }
        t.tags.push(TraceTag { description_id, thread_id, timestamp: now, value });
        self.clock = now + 1;
        proof {
            let e0 = old(self)@;
            let m = attach_tag_spec(e0, thread_id, description_id, value@).0;
            let t0 = e0.threads[tidx as int];
            assert(self@.threads[tidx as int].tags =~= m.threads[tidx as int].tags);
            assert(self@.threads =~~= m.threads);
            assert(self@ =~~= m);
            assert(engine_wf(self@));
        }
        true
    }

    /// Advance the process-wide frame counter and record a frame boundary
    /// marker visible in the capture. A no-op outside a recording session.
    pub fn next_frame(&mut self)
        requires
            engine_wf(old(self)@),
        ensures
            engine_wf(final(self)@),
            final(self)@ == next_frame_spec(old(self)@),
    {
        if !matches!(self.state, SessionState::Recording) {
            return ;
        }
        if self.clock == u64::MAX {
            return ;
        }
        let now = self.clock;
        let number = self.frame_counter + 1;
        self.frames.push(FrameMark { number, timestamp: now });
        self.frame_counter = number;
        self.clock = now + 1;
        proof {
            assert(self@ =~~= next_frame_spec(old(self)@));
            assert(engine_wf(self@));
        }
    }
}

} // verus!
