//! The capture engine: description registry, per-thread contexts, frame
//! tracker and the session state machine, with an exact mathematical model.
//!
//! Timestamps come from a strictly monotonic logical clock owned by the
//! engine: every recorded stamp uses the current clock value and advances it,
//! so stamps are unique and totally ordered across all threads.

use vstd::prelude::*;
use vstd::string::StrSliceExecFns;
use vstd::string::StringSliceAdditionalSpecFns;

use crate::model::{DescModel, EventDescription, FrameMark, SessionState, TraceEvent, TraceTag, TagModel, TagValueModel};
use crate::nesting::{cnt_live, cnt_open, in_stack};

verus! {

/// Longest name, file or string-tag payload, in bytes (length-prefixed with
/// 16 bits in the capture file).
pub const MAX_NAME_LEN: usize = 0xFFFF;

/// Most events (and most tags) one thread context can buffer in a session.
pub const MAX_SLOTS: usize = 0xFFFF;

/// Most interned descriptions (32-bit count in the capture file).
pub const MAX_DESCRIPTIONS: usize = 0xFFFF_FFFF;

/// Most registered threads (32-bit thread ids).
pub const MAX_THREADS: usize = 0xFFFF_FFFF;

/// Thread id returned when a thread cannot be registered.
pub const INVALID_THREAD: u32 = 0xFFFF_FFFF;

/// Per-thread recording state: the thread's event stack, event buffer and tag
/// buffer, owned exclusively by that thread.
pub struct ThreadContext {
    /// Identity of the thread (its index in the engine's thread table).
    pub thread_id: u32,
    /// Human-readable thread name, UTF-8 bytes.
    pub name: Vec<u8>,
    /// Indices into `events` of the currently open events, innermost last.
    pub stack: Vec<usize>,
    /// All events recorded in the current session, in push order.
    pub events: Vec<TraceEvent>,
    /// All tags recorded in the current session, in attachment order.
    pub tags: Vec<TraceTag>,
}

/// Mathematical view of a [`ThreadContext`].
#[verifier::ext_equal]
pub struct ThreadModel {
    pub thread_id: u32,
    pub name: Seq<u8>,
    pub stack: Seq<usize>,
    pub events: Seq<TraceEvent>,
    pub tags: Seq<TagModel>,
}

impl View for ThreadContext {
    type V = ThreadModel;

    open spec fn view(&self) -> ThreadModel {
        ThreadModel {
            thread_id: self.thread_id,
            name: self.name@,
            stack: self.stack@,
            events: self.events@,
            tags: self.tags@.map_values(|t: TraceTag| t@),
        }
    }
}

/// The whole engine: the only cross-thread shared state of the system.
pub struct Engine {
    /// Session lifecycle state.
    pub state: SessionState,
    /// Logical monotonic clock; advanced by every recorded stamp.
    pub clock: u64,
    /// Per-thread buffer capacity chosen at construction.
    pub capacity: usize,
    /// Clock value at which the current (or last) session started.
    pub start_time: u64,
    /// Frames marked so far in the current session.
    pub frame_counter: u64,
    /// Frame boundary markers of the current session.
    pub frames: Vec<FrameMark>,
    /// Interned event descriptions, id `i + 1` at index `i`.
    pub registry: Vec<EventDescription>,
    /// All thread contexts, thread id `t` at index `t`.
    pub threads: Vec<ThreadContext>,
}

/// Mathematical view of an [`Engine`].
#[verifier::ext_equal]
pub struct EngineModel {
    pub state: SessionState,
    pub clock: u64,
    pub capacity: usize,
    pub start_time: u64,
    pub frame_counter: u64,
    pub frames: Seq<FrameMark>,
    pub registry: Seq<DescModel>,
    pub threads: Seq<ThreadModel>,
}

impl View for Engine {
    type V = EngineModel;

    open spec fn view(&self) -> EngineModel {
        EngineModel {
            state: self.state,
            clock: self.clock,
            capacity: self.capacity,
            start_time: self.start_time,
            frame_counter: self.frame_counter,
            frames: self.frames@,
            registry: self.registry@.map_values(|d: EventDescription| d@),
            threads: self.threads@.map_values(|t: ThreadContext| t@),
        }
    }
}

/// Two descriptions denote the same call site.
pub open spec fn same_site(a: DescModel, b: DescModel) -> bool {
    a.name == b.name && a.file == b.file && a.line == b.line
}

/// A description matches the given (name, file, line) triple.
pub open spec fn site_eq(d: DescModel, name: Seq<u8>, file: Seq<u8>, line: u32) -> bool {
    d.name == name && d.file == file && d.line == line
}

/// The registry holds one description per call site, with 1-based ids equal
/// to position.
pub open spec fn registry_wf(r: Seq<DescModel>) -> bool {
    &&& r.len() <= MAX_DESCRIPTIONS
    &&& forall|i: int|
        0 <= i < r.len() ==> {
            &&& (#[trigger] r[i]).id == i + 1
            &&& r[i].name.len() <= MAX_NAME_LEN
            &&& r[i].file.len() <= MAX_NAME_LEN
        }
    &&& forall|i: int, j: int|
        0 <= i < j < r.len() ==> !same_site(#[trigger] r[i], #[trigger] r[j])
}

/// The stack lists the open events, bottom first: strictly increasing buffer
/// indices, each open, with recorded depth equal to stack position.
pub open spec fn stack_wf(t: ThreadModel) -> bool {
    &&& forall|k: int| 0 <= k < t.stack.len() ==> (#[trigger] t.stack[k]) < t.events.len()
    &&& forall|k1: int, k2: int|
        0 <= k1 < k2 < t.stack.len() ==> (#[trigger] t.stack[k1]) < (#[trigger] t.stack[k2])
    &&& forall|k: int|
        0 <= k < t.stack.len() ==> (#[trigger] t.events[t.stack[k] as int]).depth as int == k
    &&& forall|k: int|
        0 <= k < t.stack.len() ==> (#[trigger] t.events[t.stack[k] as int]).end_time == 0
    &&& forall|i: int|
        0 <= i < t.events.len() ==> ((#[trigger] t.events[i]).end_time == 0 <==> in_stack(
            t.stack,
            i,
        ))
    &&& cnt_open(t.events) == t.stack.len()
}

/// Per-thread event buffer invariant: stamps bounded by the clock, starts
/// strictly increasing, and the nesting facts that let a reader reconstruct
/// the call tree from depths alone.
pub open spec fn events_wf(t: ThreadModel, tid: u32, clock: u64, capacity: usize) -> bool {
    &&& t.events.len() <= capacity
    &&& forall|i: int|
        0 <= i < t.events.len() ==> {
            &&& (#[trigger] t.events[i]).thread_id == tid
            &&& t.events[i].start_time < clock
            &&& (t.events[i].end_time != 0 ==> t.events[i].start_time < t.events[i].end_time
                && t.events[i].end_time < clock)
            &&& !t.events[i].truncated
        }
    &&& forall|i: int, j: int|
        0 <= i < j < t.events.len() ==> (#[trigger] t.events[i]).start_time < (
        #[trigger] t.events[j]).start_time
    // An event pushed while an earlier event was open is more deeply nested.
    &&& forall|i: int, j: int|
        0 <= i < j < t.events.len() && (#[trigger] t.events[i]).end_time == 0 ==> (
        #[trigger] t.events[j]).depth > t.events[i].depth
    // Closed intervals nest: a later event that starts inside an earlier one
    // also ends inside it, and is more deeply nested.
    &&& forall|i: int, j: int|
        0 <= i < j < t.events.len() && (#[trigger] t.events[i]).end_time != 0 && (
        #[trigger] t.events[j]).start_time < t.events[i].end_time ==> {
            &&& t.events[j].end_time != 0
            &&& t.events[j].end_time <= t.events[i].end_time
            &&& t.events[j].depth > t.events[i].depth
        }
    // Recorded depth is exactly the number of earlier events live at start.
    &&& forall|j: int|
        0 <= j < t.events.len() ==> (#[trigger] t.events[j]).depth as int == cnt_live(
            t.events.take(j),
            t.events[j].start_time,
        )
}

/// Per-thread tag buffer invariant: stamps bounded by the clock and strictly
/// increasing, payloads within serializable bounds.
pub open spec fn tags_wf(t: ThreadModel, tid: u32, clock: u64, capacity: usize) -> bool {
    &&& t.tags.len() <= capacity
    &&& forall|i: int|
        0 <= i < t.tags.len() ==> {
            &&& (#[trigger] t.tags[i]).thread_id == tid
            &&& t.tags[i].timestamp < clock
            &&& (t.tags[i].value matches TagValueModel::Str(s) ==> s.len() <= MAX_NAME_LEN)
        }
    &&& forall|i: int, j: int|
        0 <= i < j < t.tags.len() ==> (#[trigger] t.tags[i]).timestamp < (
        #[trigger] t.tags[j]).timestamp
}

/// Full per-thread invariant.
pub open spec fn thread_wf(t: ThreadModel, tid: u32, clock: u64, capacity: usize) -> bool {
    &&& t.thread_id == tid
    &&& t.name.len() <= MAX_NAME_LEN
    &&& stack_wf(t)
    &&& events_wf(t, tid, clock, capacity)
    &&& tags_wf(t, tid, clock, capacity)
}

/// Frame table invariant: marker `i` carries number `i + 1`, stamps bounded
/// by the clock and strictly increasing.
pub open spec fn frames_wf(frames: Seq<FrameMark>, frame_counter: u64, clock: u64) -> bool {
    &&& frames.len() == frame_counter
    &&& frames.len() <= clock
    &&& forall|i: int| 0 <= i < frames.len() ==> (#[trigger] frames[i]).number == i + 1
    &&& forall|i: int| 0 <= i < frames.len() ==> (#[trigger] frames[i]).timestamp < clock
    &&& forall|i: int, j: int|
        0 <= i < j < frames.len() ==> (#[trigger] frames[i]).timestamp < (
        #[trigger] frames[j]).timestamp
}

/// Whole-engine invariant: every constructor establishes it and every
/// operation preserves it.
pub open spec fn engine_wf(e: EngineModel) -> bool {
    &&& e.capacity <= MAX_SLOTS
    &&& !(e.state is Stopping)
    &&& registry_wf(e.registry)
    &&& e.threads.len() <= MAX_THREADS
    &&& forall|t: int|
        0 <= t < e.threads.len() ==> thread_wf(#[trigger] e.threads[t], t as u32, e.clock, e.capacity)
    &&& frames_wf(e.frames, e.frame_counter, e.clock)
}

/// A call site is already interned.
pub open spec fn has_site(r: Seq<DescModel>, name: Seq<u8>, file: Seq<u8>, line: u32) -> bool {
    exists|i: int| 0 <= i < r.len() && site_eq(#[trigger] r[i], name, file, line)
}

/// Index of an interned call site (unique under `registry_wf`).
pub open spec fn site_index(r: Seq<DescModel>, name: Seq<u8>, file: Seq<u8>, line: u32) -> int {
    choose|i: int| 0 <= i < r.len() && site_eq(#[trigger] r[i], name, file, line)
}

/// Transition of `create_description`: an interned site answers its existing
/// id and leaves the engine unchanged; a new site is appended when it fits;
/// otherwise the discard id 0 is returned.
pub open spec fn create_description_spec(
    e: EngineModel,
    name: Seq<u8>,
    file: Seq<u8>,
    line: u32,
) -> (EngineModel, u64) {
    if has_site(e.registry, name, file, line) {
        (e, e.registry[site_index(e.registry, name, file, line)].id)
    } else if name.len() <= MAX_NAME_LEN && file.len() <= MAX_NAME_LEN && e.registry.len()
        < MAX_DESCRIPTIONS {
        let id = (e.registry.len() + 1) as u64;
        (
            (EngineModel {
                registry: e.registry.push(DescModel { id, name, file, line }),
                ..e
            }),
            id,
        )
    } else {
        (e, 0)
    }
}

/// Transition of `register_thread`: a fresh context with empty buffers, named
/// by the caller; `INVALID_THREAD` when the name or the thread table cannot
/// accommodate it.
pub open spec fn register_thread_spec(e: EngineModel, name: Seq<u8>) -> (EngineModel, u32) {
    if name.len() <= MAX_NAME_LEN && e.threads.len() < MAX_THREADS {
        let tid = e.threads.len() as u32;
        (
            (EngineModel {
                threads: e.threads.push(
                    (ThreadModel {
                        thread_id: tid,
                        name,
                        stack: Seq::empty(),
                        events: Seq::empty(),
                        tags: Seq::empty(),
                    }),
                ),
                ..e
            }),
            tid,
        )
    } else {
        (e, INVALID_THREAD)
    }
}

/// Transition of `update_thread_name`: re-registration of a live thread
/// updates its name and preserves its identity and buffers.
pub open spec fn update_thread_name_spec(e: EngineModel, tid: u32, name: Seq<u8>) -> (
    EngineModel,
    bool,
) {
    if tid < e.threads.len() && name.len() <= MAX_NAME_LEN {
        let t = e.threads[tid as int];
        (
            (EngineModel {
                threads: e.threads.update(tid as int, (ThreadModel { name, ..t })),
                ..e
            }),
            true,
        )
    } else {
        (e, false)
    }
}

/// Interning is idempotent per call site: once a (name, file, line) triple
/// answered an id, every later registration of the same triple answers the
/// same id and leaves the registry unchanged — in particular the registry
/// holds exactly one entry for that site.
pub proof fn lemma_create_description_idempotent(
    e: EngineModel,
    name: Seq<u8>,
    file: Seq<u8>,
    line: u32,
)
    requires
        engine_wf(e),
    ensures
        ({
            let (e1, id) = create_description_spec(e, name, file, line);
            create_description_spec(e1, name, file, line) == (e1, id)
        }),
{
    let (e1, id) = create_description_spec(e, name, file, line);
    if has_site(e.registry, name, file, line) {
        let i = site_index(e.registry, name, file, line);
        assert(site_eq(e.registry[i], name, file, line));
    } else if name.len() <= MAX_NAME_LEN && file.len() <= MAX_NAME_LEN && e.registry.len()
        < MAX_DESCRIPTIONS {
        let n = e.registry.len() as int;
        assert(site_eq(e1.registry[n], name, file, line));
        assert(has_site(e1.registry, name, file, line));
        let j = site_index(e1.registry, name, file, line);
        assert(site_eq(e1.registry[j], name, file, line));
        if j != n {
            assert(e1.registry[j] == e.registry[j]);
            assert(has_site(e.registry, name, file, line));
        }
        assert(e1.registry[j].id == id);
        assert(create_description_spec(e1, name, file, line) == (e1, id));
    }
}

/// Compare two byte strings for equality.
pub fn bytes_eq(a: &Vec<u8>, b: &Vec<u8>) -> (r: bool)
    ensures
        r <==> a@ == b@,
{
    if a.len() != b.len() {
        assert(a@ != b@);
        return false;
    }
    let mut i: usize = 0;
    while i < a.len()
        invariant
            i <= a.len(),
            a.len() == b.len(),
            forall|k: int| 0 <= k < i ==> a@[k] == b@[k],
        decreases a.len() - i,
    {
        if a[i] != b[i] {
            assert(a@ != b@);
            return false;
        }
        i += 1;
    }
    proof {
        assert(a@ =~= b@);
    }
    true
}

impl Engine {
    /// A fresh idle engine whose per-thread buffers will hold at most
    /// `capacity` events and `capacity` tags each (clamped to `MAX_SLOTS`).
    pub fn new(capacity: usize) -> (e: Engine)
        ensures
            engine_wf(e@),
            e@.state is Idle,
            e@.clock == 0,
            e@.capacity == if capacity <= MAX_SLOTS {
                capacity as int
            } else {
                MAX_SLOTS as int
            },
            e@.registry =~= Seq::<DescModel>::empty(),
            e@.threads =~= Seq::<ThreadModel>::empty(),
            e@.frames =~= Seq::<FrameMark>::empty(),
            e@.frame_counter == 0,
    {
        let cap = if capacity <= MAX_SLOTS {
            capacity
        } else {
            MAX_SLOTS
        };
        let e = Engine {
            state: SessionState::Idle,
            clock: 0,
            capacity: cap,
            start_time: 0,
            frame_counter: 0,
            frames: Vec::new(),
            registry: Vec::new(),
            threads: Vec::new(),
        };
        proof {
            assert(e@.registry =~= Seq::<DescModel>::empty());
            assert(e@.threads =~= Seq::<ThreadModel>::empty());
        }
        e
    }

    /// Intern a call site. Idempotent: repeated calls with an identical
    /// (name, file, line) triple return the same id without growing the
    /// registry; a site that cannot be stored answers the discard id 0.
    ///
    /// Relies only on this engine's state; callable in any session state.
    pub fn create_description(&mut self, name: &str, file: &str, line: u32) -> (id: u64)
        requires
            engine_wf(old(self)@),
        ensures
            engine_wf(final(self)@),
            (final(self)@, id) == create_description_spec(
                old(self)@,
                name.spec_bytes(),
                file.spec_bytes(),
                line,
            ),
    {
        let nb = name.as_bytes_vec();
        let fb = file.as_bytes_vec();
        let ghost r0 = self@.registry;
        let mut i: usize = 0;
        while i < self.registry.len()
            invariant
                engine_wf(self@),
                self@.registry == r0,
                i <= self.registry.len(),
                nb@ == name.spec_bytes(),
                fb@ == file.spec_bytes(),
                forall|k: int| 0 <= k < i ==> !site_eq(#[trigger] r0[k], nb@, fb@, line),
            decreases self.registry.len() - i,
        {
            let d = &self.registry[i];
            if bytes_eq(&d.name, &nb) && bytes_eq(&d.file, &fb) && d.line == line {
                proof {
                    assert(site_eq(r0[i as int], nb@, fb@, line));
                    assert(has_site(r0, nb@, fb@, line));
                    // Sites are unique under the registry invariant, so the
                    // matched index is the interned one.
                    let j = site_index(r0, nb@, fb@, line);
                    if j != i as int {
                        assert(!same_site(r0[if j < i as int {
                            j
                        } else {
                            i as int
                        }], r0[if j < i as int {
                            i as int
                        } else {
                            j
                        }]));
                    }
                }
                return self.registry[i].id;
            }
            i += 1;
        }
        proof {
            assert(!has_site(r0, nb@, fb@, line));
        }
        if nb.len() <= MAX_NAME_LEN && fb.len() <= MAX_NAME_LEN && self.registry.len()
            < MAX_DESCRIPTIONS {
            let id = (self.registry.len() + 1) as u64;
            let ghost newd = DescModel { id, name: nb@, file: fb@, line };
            self.registry.push(EventDescription { id, name: nb, file: fb, line });
            proof {
                assert(self@.registry =~= r0.push(newd));
                assert forall|a: int, b: int|
                    0 <= a < b < self@.registry.len() implies !same_site(
                    #[trigger] self@.registry[a],
                    #[trigger] self@.registry[b],
                ) by {
                    if b == self@.registry.len() - 1 {
                        assert(!site_eq(r0[a], nb@, fb@, line));
                    }
                }
                assert(self@ == create_description_spec(old(self)@, nb@, fb@, line).0);
            }
            id
        } else {
            assert(self@ =~= old(self)@) by {
                assert(self@.registry == old(self)@.registry);
            };
            0
        }
    }

    /// Register a new profiled thread and hand back its identity. The caller
    /// passes the returned id to every later recording call from that thread;
    /// `INVALID_THREAD` is a discard id whose recording calls are no-ops.
    pub fn register_thread(&mut self, name: &str) -> (tid: u32)
        requires
            engine_wf(old(self)@),
        ensures
            engine_wf(final(self)@),
            (final(self)@, tid) == register_thread_spec(old(self)@, name.spec_bytes()),
    {
        let nb = name.as_bytes_vec();
        if nb.len() <= MAX_NAME_LEN && self.threads.len() < MAX_THREADS {
            let tid = self.threads.len() as u32;
            self.threads.push(
                ThreadContext {
                    thread_id: tid,
                    name: nb,
                    stack: Vec::new(),
                    events: Vec::new(),
                    tags: Vec::new(),
                },
            );
            proof {
                let m = register_thread_spec(old(self)@, name.spec_bytes()).0;
                assert(self@.threads =~~= m.threads);
                assert(self@ == m);
                let nt = self@.threads[tid as int];
                assert(cnt_open(nt.events) == 0);
            }
            tid
        } else {
            proof {
                assert(self@ =~= old(self)@);
            }
            INVALID_THREAD
        }
    }

    /// Re-register a live thread: updates its name, preserves its identity
    /// and buffers. Answers whether the update was applied.
    pub fn update_thread_name(&mut self, tid: u32, name: &str) -> (ok: bool)
        requires
            engine_wf(old(self)@),
        ensures
            engine_wf(final(self)@),
            (final(self)@, ok) == update_thread_name_spec(old(self)@, tid, name.spec_bytes()),
    {
        let nb = name.as_bytes_vec();
        if (tid as usize) < self.threads.len() && nb.len() <= MAX_NAME_LEN {
            let t = &mut self.threads[tid as usize];
            t.name = nb;
            proof {
                let m = update_thread_name_spec(old(self)@, tid, name.spec_bytes()).0;
                assert forall|k: int| 0 <= k < self@.threads.len() implies self@.threads[k]
                    == m.threads[k] by {
                    if k != tid as int {
                        assert(self.threads@[k] == old(self).threads@[k]);
                    }
                }
                assert(self@.threads =~= m.threads);
                assert(self@ == m);
            }
            true
        } else {
            proof {
                assert(self@ =~= old(self)@);
            }
            false
        }
    }
}

} // verus!
