//! The capture artifact and the session boundaries: starting a session,
//! draining the engine into a finalized [`Capture`], and the guarantees every
//! finalized capture gives its reader.

use vstd::prelude::*;

use crate::engine::{
    engine_wf, registry_wf, Engine, EngineModel, ThreadModel, MAX_NAME_LEN, MAX_SLOTS,
    MAX_THREADS,
};
use crate::model::{
    DescModel, EventDescription, FrameMark, SessionState, TagModel, TagValue, TagValueModel,
    TraceEvent, TraceTag,
};
use crate::nesting::{cnt_live, lemma_cnt_live_congruence, live_at};

verus! {

/// One thread's quiesced streams in a finalized capture: events in start-time
/// order, tags in timestamp order.
#[derive(Debug, PartialEq, Eq)]
pub struct ThreadSection {
    /// Identity of the recorded thread.
    pub thread_id: u32,
    /// Thread name, UTF-8 bytes.
    pub name: Vec<u8>,
    /// Closed events, sorted by start time.
    pub events: Vec<TraceEvent>,
    /// Tags, sorted by timestamp.
    pub tags: Vec<TraceTag>,
}

/// Mathematical view of a [`ThreadSection`].
#[verifier::ext_equal]
pub struct SectionModel {
    pub thread_id: u32,
    pub name: Seq<u8>,
    pub events: Seq<TraceEvent>,
    pub tags: Seq<TagModel>,
}

impl View for ThreadSection {
    type V = SectionModel;

    open spec fn view(&self) -> SectionModel {
        SectionModel {
            thread_id: self.thread_id,
            name: self.name@,
            events: self.events@,
            tags: self.tags@.map_values(|t: TraceTag| t@),
        }
    }
}

/// One finalized capture: the description table, per-thread sections and
/// frame boundaries collected by a session.
#[derive(Debug, PartialEq, Eq)]
pub struct Capture {
    /// Clock value at which the session started.
    pub start_time: u64,
    /// Snapshot of the description registry.
    pub descriptions: Vec<EventDescription>,
    /// One section per registered thread.
    pub threads: Vec<ThreadSection>,
    /// Frame boundary markers, in order.
    pub frames: Vec<FrameMark>,
}

/// Mathematical view of a [`Capture`].
#[verifier::ext_equal]
pub struct CaptureModel {
    pub start_time: u64,
    pub descriptions: Seq<DescModel>,
    pub threads: Seq<SectionModel>,
    pub frames: Seq<FrameMark>,
}

impl View for Capture {
    type V = CaptureModel;

    open spec fn view(&self) -> CaptureModel {
        CaptureModel {
            start_time: self.start_time,
            descriptions: self.descriptions@.map_values(|d: EventDescription| d@),
            threads: self.threads@.map_values(|t: ThreadSection| t@),
            frames: self.frames@,
        }
    }
}

/// Force-close an event at stop time: a still-open event is closed at the
/// stop stamp and flagged truncated; a closed event is untouched.
pub open spec fn close_at(ev: TraceEvent, stamp: u64) -> TraceEvent {
    if ev.end_time == 0 {
        TraceEvent { end_time: stamp, truncated: true, ..ev }
    } else {
        ev
    }
}

/// A thread context as it appears in the capture, with every open event
/// force-closed at the stop stamp.
pub open spec fn section_of(t: ThreadModel, stamp: u64) -> SectionModel {
    SectionModel {
        thread_id: t.thread_id,
        name: t.name,
        events: t.events.map_values(|ev: TraceEvent| close_at(ev, stamp)),
        tags: t.tags,
    }
}

/// The capture a stop at the engine's current clock produces.
pub open spec fn capture_of(e: EngineModel) -> CaptureModel {
    CaptureModel {
        start_time: e.start_time,
        descriptions: e.registry,
        threads: e.threads.map_values(|t: ThreadModel| section_of(t, e.clock)),
        frames: e.frames,
    }
}

/// A thread context with its session buffers cleared.
pub open spec fn reset_thread(t: ThreadModel) -> ThreadModel {
    ThreadModel {
        stack: Seq::empty(),
        events: Seq::empty(),
        tags: Seq::empty(),
        ..t
    }
}

/// The engine after a session ended (or was reset): idle, buffers drained,
/// frame tracker cleared.
pub open spec fn drained(e: EngineModel, clock: u64) -> EngineModel {
    EngineModel {
        state: SessionState::Idle,
        clock,
        frame_counter: 0,
        frames: Seq::empty(),
        threads: e.threads.map_values(|t: ThreadModel| reset_thread(t)),
        ..e
    }
}

/// Transition of `start_capture`: only an idle engine (whose clock can still
/// advance) starts a session; it stamps the session start, resets every
/// thread context and the frame tracker, and begins recording. Starting
/// while already recording changes nothing.
pub open spec fn start_capture_spec(e: EngineModel) -> EngineModel {
    if e.state is Idle && e.clock < u64::MAX {
        EngineModel {
            state: SessionState::Recording,
            start_time: e.clock,
            ..drained(e, (e.clock + 1) as u64)
        }
    } else {
        e
    }
}

/// Transition of `finish_capture`: a recording engine is drained to idle and
/// yields the capture of its buffers, with open events force-closed at the
/// stop stamp. Stopping while idle is a no-op that yields nothing; a session
/// whose clock is saturated is aborted (drained without a capture).
pub open spec fn finish_capture_spec(e: EngineModel) -> (EngineModel, Option<CaptureModel>) {
    if e.state is Recording && e.clock < u64::MAX {
        (drained(e, (e.clock + 1) as u64), Some(capture_of(e)))
    } else if e.state is Recording {
        (drained(e, e.clock), None)
    } else {
        (e, None)
    }
}

/// Event-stream invariant of a finalized section: every event belongs to the
/// section's thread and is closed with `end_time >= start_time`, starts are
/// strictly increasing, closed intervals nest, and each recorded depth is
/// exactly the number of earlier events whose interval covers the start.
pub open spec fn section_events_wf(s: SectionModel) -> bool {
    &&& s.events.len() <= MAX_SLOTS
    &&& forall|i: int|
        0 <= i < s.events.len() ==> {
            &&& (#[trigger] s.events[i]).thread_id == s.thread_id
            &&& s.events[i].end_time != 0
            &&& s.events[i].start_time <= s.events[i].end_time
        }
    &&& forall|i: int, j: int|
        0 <= i < j < s.events.len() ==> (#[trigger] s.events[i]).start_time < (
        #[trigger] s.events[j]).start_time
    &&& forall|i: int, j: int|
        0 <= i < j < s.events.len() && (#[trigger] s.events[j]).start_time < (
        #[trigger] s.events[i]).end_time ==> {
            &&& s.events[j].end_time <= s.events[i].end_time
            &&& s.events[j].depth > s.events[i].depth
        }
    &&& forall|j: int|
        0 <= j < s.events.len() ==> (#[trigger] s.events[j]).depth as int == cnt_live(
            s.events.take(j),
            s.events[j].start_time,
        )
}

/// Tag-stream invariant of a finalized section.
pub open spec fn section_tags_wf(s: SectionModel) -> bool {
    &&& s.tags.len() <= MAX_SLOTS
    &&& forall|i: int|
        0 <= i < s.tags.len() ==> {
            &&& (#[trigger] s.tags[i]).thread_id == s.thread_id
            &&& (s.tags[i].value matches TagValueModel::Str(str0) ==> str0.len() <= MAX_NAME_LEN)
        }
    &&& forall|i: int, j: int|
        0 <= i < j < s.tags.len() ==> (#[trigger] s.tags[i]).timestamp < (
        #[trigger] s.tags[j]).timestamp
}

/// Well-formedness of a finalized capture: what every reader of the artifact
/// may rely on.
pub open spec fn capture_wf(c: CaptureModel) -> bool {
    &&& registry_wf(c.descriptions)
    &&& c.threads.len() <= MAX_THREADS
    &&& forall|t: int|
        0 <= t < c.threads.len() ==> {
            &&& (#[trigger] c.threads[t]).thread_id == t as u32
            &&& c.threads[t].name.len() <= MAX_NAME_LEN
            &&& section_events_wf(c.threads[t])
            &&& section_tags_wf(c.threads[t])
        }
    &&& forall|i: int| 0 <= i < c.frames.len() ==> (#[trigger] c.frames[i]).number == i + 1
    &&& forall|i: int, j: int|
        0 <= i < j < c.frames.len() ==> (#[trigger] c.frames[i]).timestamp < (
        #[trigger] c.frames[j]).timestamp
}

/// A recording engine's capture is well-formed: force-closing at the current
/// clock closes every event without disturbing order, nesting or depths.
pub proof fn lemma_capture_of_wf(e: EngineModel)
    requires
        engine_wf(e),
    ensures
        capture_wf(capture_of(e)),
{
    let c = capture_of(e);
    assert forall|t: int| 0 <= t < c.threads.len() implies {
        &&& (#[trigger] c.threads[t]).thread_id == t as u32
        &&& c.threads[t].name.len() <= MAX_NAME_LEN
        &&& section_events_wf(c.threads[t])
        &&& section_tags_wf(c.threads[t])
    } by {
        let tm = e.threads[t];
        let s = c.threads[t];
        assert(s == section_of(tm, e.clock));
        assert(s.events.len() == tm.events.len());
        assert forall|i: int| 0 <= i < s.events.len() implies (#[trigger] s.events[i]) == close_at(
            tm.events[i],
            e.clock,
        ) by {}
        assert forall|i: int, j: int|
            0 <= i < j < s.events.len() && (#[trigger] s.events[j]).start_time < (
            #[trigger] s.events[i]).end_time implies {
            &&& s.events[j].end_time <= s.events[i].end_time
            &&& s.events[j].depth > s.events[i].depth
        } by {
            if tm.events[i].end_time == 0 {
                // Force-closed at the stop stamp, later than every other stamp.
            } else {
                if tm.events[j].end_time == 0 {
                    // The engine invariant rules out an open later event
                    // starting inside a closed earlier one.
                    assert(tm.events[j].end_time != 0);
                }
            }
        }
        assert forall|j: int| 0 <= j < s.events.len() implies (#[trigger] s.events[j]).depth as int
            == cnt_live(s.events.take(j), s.events[j].start_time) by {
            let pre0 = tm.events.take(j);
            let pre1 = s.events.take(j);
            assert(pre0.len() == pre1.len());
            assert forall|p: int| 0 <= p < pre0.len() implies (live_at(
                #[trigger] pre0[p],
                tm.events[j].start_time,
            ) <==> live_at(pre1[p], tm.events[j].start_time)) by {
                assert(pre0[p] == tm.events[p]);
                assert(pre1[p] == s.events[p]);
                assert(s.events[p] == close_at(tm.events[p], e.clock));
            }
            lemma_cnt_live_congruence(pre0, pre1, tm.events[j].start_time);
            assert(s.events[j].start_time == tm.events[j].start_time);
        }
    }
}

/// Nesting guarantee of a finalized capture: within one thread, two events
/// never partially overlap — a later event starting inside an earlier one
/// ends inside it and is more deeply nested. Together with
/// [`lemma_capture_depth_exact`] this reconstructs the recorded call tree.
pub proof fn lemma_capture_nesting(c: CaptureModel, t: int, i: int, j: int)
    requires
        capture_wf(c),
        0 <= t < c.threads.len(),
        0 <= i < j < c.threads[t].events.len(),
        c.threads[t].events[j].start_time < c.threads[t].events[i].end_time,
    ensures
        c.threads[t].events[j].end_time <= c.threads[t].events[i].end_time,
        c.threads[t].events[j].depth > c.threads[t].events[i].depth,
{
}

/// Depth guarantee of a finalized capture: an event's recorded depth is
/// exactly the number of earlier events of its thread that are still running
/// at its start time.
pub proof fn lemma_capture_depth_exact(c: CaptureModel, t: int, j: int)
    requires
        capture_wf(c),
        0 <= t < c.threads.len(),
        0 <= j < c.threads[t].events.len(),
    ensures
        c.threads[t].events[j].depth as int == cnt_live(
            c.threads[t].events.take(j),
            c.threads[t].events[j].start_time,
        ),
{
}

/// Closedness guarantee of a finalized capture: every emitted event has
/// `end_time >= start_time` and none is left open (`end_time == 0`).
pub proof fn lemma_capture_events_closed(c: CaptureModel, t: int, i: int)
    requires
        capture_wf(c),
        0 <= t < c.threads.len(),
        0 <= i < c.threads[t].events.len(),
    ensures
        c.threads[t].events[i].end_time != 0,
        c.threads[t].events[i].start_time <= c.threads[t].events[i].end_time,
{
}

/// Frame guarantee of a finalized capture: marking K frames yields exactly K
/// boundary markers carrying the strictly increasing numbers 1 through K,
/// with strictly increasing timestamps.
pub proof fn lemma_capture_frames(c: CaptureModel, i: int, j: int)
    requires
        capture_wf(c),
        0 <= i < j < c.frames.len(),
    ensures
        c.frames[i].number == i + 1,
        c.frames[j].number == j + 1,
        c.frames[i].number < c.frames[j].number,
        c.frames[i].timestamp < c.frames[j].timestamp,
{
}

/// Starting a capture twice in a row behaves as a single start: the second
/// start finds the engine recording and changes nothing, so the buffers are
/// reset exactly once.
pub proof fn lemma_start_capture_idempotent(e: EngineModel)
    ensures
        start_capture_spec(start_capture_spec(e)) == start_capture_spec(e),
{
}

/// Stopping while idle has no observable effect: the engine is unchanged and
/// no capture is produced.
pub proof fn lemma_stop_idle_noop(e: EngineModel)
    requires
        e.state is Idle,
    ensures
        finish_capture_spec(e) == (e, Option::<CaptureModel>::None),
{
}

/// Copy a vector of `Copy` elements.
pub fn copy_vec<T: Copy>(v: &Vec<T>) -> (r: Vec<T>)
    ensures
        r@ == v@,
{
    let mut r: Vec<T> = Vec::new();
    let mut i: usize = 0;
    while i < v.len()
        invariant
            i <= v.len(),
            r@ =~= v@.take(i as int),
        decreases v.len() - i,
    {
        r.push(v[i]);
        proof {
            assert(r@ =~= v@.take(i as int + 1));
        }
        i += 1;
    }
    proof {
        assert(v@.take(v.len() as int) =~= v@);
    }
    r
}

/// Copy a tag, including its payload.
pub fn clone_tag(t: &TraceTag) -> (r: TraceTag)
    ensures
        r@ == t@,
{
    let value = match &t.value {
        TagValue::Str(s) => TagValue::Str(copy_vec(s)),
        TagValue::Int32(x) => TagValue::Int32(*x),
        TagValue::UInt32(x) => TagValue::UInt32(*x),
        TagValue::UInt64(x) => TagValue::UInt64(*x),
        TagValue::Float(x) => TagValue::Float(*x),
        TagValue::Point3(x, y, z) => TagValue::Point3(*x, *y, *z),
    };
    TraceTag {
        description_id: t.description_id,
        thread_id: t.thread_id,
        timestamp: t.timestamp,
        value,
    }
}

/// Copy a tag buffer.
pub fn copy_tags(v: &Vec<TraceTag>) -> (r: Vec<TraceTag>)
    ensures
        r@.map_values(|t: TraceTag| t@) == v@.map_values(|t: TraceTag| t@),
{
    let mut r: Vec<TraceTag> = Vec::new();
    let mut i: usize = 0;
    while i < v.len()
        invariant
            i <= v.len(),
            r@.len() == i,
            forall|k: int| 0 <= k < i ==> (#[trigger] r@[k])@ == v@[k]@,
        decreases v.len() - i,
    {
        let t = clone_tag(&v[i]);
        r.push(t);
        i += 1;
    }
    proof {
        assert(r@.map_values(|t: TraceTag| t@) =~= v@.map_values(|t: TraceTag| t@));
    }
    r
}

/// Copy a description.
pub fn clone_desc(d: &EventDescription) -> (r: EventDescription)
    ensures
        r@ == d@,
{
    EventDescription { id: d.id, name: copy_vec(&d.name), file: copy_vec(&d.file), line: d.line }
}

/// Copy the description registry.
pub fn copy_descs(v: &Vec<EventDescription>) -> (r: Vec<EventDescription>)
    ensures
        r@.map_values(|d: EventDescription| d@) == v@.map_values(|d: EventDescription| d@),
{
    let mut r: Vec<EventDescription> = Vec::new();
    let mut i: usize = 0;
    while i < v.len()
        invariant
            i <= v.len(),
            r@.len() == i,
            forall|k: int| 0 <= k < i ==> (#[trigger] r@[k])@ == v@[k]@,
        decreases v.len() - i,
    {
        let d = clone_desc(&v[i]);
        r.push(d);
        i += 1;
    }
    proof {
        assert(r@.map_values(|d: EventDescription| d@) =~= v@.map_values(
            |d: EventDescription| d@,
        ));
    }
    r
}

impl Engine {
    /// Begin a capture session: stamps the session start, resets every thread
    /// context's buffers and the frame tracker, and starts recording. Calling
    /// it while a session already records is a no-op, so a double start
    /// behaves as a single one.
    pub fn start_capture(&mut self)
        requires
            engine_wf(old(self)@),
        ensures
            engine_wf(final(self)@),
            final(self)@ == start_capture_spec(old(self)@),
    {
        if !matches!(self.state, SessionState::Idle) {
            return ;
        }
        if self.clock == u64::MAX {
            return ;
        }
        let now = self.clock;
        let mut i: usize = 0;
        while i < self.threads.len()
            invariant
                engine_wf(old(self)@),
                self.threads.len() == old(self)@.threads.len(),
                i <= self.threads.len(),
                self@ == (EngineModel {
                    threads: self@.threads,
                    ..old(self)@
                }),
                forall|k: int|
                    0 <= k < i ==> (#[trigger] self@.threads[k]) == reset_thread(
                        old(self)@.threads[k],
                    ),
                forall|k: int|
                    i <= k < self@.threads.len() ==> (#[trigger] self@.threads[k]) == old(
                        self,
                    )@.threads[k],
            decreases self.threads.len() - i,
        {
            let ghost prev = self@;
            let ghost told = self@.threads[i as int];
            let t = &mut self.threads[i];
            t.stack.clear();
            t.events.clear();
            t.tags.clear();
            proof {
                assert(told == old(self)@.threads[i as int]);
                assert(self@.threads[i as int] =~~= reset_thread(told));
                assert forall|k: int| 0 <= k < i + 1 implies (#[trigger] self@.threads[k])
                    == reset_thread(old(self)@.threads[k]) by {
                    if k < i {
                        assert(prev.threads[k] == reset_thread(old(self)@.threads[k]));
                        assert(self@.threads[k] == prev.threads[k]);
                    }
                }
                assert forall|k: int| i + 1 <= k < self@.threads.len() implies (
                #[trigger] self@.threads[k]) == old(self)@.threads[k] by {
                    assert(prev.threads[k] == old(self)@.threads[k]);
                    assert(self@.threads[k] == prev.threads[k]);
                }
            }
            i += 1;
        }
        self.frames.clear();
        self.frame_counter = 0;
        self.start_time = now;
        self.clock = now + 1;
        self.state = SessionState::Recording;
        proof {
            assert(self@ =~~= start_capture_spec(old(self)@));
            assert forall|t: int|
                0 <= t < self@.threads.len() implies crate::engine::thread_wf(
                #[trigger] self@.threads[t],
                t as u32,
                self@.clock,
                self@.capacity,
            ) by {
                assert(self@.threads[t] == reset_thread(old(self)@.threads[t]));
                assert(crate::nesting::cnt_open(Seq::<TraceEvent>::empty()) == 0);
            }
            assert(engine_wf(self@));
        }
    }

    /// End a capture session: force-closes every still-open event at the stop
    /// stamp (flagged truncated), drains all buffers, returns the engine to
    /// idle, and yields the finalized capture. A stop without a recording
    /// session is a no-op that yields nothing.
    pub fn finish_capture(&mut self) -> (r: Option<Capture>)
        requires
            engine_wf(old(self)@),
        ensures
            engine_wf(final(self)@),
            final(self)@ == finish_capture_spec(old(self)@).0,
            match r {
                Some(c) => finish_capture_spec(old(self)@).1 == Some(c@),
                None => finish_capture_spec(old(self)@).1 is None,
            },
            r is Some <==> (old(self)@.state is Recording && old(self)@.clock < u64::MAX),
            r is Some ==> capture_wf(r->0@),
    {
        if !matches!(self.state, SessionState::Recording) {
            return None;
        }
        let stamp = self.clock;
        let ghost e0 = old(self)@;
        proof {
            lemma_capture_of_wf(e0);
        }
        // Drain barrier: no recording call is honoured until the stop is done.
        self.state = SessionState::Stopping;
        let mut sections: Vec<ThreadSection> = Vec::new();
        let mut i: usize = 0;
        while i < self.threads.len()
            invariant
                engine_wf(e0),
                e0.state is Recording,
                stamp == e0.clock,
                self.threads.len() == e0.threads.len(),
                i <= self.threads.len(),
                self@ == (EngineModel {
                    state: SessionState::Stopping,
                    threads: self@.threads,
                    ..e0
                }),
                sections@.len() == i,
                forall|k: int|
                    0 <= k < i ==> (#[trigger] sections@[k])@ == section_of(e0.threads[k], stamp),
                forall|k: int|
                    0 <= k < i ==> (#[trigger] self@.threads[k]) == reset_thread(e0.threads[k]),
                forall|k: int|
                    i <= k < self@.threads.len() ==> (#[trigger] self@.threads[k]) == e0.threads[k],
            decreases self.threads.len() - i,
        {
            let ghost prev = self@;
            let ghost told = self@.threads[i as int];
            let t = &mut self.threads[i];
            let ghost tm = e0.threads[i as int];
            proof {
                assert(told == tm);
            }
            // Force-close every still-open event at the stop stamp.
            let mut k: usize = 0;
            while k < t.events.len()
                invariant
                    t.thread_id == tm.thread_id,
                    t.name@ == tm.name,
                    t.tags@.map_values(|x: TraceTag| x@) == tm.tags,
                    t.events@.len() == tm.events.len(),
                    k <= t.events@.len(),
                    forall|p: int|
                        0 <= p < k ==> (#[trigger] t.events@[p]) == close_at(tm.events[p], stamp),
                    forall|p: int| k <= p < t.events@.len() ==> (#[trigger] t.events@[p]) == tm.events[p],
                decreases t.events@.len() - k,
            {
                if t.events[k].end_time == 0 {
                    let mut ev = t.events[k];
                    ev.end_time = stamp;
                    ev.truncated = true;
                    t.events[k] = ev;
                }
                k += 1;
            }
            proof {
                assert(t.events@ =~= tm.events.map_values(
                    |ev: TraceEvent| close_at(ev, stamp),
                ));
            }
            let section = ThreadSection {
                thread_id: t.thread_id,
                name: copy_vec(&t.name),
                events: copy_vec(&t.events),
                tags: copy_tags(&t.tags),
            };
            proof {
                assert(section@ =~~= section_of(tm, stamp));
            }
            sections.push(section);
            t.stack.clear();
            t.events.clear();
            t.tags.clear();
            proof {
                assert(self@.threads[i as int] =~~= reset_thread(tm));
                assert forall|k: int| 0 <= k < i + 1 implies (#[trigger] self@.threads[k])
                    == reset_thread(e0.threads[k]) by {
                    if k < i {
                        assert(prev.threads[k] == reset_thread(e0.threads[k]));
                        assert(self@.threads[k] == prev.threads[k]);
                    }
                }
                assert forall|k: int| i + 1 <= k < self@.threads.len() implies (
                #[trigger] self@.threads[k]) == e0.threads[k] by {
                    assert(prev.threads[k] == e0.threads[k]);
                    assert(self@.threads[k] == prev.threads[k]);
                }
            }
            i += 1;
        }
        let descriptions = copy_descs(&self.registry);
        let frames = copy_vec(&self.frames);
        let capture = Capture { start_time: self.start_time, descriptions, threads: sections, frames };
        proof {
            assert(capture@ =~~= capture_of(e0));
        }
        self.frames.clear();
        self.frame_counter = 0;
        self.state = SessionState::Idle;
        if stamp < u64::MAX {
            self.clock = stamp + 1;
            proof {
                assert(self@ =~~= finish_capture_spec(e0).0);
                assert forall|t: int|
                    0 <= t < self@.threads.len() implies crate::engine::thread_wf(
                    #[trigger] self@.threads[t],
                    t as u32,
                    self@.clock,
                    self@.capacity,
                ) by {
                    assert(crate::nesting::cnt_open(Seq::<TraceEvent>::empty()) == 0);
                }
                assert(engine_wf(self@));
            }
            Some(capture)
        } else {
            proof {
                assert(self@ =~~= finish_capture_spec(e0).0);
                assert forall|t: int|
                    0 <= t < self@.threads.len() implies crate::engine::thread_wf(
                    #[trigger] self@.threads[t],
                    t as u32,
                    self@.clock,
                    self@.capacity,
                ) by {
                    assert(crate::nesting::cnt_open(Seq::<TraceEvent>::empty()) == 0);
                }
                assert(engine_wf(self@));
            }
            None
        }
    }
}

} // verus!
