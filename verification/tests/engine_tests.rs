use optick::engine::{Engine, INVALID_THREAD};
use optick::model::{SessionState, TagValue};

#[test]
fn enabled_reports_true() {
    assert!(optick::enabled());
}

#[test]
fn create_description_is_idempotent_per_site() {
    let mut e = Engine::new(64);
    let a = e.create_description("update", "game.src", 10);
    let b = e.create_description("update", "game.src", 10);
    let c = e.create_description("update", "game.src", 10);
    assert_eq!(a, 1);
    assert_eq!(b, a);
    assert_eq!(c, a);
    assert_eq!(e.registry.len(), 1);
    let d = e.create_description("physics", "game.src", 20);
    assert_eq!(d, 2);
    assert_eq!(e.registry.len(), 2);
    // Same name, different line: a distinct call site.
    let f = e.create_description("update", "game.src", 11);
    assert_eq!(f, 3);
}

#[test]
fn create_description_discards_oversized_names() {
    let mut e = Engine::new(64);
    let long = "x".repeat(0x10000);
    let id = e.create_description(&long, "game.src", 1);
    assert_eq!(id, 0);
    assert_eq!(e.registry.len(), 0);
    // The discard path leaves later registrations intact.
    assert_eq!(e.create_description("ok", "game.src", 1), 1);
}

#[test]
fn push_and_pop_are_noops_while_idle() {
    let mut e = Engine::new(64);
    let tid = e.register_thread("Main");
    let desc = e.create_description("update", "game.src", 10);
    let handle = e.push_event(tid, desc);
    assert_eq!(handle, 0);
    e.pop_event(tid, handle);
    assert!(matches!(e.state, SessionState::Idle));
    assert_eq!(e.threads[tid as usize].events.len(), 0);
    assert!(!e.attach_tag(tid, desc, TagValue::UInt32(5)));
}

#[test]
fn register_thread_hands_out_successive_ids() {
    let mut e = Engine::new(64);
    let a = e.register_thread("Main");
    let b = e.register_thread("Worker");
    assert_eq!(a, 0);
    assert_eq!(b, 1);
    assert!(e.update_thread_name(a, "MainThread"));
    assert_eq!(e.threads[0].name, b"MainThread".to_vec());
    assert!(!e.update_thread_name(7, "Ghostly"));
    assert_eq!(e.register_thread(&"x".repeat(0x10000)), INVALID_THREAD);
}

#[test]
fn push_pop_records_a_closed_event() {
    let mut e = Engine::new(64);
    let tid = e.register_thread("Main");
    let desc = e.create_description("update", "game.src", 10);
    e.start_capture();
    let handle = e.push_event(tid, desc);
    assert_eq!(handle, 1);
    e.pop_event(tid, handle);
    let cap = e.finish_capture().expect("a recording session must yield a capture");
    assert_eq!(cap.threads.len(), 1);
    let events = &cap.threads[tid as usize].events;
    assert_eq!(events.len(), 1);
    let ev = events[0];
    assert_eq!(ev.description_id, desc);
    assert!(ev.end_time > ev.start_time);
    assert!(!ev.truncated);
    assert_eq!(ev.depth, 0);
    assert_eq!(ev.thread_id, tid);
}

#[test]
fn malformed_pops_are_ignored() {
    let mut e = Engine::new(64);
    let tid = e.register_thread("Main");
    let desc = e.create_description("update", "game.src", 10);
    e.start_capture();
    // Pop with nothing open.
    e.pop_event(tid, 1);
    let h1 = e.push_event(tid, desc);
    let h2 = e.push_event(tid, desc);
    // Out-of-order pop (h1 is not the innermost): ignored.
    e.pop_event(tid, h1);
    assert_eq!(e.threads[tid as usize].stack.len(), 2);
    // Unknown handle: ignored.
    e.pop_event(tid, 77);
    // Unknown thread: ignored.
    e.pop_event(9, h2);
    e.pop_event(tid, h2);
    e.pop_event(tid, h1);
    let cap = e.finish_capture().unwrap();
    let events = &cap.threads[tid as usize].events;
    assert_eq!(events.len(), 2);
    assert!(!events[0].truncated);
    assert!(!events[1].truncated);
}

#[test]
fn exhausted_buffers_drop_events_and_tags() {
    let mut e = Engine::new(2);
    let tid = e.register_thread("Main");
    let desc = e.create_description("update", "game.src", 10);
    e.start_capture();
    let h1 = e.push_event(tid, desc);
    e.pop_event(tid, h1);
    let h2 = e.push_event(tid, desc);
    e.pop_event(tid, h2);
    let h3 = e.push_event(tid, desc);
    assert_eq!(h3, 0);
    assert!(e.attach_tag(tid, desc, TagValue::UInt32(1)));
    assert!(e.attach_tag(tid, desc, TagValue::UInt32(2)));
    assert!(!e.attach_tag(tid, desc, TagValue::UInt32(3)));
    let cap = e.finish_capture().unwrap();
    assert_eq!(cap.threads[tid as usize].events.len(), 2);
    assert_eq!(cap.threads[tid as usize].tags.len(), 2);
}

#[test]
fn next_frame_yields_one_marker_per_call() {
    let mut e = Engine::new(64);
    e.register_thread("Main");
    // Outside a session frame marking is a no-op.
    e.next_frame();
    e.start_capture();
    e.next_frame();
    e.next_frame();
    e.next_frame();
    let cap = e.finish_capture().unwrap();
    assert_eq!(cap.frames.len(), 3);
    assert_eq!(cap.frames[0].number, 1);
    assert_eq!(cap.frames[1].number, 2);
    assert_eq!(cap.frames[2].number, 3);
    assert!(cap.frames[0].timestamp < cap.frames[1].timestamp);
    assert!(cap.frames[1].timestamp < cap.frames[2].timestamp);
}

#[test]
fn double_start_behaves_as_a_single_start() {
    let mut e = Engine::new(64);
    let tid = e.register_thread("Main");
    let desc = e.create_description("update", "game.src", 10);
    e.start_capture();
    let h = e.push_event(tid, desc);
    // A second start while recording is a no-op: buffers are not reset again.
    e.start_capture();
    assert!(matches!(e.state, SessionState::Recording));
    assert_eq!(e.threads[tid as usize].events.len(), 1);
    e.pop_event(tid, h);
    let cap = e.finish_capture().unwrap();
    assert_eq!(cap.threads[tid as usize].events.len(), 1);
}

#[test]
fn stop_while_idle_has_no_observable_effect() {
    let mut e = Engine::new(64);
    e.register_thread("Main");
    let clock_before = e.clock;
    assert!(e.finish_capture().is_none());
    assert!(e.stop_capture("trace").is_none());
    assert!(matches!(e.state, SessionState::Idle));
    assert_eq!(e.clock, clock_before);
}

#[test]
fn start_capture_resets_previous_buffers() {
    let mut e = Engine::new(64);
    let tid = e.register_thread("Main");
    let desc = e.create_description("update", "game.src", 10);
    e.start_capture();
    let h = e.push_event(tid, desc);
    e.pop_event(tid, h);
    e.next_frame();
    assert!(e.finish_capture().is_some());
    e.start_capture();
    assert_eq!(e.threads[tid as usize].events.len(), 0);
    assert_eq!(e.frames.len(), 0);
    assert_eq!(e.frame_counter, 0);
    let cap = e.finish_capture().unwrap();
    assert_eq!(cap.threads[tid as usize].events.len(), 0);
    assert_eq!(cap.frames.len(), 0);
}

#[test]
fn attach_tag_stamps_between_push_and_pop() {
    let mut e = Engine::new(64);
    let tid = e.register_thread("Main");
    let scope = e.create_description("update", "game.src", 10);
    let key = e.create_description("count", "game.src", 11);
    e.start_capture();
    let h = e.push_event(tid, scope);
    assert!(e.attach_tag(tid, key, TagValue::UInt64(99)));
    e.pop_event(tid, h);
    let cap = e.finish_capture().unwrap();
    let section = &cap.threads[tid as usize];
    let ev = section.events[0];
    let tag = &section.tags[0];
    assert_eq!(tag.description_id, key);
    assert_eq!(tag.thread_id, tid);
    assert!(ev.start_time < tag.timestamp && tag.timestamp < ev.end_time);
    assert_eq!(tag.value, TagValue::UInt64(99));
}

#[test]
fn oversized_string_tag_is_dropped() {
    let mut e = Engine::new(64);
    let tid = e.register_thread("Main");
    let key = e.create_description("blob", "game.src", 1);
    e.start_capture();
    let long = vec![0x61u8; 0x10000];
    assert!(!e.attach_tag(tid, key, TagValue::Str(long)));
    assert!(e.attach_tag(tid, key, TagValue::Str(vec![0x61u8; 0xFFFF])));
    let cap = e.finish_capture().unwrap();
    assert_eq!(cap.threads[tid as usize].tags.len(), 1);
}

#[test]
fn capacity_is_clamped_to_the_slot_limit() {
    let e = Engine::new(usize::MAX);
    assert_eq!(e.capacity, 0xFFFF);
    let e2 = Engine::new(16);
    assert_eq!(e2.capacity, 16);
}

#[test]
fn empty_names_are_valid() {
    let mut e = Engine::new(8);
    let tid = e.register_thread("");
    let d = e.create_description("", "", 0);
    assert_eq!(d, 1);
    assert_eq!(e.create_description("", "", 0), 1);
    e.start_capture();
    let h = e.push_event(tid, d);
    e.pop_event(tid, h);
    let cap = e.finish_capture().unwrap();
    assert_eq!(cap.threads[tid as usize].name, Vec::<u8>::new());
    assert_eq!(cap.descriptions[0].name, Vec::<u8>::new());
}

#[test]
fn unknown_description_is_not_recorded() {
    let mut e = Engine::new(64);
    let tid = e.register_thread("Main");
    e.start_capture();
    assert_eq!(e.push_event(tid, 0), 0);
    assert_eq!(e.push_event(tid, 5), 0);
    assert!(!e.attach_tag(tid, 5, TagValue::UInt32(1)));
    let cap = e.finish_capture().unwrap();
    assert_eq!(cap.threads[tid as usize].events.len(), 0);
    assert_eq!(cap.threads[tid as usize].tags.len(), 0);
}
