use optick::engine::Engine;
use optick::model::TagValue;
use optick::tags::OptickTag;
use optick::OptickCounter;

#[test]
fn main_thread_trace_shows_nested_scopes_and_contained_tag() {
    let mut e = Engine::new(64);
    let tid = e.register_thread("Main");
    let update = e.create_description("update", "game.src", 10);
    let physics = e.create_description("physics", "game.src", 20);
    let frame_key = e.create_description("frame", "game.src", 30);
    e.start_capture();
    let h_update = e.push_event(tid, update);
    let h_physics = e.push_event(tid, physics);
    assert!(e.attach_tag(tid, frame_key, TagValue::UInt32(5)));
    e.pop_event(tid, h_physics);
    e.pop_event(tid, h_update);
    let cap = e.finish_capture().unwrap();

    let section = &cap.threads[tid as usize];
    assert_eq!(section.name, b"Main".to_vec());
    assert_eq!(section.events.len(), 2);
    let ev_update = section.events[0];
    let ev_physics = section.events[1];
    assert_eq!(ev_update.description_id, update);
    assert_eq!(ev_physics.description_id, physics);
    // One top-level scope containing one nested scope.
    assert_eq!(ev_update.depth, 0);
    assert_eq!(ev_physics.depth, 1);
    assert!(ev_update.start_time < ev_physics.start_time);
    assert!(ev_physics.end_time <= ev_update.end_time);
    // The tag falls within the open range of "physics".
    let tag = &section.tags[0];
    assert_eq!(tag.description_id, frame_key);
    assert_eq!(tag.value, TagValue::UInt32(5));
    assert!(ev_physics.start_time < tag.timestamp);
    assert!(tag.timestamp < ev_physics.end_time);
    // The description table names both scopes.
    assert_eq!(cap.descriptions[0].name, b"update".to_vec());
    assert_eq!(cap.descriptions[0].file, b"game.src".to_vec());
    assert_eq!(cap.descriptions[0].line, 10);
    assert_eq!(cap.descriptions[1].name, b"physics".to_vec());
}

#[test]
fn stop_with_open_event_force_closes_it_as_truncated() {
    let mut e = Engine::new(64);
    let tid = e.register_thread("Main");
    let outer = e.create_description("outer", "game.src", 1);
    let inner = e.create_description("inner", "game.src", 2);
    e.start_capture();
    let h_outer = e.push_event(tid, outer);
    let h_inner = e.push_event(tid, inner);
    e.pop_event(tid, h_inner);
    // h_outer is never popped: the stop must force-close it.
    let _ = h_outer;
    let stop_stamp = e.clock;
    let cap = e.finish_capture().unwrap();
    let section = &cap.threads[tid as usize];
    assert_eq!(section.events.len(), 2);
    let ev_outer = section.events[0];
    let ev_inner = section.events[1];
    assert!(ev_outer.truncated);
    assert_eq!(ev_outer.end_time, stop_stamp);
    assert_ne!(ev_outer.end_time, 0);
    assert!(ev_outer.end_time >= ev_outer.start_time);
    assert_eq!(ev_outer.depth, 0);
    assert!(!ev_inner.truncated);
    // Depth and nesting survive the forced close.
    assert!(ev_inner.end_time <= ev_outer.end_time);
    assert_eq!(ev_inner.depth, 1);
}

#[test]
fn well_nested_pushes_reconstruct_their_nesting() {
    let mut e = Engine::new(64);
    let tid = e.register_thread("Main");
    let d = e.create_description("scope", "game.src", 1);
    e.start_capture();
    // a( b() c( d() ) ) e()
    let a = e.push_event(tid, d);
    let b = e.push_event(tid, d);
    e.pop_event(tid, b);
    let c = e.push_event(tid, d);
    let d2 = e.push_event(tid, d);
    e.pop_event(tid, d2);
    e.pop_event(tid, c);
    e.pop_event(tid, a);
    let f = e.push_event(tid, d);
    e.pop_event(tid, f);
    let cap = e.finish_capture().unwrap();
    let ev = &cap.threads[tid as usize].events;
    assert_eq!(ev.len(), 5);
    let depths: Vec<u16> = ev.iter().map(|x| x.depth).collect();
    assert_eq!(depths, vec![0, 1, 1, 2, 0]);
    // Events are sorted by start time and properly nested.
    for i in 0..ev.len() {
        for j in (i + 1)..ev.len() {
            assert!(ev[i].start_time < ev[j].start_time);
            if ev[j].start_time < ev[i].end_time {
                assert!(ev[j].end_time <= ev[i].end_time);
                assert!(ev[j].depth > ev[i].depth);
            }
        }
        // The recorded depth equals the number of containing events.
        let containing = ev
            .iter()
            .take(i)
            .filter(|x| x.start_time < ev[i].start_time && ev[i].start_time < x.end_time)
            .count();
        assert_eq!(ev[i].depth as usize, containing);
    }
}

#[test]
fn threads_record_independently() {
    let mut e = Engine::new(64);
    let main = e.register_thread("Main");
    let worker = e.register_thread("Worker");
    let d = e.create_description("work", "job.src", 3);
    e.start_capture();
    let hm = e.push_event(main, d);
    let hw = e.push_event(worker, d);
    e.pop_event(worker, hw);
    e.pop_event(main, hm);
    let cap = e.finish_capture().unwrap();
    assert_eq!(cap.threads.len(), 2);
    assert_eq!(cap.threads[main as usize].events.len(), 1);
    assert_eq!(cap.threads[worker as usize].events.len(), 1);
    // Each event belongs to its own thread; depths do not interfere.
    assert_eq!(cap.threads[main as usize].events[0].depth, 0);
    assert_eq!(cap.threads[worker as usize].events[0].depth, 0);
    assert_eq!(cap.threads[worker as usize].events[0].thread_id, worker);
}

#[test]
fn tag_trait_attaches_typed_values() {
    let mut e = Engine::new(64);
    let tid = e.register_thread("Main");
    let scope = e.create_description("calc", "calc.src", 1);
    let key = e.create_description("number", "calc.src", 2);
    e.start_capture();
    let counter = OptickCounter { event_data: e.push_event(tid, scope) };
    assert!(42i32.attach(&mut e, tid, key));
    assert!(7u32.attach(&mut e, tid, key));
    assert!(9u64.attach(&mut e, tid, key));
    assert!(String::from("Bob").attach(&mut e, tid, key));
    if counter.event_data != 0 {
        e.pop_event(tid, counter.event_data);
    }
    let cap = e.finish_capture().unwrap();
    let tags = &cap.threads[tid as usize].tags;
    assert_eq!(tags.len(), 4);
    assert_eq!(tags[0].value, TagValue::Int32(42));
    assert_eq!(tags[1].value, TagValue::UInt32(7));
    assert_eq!(tags[2].value, TagValue::UInt64(9));
    assert_eq!(tags[3].value, TagValue::Str(b"Bob".to_vec()));
}
