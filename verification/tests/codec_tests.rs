use optick::codec::{parse_capture, serialize_capture};
use optick::engine::Engine;
use optick::model::TagValue;
use optick::session::capture_file_name;

fn recorded_capture() -> optick::capture::Capture {
    let mut e = Engine::new(64);
    let main = e.register_thread("Main");
    let worker = e.register_thread("Worker");
    let update = e.create_description("update", "game.src", 10);
    let physics = e.create_description("physics", "game.src", 20);
    let key = e.create_description("k", "game.src", 30);
    e.start_capture();
    let h1 = e.push_event(main, update);
    let h2 = e.push_event(main, physics);
    assert!(e.attach_tag(main, key, TagValue::Str(b"hello".to_vec())));
    assert!(e.attach_tag(main, key, TagValue::Int32(-5)));
    assert!(e.attach_tag(main, key, TagValue::UInt32(7)));
    assert!(e.attach_tag(main, key, TagValue::UInt64(u64::MAX)));
    assert!(e.attach_tag(main, key, TagValue::Float(1.5f32.to_bits())));
    assert!(e.attach_tag(
        main,
        key,
        TagValue::Point3(10.0f32.to_bits(), (-12.0f32).to_bits(), 14.0f32.to_bits())
    ));
    e.pop_event(main, h2);
    e.next_frame();
    let h3 = e.push_event(worker, update);
    e.pop_event(worker, h3);
    e.next_frame();
    e.pop_event(main, h1);
    // One event left open on the worker: force-closed at stop.
    let _ = e.push_event(worker, physics);
    e.finish_capture().unwrap()
}

#[test]
fn serialized_capture_parses_back_identically() {
    let cap = recorded_capture();
    let bytes = serialize_capture(&cap);
    let parsed = parse_capture(&bytes).expect("a canonical encoding must parse");
    assert_eq!(parsed, cap);
}

#[test]
fn empty_capture_round_trips() {
    let mut e = Engine::new(8);
    e.start_capture();
    let cap = e.finish_capture().unwrap();
    let bytes = serialize_capture(&cap);
    let parsed = parse_capture(&bytes).unwrap();
    assert_eq!(parsed, cap);
    assert_eq!(parsed.threads.len(), 0);
    assert_eq!(parsed.frames.len(), 0);
}

#[test]
fn parse_rejects_a_wrong_version() {
    let cap = recorded_capture();
    let mut bytes = serialize_capture(&cap);
    bytes[0] ^= 0xFF;
    assert!(parse_capture(&bytes).is_none());
}

#[test]
fn parse_rejects_trailing_bytes() {
    let cap = recorded_capture();
    let mut bytes = serialize_capture(&cap);
    bytes.push(0);
    assert!(parse_capture(&bytes).is_none());
}

#[test]
fn parse_rejects_a_truncated_input() {
    let cap = recorded_capture();
    let mut bytes = serialize_capture(&cap);
    bytes.pop();
    assert!(parse_capture(&bytes).is_none());
    assert!(parse_capture(&Vec::new()).is_none());
}

#[test]
fn capture_file_name_appends_stamp_and_extension() {
    assert_eq!(capture_file_name("capture", 42), b"capture_42.opt".to_vec());
    assert_eq!(capture_file_name("trace", 0), b"trace_0.opt".to_vec());
    assert_eq!(capture_file_name("t", 1203), b"t_1203.opt".to_vec());
}

#[test]
fn stop_capture_produces_the_named_artifact() {
    let mut e = Engine::new(64);
    let tid = e.register_thread("Main");
    let d = e.create_description("update", "game.src", 10);
    e.start_capture();
    let h = e.push_event(tid, d);
    e.pop_event(tid, h);
    let stamp = e.clock;
    let file = e.stop_capture("mytrace").expect("recording session must yield a file");
    assert_eq!(file.name, capture_file_name("mytrace", stamp));
    let parsed = parse_capture(&file.data).unwrap();
    assert_eq!(parsed, file.capture);
    assert_eq!(file.capture.threads[tid as usize].events.len(), 1);
    // The engine is idle again and a new session can start.
    assert!(e.stop_capture("mytrace").is_none());
    e.start_capture();
    assert!(e.finish_capture().is_some());
}
