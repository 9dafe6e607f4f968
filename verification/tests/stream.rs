use ustreamer::client::{Clients, FlagSet};
use ustreamer::stream::{build_chunk, CacheRead, Emission, Engine, Phase, Timestamp};

fn flags(dual_final_frames: bool, advance_headers: bool) -> FlagSet {
    FlagSet { dual_final_frames, advance_headers, extra_headers: false, zero_data: false }
}

const T: Timestamp = Timestamp { secs: 1700000000, micros: 42 };

fn chunk_of(e: Emission) -> Option<Vec<u8>> {
    match e {
        Emission::Chunk(c) => Some(c),
        _ => None,
    }
}

#[test]
fn chunk_is_bit_exact() {
    let chunk = build_chunk(&[0xff, 0xd8, 0xff], false, T);
    let mut want = b"--boundarydonotcross\r\nContent-Type: image/jpeg\r\nContent-Length: 3\r\nX-Timestamp: 1700000000.000042\r\n\r\n".to_vec();
    want.extend_from_slice(&[0xff, 0xd8, 0xff]);
    want.extend_from_slice(b"\r\n");
    assert_eq!(chunk, want);
    let chunk = build_chunk(&[7; 120], true, T);
    let mut want = b"--boundarydonotcross\r\nContent-Type: image/jpeg\r\nContent-Length: 120\r\n\r\n".to_vec();
    want.extend_from_slice(&[7; 120]);
    want.extend_from_slice(b"\r\n");
    assert_eq!(chunk, want);
    let chunk = build_chunk(&[], false, Timestamp { secs: 0, micros: 999999 });
    assert_eq!(
        chunk,
        b"--boundarydonotcross\r\nContent-Type: image/jpeg\r\nContent-Length: 0\r\nX-Timestamp: 0.999999\r\n\r\n\r\n".to_vec()
    );
}

#[test]
fn first_iteration_always_emits() {
    let mut engine = Engine::new(b"k".to_vec(), flags(false, true));
    let first = engine.step(CacheRead::Snapshot { skip: true, frame: None }, T);
    assert_eq!(chunk_of(first), Some(build_chunk(&[], true, T)));
    assert!(engine.previous_chunk.is_some());
    let mut engine = Engine::new(b"k".to_vec(), flags(false, true));
    assert!(matches!(engine.step(CacheRead::Timeout, T), Emission::Nothing));
    assert!(engine.previous_chunk.is_none());
}

#[test]
fn skip_run_sends_one_duplicate_with_dual_final_frames() {
    let mut engine = Engine::new(b"k".to_vec(), flags(true, false));
    let first = chunk_of(engine.step(CacheRead::Snapshot { skip: false, frame: Some(vec![1]) }, T)).unwrap();
    let mut duplicates = 0;
    let mut others = 0;
    for _ in 0..10 {
        match engine.step(CacheRead::Snapshot { skip: true, frame: Some(vec![2]) }, T) {
            Emission::Duplicate(c) => {
                assert_eq!(c, first);
                duplicates += 1;
            }
            Emission::Chunk(_) => others += 1,
            Emission::Nothing => {}
        }
    }
    assert_eq!((duplicates, others), (1, 0));
    assert!(matches!(engine.step(CacheRead::Timeout, T), Emission::Nothing));
    let next = chunk_of(engine.step(CacheRead::Snapshot { skip: false, frame: Some(vec![3]) }, T)).unwrap();
    assert_eq!(next, build_chunk(&[3], false, T));
    assert!(matches!(
        engine.step(CacheRead::Snapshot { skip: true, frame: None }, T),
        Emission::Duplicate(_)
    ));
}

#[test]
fn skip_run_sends_nothing_without_dual_final_frames() {
    let mut engine = Engine::new(b"k".to_vec(), flags(false, false));
    engine.step(CacheRead::Snapshot { skip: false, frame: Some(vec![1]) }, T);
    for _ in 0..10 {
        assert!(matches!(
            engine.step(CacheRead::Snapshot { skip: true, frame: Some(vec![2]) }, T),
            Emission::Nothing
        ));
    }
}

#[test]
fn timeout_repeats_the_previous_chunk() {
    let mut engine = Engine::new(b"k".to_vec(), flags(true, false));
    let first = chunk_of(engine.step(CacheRead::Snapshot { skip: false, frame: Some(vec![1]) }, T)).unwrap();
    let later = Timestamp { secs: 1700000001, micros: 0 };
    assert_eq!(chunk_of(engine.step(CacheRead::Timeout, later)), Some(first.clone()));
    assert_eq!(chunk_of(engine.step(CacheRead::Timeout, later)), Some(first));
}

#[test]
fn tick_reports_once_per_second() {
    let mut engine = Engine::new(b"k".to_vec(), flags(false, false));
    for _ in 0..25 {
        assert_eq!(engine.tick(false), None);
    }
    assert_eq!(engine.tick(true), Some(25));
    assert_eq!(engine.frames, 1);
    assert_eq!(engine.tick(true), Some(1));
}

#[test]
fn connection_lifecycle_clears_the_registry() {
    let mut registry = Clients::new();
    let (mut engine, id) = Engine::connect(&mut registry, b"GET /stream?key=v&advance_headers=1 HTTP/1.1");
    assert_eq!(id.len(), 16);
    assert_eq!(engine.phase, Phase::Registered);
    assert!(engine.flags.advance_headers);
    assert_eq!(engine.key, b"v&advance_headers=1".to_vec());
    assert_eq!(registry.clients(), 1);
    registry.update_fps(b"v&advance_headers=1", 3);
    assert!(engine.written(&mut registry, true));
    assert_eq!(engine.phase, Phase::Streaming);
    assert_eq!(registry.snapshot_for_reporting()[0].fps(), 30);
    assert!(engine.written(&mut registry, true));
    assert!(!engine.written(&mut registry, false));
    assert_eq!(engine.phase, Phase::Closed);
    assert_eq!(registry.clients(), 0);
    registry.add_client(Some(b"v&advance_headers=1".to_vec()));
    engine.close(&mut registry);
    assert!(!engine.written(&mut registry, true));
    assert_eq!(registry.clients(), 1);
}

#[test]
fn evicted_session_ends_at_first_write() {
    let mut registry = Clients::with_max_clients(1);
    let (mut engine, _) = Engine::connect(&mut registry, b"GET /stream?key=a HTTP/1.1");
    registry.add_client(Some(b"b".to_vec()));
    assert!(!engine.written(&mut registry, true));
    assert_eq!(engine.phase, Phase::Closed);
    assert_eq!(registry.clients(), 1);
}
