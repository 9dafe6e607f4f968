use ustreamer::client::{
    generate_id, parse_flags, parse_key_from_header, read_segment, ClientDetails, Clients, Flag,
    FlagSet,
};

fn keys_of(registry: &Clients) -> Vec<Vec<u8>> {
    registry.snapshot_for_reporting().iter().map(|c| c.key().clone()).collect()
}

#[test]
fn registry_of_two_keeps_the_two_newest() {
    let mut registry = Clients::new();
    assert_eq!(registry.max_clients(), 2);
    registry.add_client_from_header(b"GET /stream?key=a HTTP/1.1\r\n");
    registry.add_client_from_header(b"GET /stream?key=b HTTP/1.1\r\n");
    registry.add_client_from_header(b"GET /stream?key=c HTTP/1.1\r\n");
    assert_eq!(keys_of(&registry), vec![b"b".to_vec(), b"c".to_vec()]);
    assert_eq!(registry.clients(), 2);
}

#[test]
fn add_client_evicts_oldest_too() {
    let mut registry = Clients::new();
    registry.add_client(Some(b"a".to_vec()));
    registry.add_client(Some(b"b".to_vec()));
    registry.add_client(Some(b"c".to_vec()));
    assert_eq!(keys_of(&registry), vec![b"b".to_vec(), b"c".to_vec()]);
    assert!(registry.get_client_settings(Some(b"a".to_vec())).is_none());
}

#[test]
fn registry_never_exceeds_its_maximum() {
    let mut registry = Clients::with_max_clients(3);
    for i in 0..20u8 {
        registry.add_client(Some(vec![b'k', b'0' + (i % 7)]));
        assert!(registry.clients() <= 3);
    }
    assert_eq!(registry.clients(), 3);
}

#[test]
fn same_key_replaces_and_becomes_newest() {
    let mut registry = Clients::new();
    let first = registry.add_client(Some(b"a".to_vec()));
    registry.add_client(Some(b"b".to_vec()));
    let second = registry.add_client(Some(b"a".to_vec()));
    assert_ne!(first, second);
    assert_eq!(keys_of(&registry), vec![b"b".to_vec(), b"a".to_vec()]);
    let sessions = registry.snapshot_for_reporting();
    assert_eq!(sessions[1].id(), &second);
}

#[test]
fn anonymous_viewers_share_the_sentinel_key() {
    let mut registry = Clients::new();
    let (_, key1) = registry.add_client_from_header(b"GET /stream HTTP/1.1");
    let (_, key2) = registry.add_client_from_header(b"GET");
    assert_eq!(key1, b"0".to_vec());
    assert_eq!(key2, b"0".to_vec());
    assert_eq!(registry.clients(), 1);
    registry.add_client(None);
    assert_eq!(registry.clients(), 1);
}

#[test]
fn remove_of_unknown_key_is_no_op() {
    let mut registry = Clients::new();
    registry.add_client(Some(b"a".to_vec()));
    registry.remove_client(Some(b"zz".to_vec()));
    assert_eq!(registry.clients(), 1);
    registry.remove_client_from_header(b"GET /stream?key=a HTTP/1.1");
    assert_eq!(registry.clients(), 0);
    registry.remove_client(None);
    assert_eq!(registry.clients(), 0);
}

#[test]
fn update_fps_reaches_the_session() {
    let mut registry = Clients::new();
    registry.add_client_from_header(b"GET /stream?key=a HTTP/1.1");
    assert_eq!(registry.get_client_from_header(b"GET /stream?key=a HTTP/1.1").unwrap().fps(), 30);
    registry.update_fps_from_header(b"GET /stream?key=a HTTP/1.1", 17);
    assert_eq!(registry.get_client_from_header(b"GET /stream?key=a HTTP/1.1").unwrap().fps(), 17);
    registry.update_fps_from_header(b"GET /stream?key=nobody HTTP/1.1", 99);
    assert!(registry.get_client_from_header(b"GET /stream?key=nobody HTTP/1.1").is_none());
    assert_eq!(registry.get_client_from_header(b"GET /stream?key=a HTTP/1.1").unwrap().fps(), 17);
}

#[test]
fn key_is_taken_from_the_second_token() {
    assert_eq!(parse_key_from_header(b"GET /stream?key=abc HTTP/1.1"), Some(b"abc".to_vec()));
    assert_eq!(parse_key_from_header(b"  GET \t /stream?key=abc\r\n"), Some(b"abc".to_vec()));
    assert_eq!(parse_key_from_header(b"GET /stream?key= HTTP/1.1"), Some(Vec::new()));
    assert_eq!(parse_key_from_header(b"GET /s?key=a?key=b x"), Some(b"a".to_vec()));
    assert_eq!(parse_key_from_header(b"GET /stream HTTP/1.1"), None);
    assert_eq!(parse_key_from_header(b"/stream?key=abc"), None);
    assert_eq!(parse_key_from_header(b""), None);
    assert_eq!(parse_key_from_header(b"GET  "), None);
    assert_eq!(parse_key_from_header(b"GET /stream HTTP/1.1?key=late"), None);
}

#[test]
fn flags_are_read_from_the_key() {
    let (flags, unknown) = parse_flags(b"abc&advance_headers=1&dual_final_frames=1&bogus&zero_data=2");
    assert_eq!(
        flags,
        FlagSet { dual_final_frames: true, advance_headers: true, extra_headers: false, zero_data: false }
    );
    assert_eq!(unknown, vec![b"bogus".to_vec(), b"zero_data=2".to_vec()]);
    let (flags, unknown) = parse_flags(b"advance_headers=1");
    assert_eq!(
        flags,
        FlagSet { dual_final_frames: false, advance_headers: false, extra_headers: false, zero_data: false }
    );
    assert!(unknown.is_empty());
    let (flags, _) = parse_flags(b"k&extra_headers=1&extra_headers=0&zero_data=1");
    assert!(!flags.extra_headers);
    assert!(flags.zero_data);
}

#[test]
fn segments_mean_what_they_say() {
    assert_eq!(read_segment(b"dual_final_frames=1"), Some((Flag::DualFinalFrames, true)));
    assert_eq!(read_segment(b"advance_headers=0"), Some((Flag::AdvanceHeaders, false)));
    assert_eq!(read_segment(b"extra_headers=1"), Some((Flag::ExtraHeaders, true)));
    assert_eq!(read_segment(b"zero_data=1"), Some((Flag::ZeroData, true)));
    assert_eq!(read_segment(b"zero_data"), None);
    assert_eq!(read_segment(b"zero_data=1=1"), None);
    assert_eq!(read_segment(b"zero_data=true"), None);
    assert_eq!(read_segment(b"other=1"), None);
    assert_eq!(read_segment(b""), None);
}

#[test]
fn registered_flags_are_found_by_key() {
    let mut registry = Clients::new();
    let (_, key) = registry.add_client_from_header(b"GET /stream?key=v&dual_final_frames=1 HTTP/1.1");
    assert_eq!(key, b"v&dual_final_frames=1".to_vec());
    let flags = registry.get_client_settings(Some(key)).unwrap();
    assert!(flags.dual_final_frames);
    assert!(!flags.advance_headers);
    assert!(registry.get_client_settings(Some(b"v".to_vec())).is_none());
}

#[test]
fn ids_are_sixteen_hex_digits_and_fresh() {
    let a = generate_id();
    let b = generate_id();
    assert_eq!(a.len(), 16);
    assert!(a.iter().all(|c| c.is_ascii_digit() || (b'a'..=b'f').contains(c)));
    assert_eq!(a[12], b'4');
    assert_ne!(a, b);
}

#[test]
fn new_sessions_start_as_described() {
    let anonymous = ClientDetails::new(None);
    assert_eq!(anonymous.key(), &b"0".to_vec());
    assert_eq!(anonymous.fps(), 0);
    assert_eq!(anonymous.id().len(), 16);
    let named = ClientDetails::from_header(b"GET /stream?key=k&zero_data=1 HTTP/1.1");
    assert_eq!(named.key(), &b"k&zero_data=1".to_vec());
    assert_eq!(named.fps(), 30);
    assert!(named.flags().zero_data);
    let mut fixed = ClientDetails::with_id(b"0123456789abcdef".to_vec(), b"k".to_vec(), 5);
    assert_eq!(fixed.id(), &b"0123456789abcdef".to_vec());
    fixed.update_fps(12);
    assert_eq!(fixed.fps(), 12);
    let copy = fixed.duplicate();
    assert_eq!(copy.id(), fixed.id());
    assert_eq!(copy.key(), fixed.key());
    assert_eq!(copy.fps(), 12);
    assert!(fixed.last_frame_time() >= fixed.connected_at());
}
