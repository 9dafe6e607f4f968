use ustreamer::unix::{json_response, not_found, route, snapshot_response, stream_head, Route};

#[test]
fn requests_are_told_apart() {
    assert_eq!(route(b"GET /snapshot HTTP/1.1\r\n"), Route::Snapshot);
    assert_eq!(route(b"GET /snapshot HTTP/1.0\r\n"), Route::NotFound);
    assert_eq!(route(b"GET /stream?key=a HTTP/1.1\r\n"), Route::Stream);
    assert_eq!(route(b"GET /state HTTP/1.1\r\n"), Route::State);
    assert_eq!(route(b"GET /ustate HTTP/1.1\r\n"), Route::UState);
    assert_eq!(route(b"GET / HTTP/1.1\r\n"), Route::NotFound);
    assert_eq!(route(b"POST /stream HTTP/1.1\r\n"), Route::NotFound);
    assert_eq!(route(b""), Route::NotFound);
}

#[test]
fn responses_are_bit_exact() {
    assert_eq!(not_found(), b"HTTP/1.1 404 Not Found\r\n\r\n".to_vec());
    assert_eq!(snapshot_response(None, b"d"), b"HTTP/1.1 503 Service Unavailable\r\n\r\n".to_vec());
    assert_eq!(
        snapshot_response(Some(&[1, 2, 3]), b"Mon, 01 Jan 2024 00:00:00 GMT"),
        b"HTTP/1.1 200 OK\r\nContent-Type: image/jpeg\r\nDate: Mon, 01 Jan 2024 00:00:00 GMT\r\nContent-Length: 3\r\n\r\n\x01\x02\x03".to_vec()
    );
    assert_eq!(
        json_response(b"D", b"{\"ok\":true}"),
        b"HTTP/1.1 200 OK\r\nContent-Type: application/json\r\nDate: D\r\nContent-Length: 11\r\n\r\n{\"ok\":true}".to_vec()
    );
    assert_eq!(
        stream_head(b"k", b"0123456789abcdef"),
        b"HTTP/1.1 200 OK\r\nCache-Control: no-store, no-cache, must-revalidate, proxy-revalidate, pre-check=0, post-check=0, max-age=0\r\nPragma: no-cache\r\nExpires: Mon, 3 Jan 2000 12:34:56 GMT\r\nSet-Cookie: stream_client=k/0123456789abcdef; path=/; max-age=30\r\nConnection: keep-alive\r\nContent-Type: multipart/x-mixed-replace;boundary=boundarydonotcross\r\n\r\n".to_vec()
    );
}
