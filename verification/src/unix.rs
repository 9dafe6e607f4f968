//! The viewer-facing protocol: which request is which, and the bytes of each response.

use crate::text::{append, append_decimal, append_str, decimal_spec, starts_with, starts_with_spec};
use vstd::prelude::*;
use vstd::string::StringSliceAdditionalSpecFns;

verus! {

/// The requests that the server knows.
#[derive(Clone, Copy, Debug, PartialEq, Eq)]
pub enum Route {
    /// One JPEG, the current frame.
    Snapshot,
    /// The multipart stream.
    Stream,
    /// The status report with the client registry.
    State,
    /// The status report of the stream alone.
    UState,
    /// Anything else.
    NotFound,
}

/// The request that a request line asks for, by how the line begins.
pub open spec fn route_of(line: Seq<u8>) -> Route {
    if starts_with_spec(line, "GET /snapshot HTTP/1.1".spec_bytes()) {
        Route::Snapshot
    } else if starts_with_spec(line, "GET /stream".spec_bytes()) {
        Route::Stream
    } else if starts_with_spec(line, "GET /state".spec_bytes()) {
        Route::State
    } else if starts_with_spec(line, "GET /ustate".spec_bytes()) {
        Route::UState
    } else {
        Route::NotFound
    }
}

/// Tells the requests apart.
pub fn route(line: &[u8]) -> (route: Route)
    ensures
        route == route_of(line@),
{
    if starts_with(line, "GET /snapshot HTTP/1.1".as_bytes()) {
        Route::Snapshot
    } else if starts_with(line, "GET /stream".as_bytes()) {
        Route::Stream
    } else if starts_with(line, "GET /state".as_bytes()) {
        Route::State
    } else if starts_with(line, "GET /ustate".as_bytes()) {
        Route::UState
    } else {
        Route::NotFound
    }
}

/// The response to a request that the server does not know.
pub open spec fn not_found_bytes() -> Seq<u8> {
    "HTTP/1.1 404 Not Found\r\n\r\n".spec_bytes()
}

/// The response to a snapshot request while no frame has arrived.
pub open spec fn unavailable_bytes() -> Seq<u8> {
    "HTTP/1.1 503 Service Unavailable\r\n\r\n".spec_bytes()
}

/// The response that carries a body: status line, content type, date, length, a
/// blank line, the body.
pub open spec fn response_bytes(content_type: Seq<u8>, date: Seq<u8>, body: Seq<u8>) -> Seq<u8> {
    "HTTP/1.1 200 OK\r\nContent-Type: ".spec_bytes() + content_type + "\r\nDate: ".spec_bytes()
        + date + "\r\nContent-Length: ".spec_bytes() + decimal_spec(body.len()) + "\r\n\r\n".spec_bytes()
        + body
}

/// The response to a snapshot request: the frame as a JPEG, or the 503 response
/// while there is none.
pub open spec fn snapshot_bytes(frame: Option<Seq<u8>>, date: Seq<u8>) -> Seq<u8> {
    match frame {
        Some(jpeg) => response_bytes("image/jpeg".spec_bytes(), date, jpeg),
        None => unavailable_bytes(),
    }
}

/// The head of the response that opens a stream. It names the session in a cookie.
pub open spec fn stream_head_bytes(key: Seq<u8>, id: Seq<u8>) -> Seq<u8> {
    "HTTP/1.1 200 OK\r\nCache-Control: no-store, no-cache, must-revalidate, proxy-revalidate, pre-check=0, post-check=0, max-age=0\r\nPragma: no-cache\r\nExpires: Mon, 3 Jan 2000 12:34:56 GMT\r\nSet-Cookie: stream_client=".spec_bytes()
        + key + "/".spec_bytes() + id
        + "; path=/; max-age=30\r\nConnection: keep-alive\r\nContent-Type: multipart/x-mixed-replace;boundary=boundarydonotcross\r\n\r\n".spec_bytes()
}

/// Builds the response to a request that the server does not know.
pub fn not_found() -> (response: Vec<u8>)
    ensures
        response@ == not_found_bytes(),
{
    let mut response: Vec<u8> = Vec::new();
    append_str(&mut response, "HTTP/1.1 404 Not Found\r\n\r\n");
    assert(response@ =~= not_found_bytes());
    response
}

/// Builds a response that carries a body.
pub fn response(content_type: &str, date: &[u8], body: &[u8]) -> (response: Vec<u8>)
    ensures
        response@ == response_bytes(content_type.spec_bytes(), date@, body@),
{
    let mut response: Vec<u8> = Vec::new();
    append_str(&mut response, "HTTP/1.1 200 OK\r\nContent-Type: ");
    append_str(&mut response, content_type);
    append_str(&mut response, "\r\nDate: ");
    append(&mut response, date);
    append_str(&mut response, "\r\nContent-Length: ");
    append_decimal(&mut response, body.len() as u64);
    append_str(&mut response, "\r\n\r\n");
    append(&mut response, body);
    assert(response@ =~= response_bytes(content_type.spec_bytes(), date@, body@));
    response
}

/// Builds the response to a snapshot request.
pub fn snapshot_response(frame: Option<&[u8]>, date: &[u8]) -> (response: Vec<u8>)
    ensures
        response@ == snapshot_bytes(
            match frame {
                Some(jpeg) => Some(jpeg@),
                None => None,
            },
            date@,
        ),
{
    match frame {
        Some(jpeg) => response("image/jpeg", date, jpeg),
        None => {
            let mut response: Vec<u8> = Vec::new();
            append_str(&mut response, "HTTP/1.1 503 Service Unavailable\r\n\r\n");
            assert(response@ =~= unavailable_bytes());
            response
        },
    }
}

/// Builds the response to a status request from the report's JSON text.
pub fn json_response(date: &[u8], body: &[u8]) -> (response: Vec<u8>)
    ensures
        response@ == response_bytes("application/json".spec_bytes(), date@, body@),
{
    response("application/json", date, body)
}

/// Builds the head of the response that opens a stream.
pub fn stream_head(key: &[u8], id: &[u8]) -> (head: Vec<u8>)
    ensures
        head@ == stream_head_bytes(key@, id@),
{
    let mut head: Vec<u8> = Vec::new();
    append_str(
        &mut head,
        "HTTP/1.1 200 OK\r\nCache-Control: no-store, no-cache, must-revalidate, proxy-revalidate, pre-check=0, post-check=0, max-age=0\r\nPragma: no-cache\r\nExpires: Mon, 3 Jan 2000 12:34:56 GMT\r\nSet-Cookie: stream_client=",
    );
    append(&mut head, key);
    append_str(&mut head, "/");
    append(&mut head, id);
    append_str(
        &mut head,
        "; path=/; max-age=30\r\nConnection: keep-alive\r\nContent-Type: multipart/x-mixed-replace;boundary=boundarydonotcross\r\n\r\n",
    );
    assert(head@ =~= stream_head_bytes(key@, id@));
    head
}

} // verus!
