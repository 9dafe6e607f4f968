//! The client registry: viewer sessions keyed by a connection key, bounded in number,
//! with the oldest session making room for a new one.

use crate::text::{bytes_eq, copy_bytes, copy_range, matches_at, split, split_spec, views};
use std::time::Instant;
use vstd::prelude::*;
use vstd::string::StringSliceAdditionalSpecFns;

verus! {

/// The byte that separates the segments of a key.
pub const SEGMENT_SEPARATOR: u8 = 38;

/// The byte that separates a flag's name from its value.
pub const VALUE_SEPARATOR: u8 = 61;

/// The four delivery options of a session.
#[derive(Clone, Copy, Debug, PartialEq, Eq)]
pub struct FlagSet {
    pub dual_final_frames: bool,
    pub advance_headers: bool,
    pub extra_headers: bool,
    pub zero_data: bool,
}

/// One of the four delivery options.
#[derive(Clone, Copy, Debug, PartialEq, Eq)]
pub enum Flag {
    DualFinalFrames,
    AdvanceHeaders,
    ExtraHeaders,
    ZeroData,
}

/// The flag set with every option off.
pub open spec fn no_flags() -> FlagSet {
    FlagSet {
        dual_final_frames: false,
        advance_headers: false,
        extra_headers: false,
        zero_data: false,
    }
}

/// The flag that a name stands for.
pub open spec fn flag_named(name: Seq<u8>) -> Option<Flag> {
    if name == "dual_final_frames".spec_bytes() {
        Some(Flag::DualFinalFrames)
    } else if name == "advance_headers".spec_bytes() {
        Some(Flag::AdvanceHeaders)
    } else if name == "extra_headers".spec_bytes() {
        Some(Flag::ExtraHeaders)
    } else if name == "zero_data".spec_bytes() {
        Some(Flag::ZeroData)
    } else {
        None
    }
}

/// The value that a flag's text stands for: `1` switches on, `0` switches off.
pub open spec fn switch_value(text: Seq<u8>) -> Option<bool> {
    if text == seq![49u8] {
        Some(true)
    } else if text == seq![48u8] {
        Some(false)
    } else {
        None
    }
}

/// What a segment of a key asks for: a known flag's name, `=`, and `1` or `0`.
/// Any other segment asks for nothing.
pub open spec fn segment_meaning(segment: Seq<u8>) -> Option<(Flag, bool)> {
    let parts = split_spec(segment, VALUE_SEPARATOR);
    if parts.len() != 2 {
        None
    } else {
        match (flag_named(parts[0]), switch_value(parts[1])) {
            (Some(flag), Some(value)) => Some((flag, value)),
            _ => None,
        }
    }
}

/// `flags` with one option set to `value`.
pub open spec fn with_flag(flags: FlagSet, flag: Flag, value: bool) -> FlagSet {
    match flag {
        Flag::DualFinalFrames => FlagSet {
            dual_final_frames: value,
            advance_headers: flags.advance_headers,
            extra_headers: flags.extra_headers,
            zero_data: flags.zero_data,
        },
        Flag::AdvanceHeaders => FlagSet {
            dual_final_frames: flags.dual_final_frames,
            advance_headers: value,
            extra_headers: flags.extra_headers,
            zero_data: flags.zero_data,
        },
        Flag::ExtraHeaders => FlagSet {
            dual_final_frames: flags.dual_final_frames,
            advance_headers: flags.advance_headers,
            extra_headers: value,
            zero_data: flags.zero_data,
        },
        Flag::ZeroData => FlagSet {
            dual_final_frames: flags.dual_final_frames,
            advance_headers: flags.advance_headers,
            extra_headers: flags.extra_headers,
            zero_data: value,
        },
    }
}

/// The flags that the segments `1 .. upto` ask for, a later segment overriding an earlier one.
/// Segment 0 is the key's name and asks for nothing.
pub open spec fn flags_upto(segments: Seq<Seq<u8>>, upto: int) -> FlagSet
    decreases upto,
{
    if upto <= 1 {
        no_flags()
    } else {
        let before = flags_upto(segments, upto - 1);
        match segment_meaning(segments[upto - 1]) {
            Some((flag, value)) => with_flag(before, flag, value),
            None => before,
        }
    }
}

/// The segments among `1 .. upto` that ask for nothing, in their order.
pub open spec fn unknown_upto(segments: Seq<Seq<u8>>, upto: int) -> Seq<Seq<u8>>
    decreases upto,
{
    if upto <= 1 {
        Seq::empty()
    } else {
        let before = unknown_upto(segments, upto - 1);
        match segment_meaning(segments[upto - 1]) {
            Some(_) => before,
            None => before.push(segments[upto - 1]),
        }
    }
}

/// The flags embedded in a key: the key is cut at each `&`, and every segment after the
/// first is read as a flag.
pub open spec fn key_flags(key: Seq<u8>) -> FlagSet {
    let segments = split_spec(key, SEGMENT_SEPARATOR);
    flags_upto(segments, segments.len() as int)
}

/// The segments of a key, after the first, that are not a known flag with a value.
pub open spec fn key_unknown_segments(key: Seq<u8>) -> Seq<Seq<u8>> {
    let segments = split_spec(key, SEGMENT_SEPARATOR);
    unknown_upto(segments, segments.len() as int)
}

/// Reads one segment of a key.
pub fn read_segment(segment: &[u8]) -> (meaning: Option<(Flag, bool)>)
    ensures
        meaning == segment_meaning(segment@),
{
    let parts = split(segment, VALUE_SEPARATOR);
    assert(views(parts@).len() == parts@.len());
    if parts.len() != 2 {
        return None;
    }
    assert(views(parts@)[0] == parts[0]@);
    assert(views(parts@)[1] == parts[1]@);
    let name = parts[0].as_slice();
    let text = parts[1].as_slice();
    let flag = if bytes_eq(name, "dual_final_frames".as_bytes()) {
        Flag::DualFinalFrames
    } else if bytes_eq(name, "advance_headers".as_bytes()) {
        Flag::AdvanceHeaders
    } else if bytes_eq(name, "extra_headers".as_bytes()) {
        Flag::ExtraHeaders
    } else if bytes_eq(name, "zero_data".as_bytes()) {
        Flag::ZeroData
    } else {
        return None;
    };
    if text.len() != 1 {
        assert(text@ != seq![49u8] && text@ != seq![48u8]);
        return None;
    }
    let value = if text[0] == 49 {
        assert(text@ =~= seq![49u8]);
        true
    } else if text[0] == 48 {
        assert(text@ =~= seq![48u8]);
        false
    } else {
        assert(text@[0] != seq![49u8][0] && text@[0] != seq![48u8][0]);
        return None;
    };
    Some((flag, value))
}

/// Reads the flags embedded in a key, and collects the segments that are no flag.
pub fn parse_flags(key: &[u8]) -> (parsed: (FlagSet, Vec<Vec<u8>>))
    ensures
        parsed.0 == key_flags(key@),
        views(parsed.1@) == key_unknown_segments(key@),
{
    let segments = split(key, SEGMENT_SEPARATOR);
    let ghost all = split_spec(key@, SEGMENT_SEPARATOR);
    assert(views(segments@).len() == segments@.len());
    let mut flags = FlagSet {
        dual_final_frames: false,
        advance_headers: false,
        extra_headers: false,
        zero_data: false,
    };
    let mut unknown: Vec<Vec<u8>> = Vec::new();
    assert(views(unknown@) =~= unknown_upto(all, 1));
    if segments.len() <= 1 {
        return (flags, unknown);
    }
    let mut i: usize = 1;
    while i < segments.len()
        invariant
            1 <= i <= segments.len(),
            all == views(segments@),
            flags == flags_upto(all, i as int),
            views(unknown@) == unknown_upto(all, i as int),
        decreases segments.len() - i,
    {
        assert(all[i as int] == segments[i as int]@);
        match read_segment(segments[i].as_slice()) {
            Some((flag, value)) => {
                match flag {
                    Flag::DualFinalFrames => {
                        flags.dual_final_frames = value;
                    },
                    Flag::AdvanceHeaders => {
                        flags.advance_headers = value;
                    },
                    Flag::ExtraHeaders => {
                        flags.extra_headers = value;
                    },
                    Flag::ZeroData => {
                        flags.zero_data = value;
                    },
                }
            },
            None => {
                let kept = copy_bytes(segments[i].as_slice());
                assert(views(unknown@.push(kept)) =~= views(unknown@).push(kept@));
                unknown.push(kept);
            },
        }
        i += 1;
    }
    (flags, unknown)
}

/// Whether `b` is ASCII white space.
pub open spec fn is_space(b: u8) -> bool {
    b == 32 || (9 <= b && b <= 13)
}

/// The first index at or after `from` whose byte is white space (`space` true) or is not
/// (`space` false); the length of `s` when there is none.
pub open spec fn scan(s: Seq<u8>, from: int, space: bool) -> int
    decreases s.len() - from,
{
    if from < 0 || from >= s.len() {
        s.len() as int
    } else if is_space(s[from]) == space {
        from
    } else {
        scan(s, from + 1, space)
    }
}

/// Where the second white-space-delimited token of `s` begins; the length of `s` when
/// there is no second token.
pub open spec fn second_token_start(s: Seq<u8>) -> int {
    scan(s, scan(s, scan(s, 0, false), true), false)
}

/// The second white-space-delimited token of `s`.
pub open spec fn second_token(s: Seq<u8>) -> Option<Seq<u8>> {
    let start = second_token_start(s);
    if 0 <= start < s.len() {
        Some(s.subrange(start, scan(s, start, true)))
    } else {
        None
    }
}

/// The marker that introduces the key in a request target.
pub open spec fn key_marker() -> Seq<u8> {
    "?key=".spec_bytes()
}

/// The first index at or after `from` at which `pattern` occurs in `s`; the length of `s`
/// when there is none.
pub open spec fn find_pattern(s: Seq<u8>, pattern: Seq<u8>, from: int) -> int
    decreases s.len() - from,
{
    if from < 0 || from >= s.len() {
        s.len() as int
    } else if crate::text::occurs_at(s, pattern, from) {
        from
    } else {
        find_pattern(s, pattern, from + 1)
    }
}

/// The key in a request target: what stands between the first marker and the next one,
/// or the end. Without a marker there is no key.
pub open spec fn token_key(token: Seq<u8>) -> Option<Seq<u8>> {
    let at = find_pattern(token, key_marker(), 0);
    if 0 <= at < token.len() {
        let start = at + key_marker().len();
        Some(token.subrange(start, find_pattern(token, key_marker(), start)))
    } else {
        None
    }
}

/// The key that a request line carries: the key in its second token.
pub open spec fn header_key(header: Seq<u8>) -> Option<Seq<u8>> {
    match second_token(header) {
        Some(token) => token_key(token),
        None => None,
    }
}

/// The key shared by all viewers that name none.
pub open spec fn sentinel_key() -> Seq<u8> {
    seq![48u8]
}

/// The key under which a session is kept: the one given, or the sentinel.
pub open spec fn resolve_key(key: Option<Seq<u8>>) -> Seq<u8> {
    match key {
        Some(k) => k,
        None => sentinel_key(),
    }
}

fn scan_from(s: &[u8], from: usize, space: bool) -> (at: usize)
    requires
        from <= s.len(),
    ensures
        at == scan(s@, from as int, space),
        from <= at <= s.len(),
{
    let mut i: usize = from;
    while i < s.len()
        invariant
            from <= i <= s.len(),
            scan(s@, from as int, space) == scan(s@, i as int, space),
        decreases s.len() - i,
    {
        let b = s[i];
        let found = (b == 32 || (9 <= b && b <= 13)) == space;
        if found {
            return i;
        }
        i += 1;
    }
    i
}

fn find_pattern_from(s: &[u8], pattern: &[u8], from: usize) -> (at: usize)
    requires
        from <= s.len(),
    ensures
        at == find_pattern(s@, pattern@, from as int),
        from <= at <= s.len(),
        at < s.len() ==> at + pattern@.len() <= s.len(),
{
    let mut i: usize = from;
    while i < s.len()
        invariant
            from <= i <= s.len(),
            find_pattern(s@, pattern@, from as int) == find_pattern(s@, pattern@, i as int),
        decreases s.len() - i,
    {
        if matches_at(s, pattern, i) {
            return i;
        }
        i += 1;
    }
    i
}

/// Extracts the key from a viewer's request line: the text after `?key=` in the second
/// white-space-delimited token.
pub fn parse_key_from_header(header: &[u8]) -> (key: Option<Vec<u8>>)
    ensures
        match header_key(header@) {
            Some(k) => key.is_some() && key.unwrap()@ == k,
            None => key.is_none(),
        },
{
    let a = scan_from(header, 0, false);
    let b = scan_from(header, a, true);
    let start = scan_from(header, b, false);
    if start >= header.len() {
        return None;
    }
    let end = scan_from(header, start, true);
    let token = copy_range(header, start, end);
    let marker = "?key=".as_bytes();
    let at = find_pattern_from(token.as_slice(), marker, 0);
    if at >= token.len() {
        return None;
    }
    let from = at + marker.len();
    let to = find_pattern_from(token.as_slice(), marker, from);
    Some(copy_range(token.as_slice(), from, to))
}

/// Whether `b` is a decimal digit or one of the letters `a` to `f`.
pub open spec fn is_lower_hex(b: u8) -> bool {
    (48 <= b && b <= 57) || (97 <= b && b <= 102)
}

/// Whether `id` has the form of a session id: sixteen lower-case hexadecimal digits.
pub open spec fn valid_id(id: Seq<u8>) -> bool {
    id.len() == 16 && forall|i: int| 0 <= i < 16 ==> is_lower_hex(#[trigger] id[i])
}

/// `std::time::Instant`: a reading of the monotonic clock, carried as it is.
#[verifier::external_type_specification]
#[verifier::external_body]
pub struct ExInstant(Instant);

/// `Instant::now`: the current reading of the monotonic clock. Nothing is claimed of it.
#[verifier::external_body]
fn clock_now() -> (now: Instant) {
    Instant::now()
}

/// `Uuid::new_v4` written by `Uuid::simple`: a random version-4 UUID as its 32
/// lower-case hexadecimal digits, without hyphens. Only the form is claimed, the
/// digits themselves are random.
#[verifier::external_body]
fn fresh_uuid_hex() -> (hex: Vec<u8>)
    ensures
        hex@.len() == 32,
        forall|i: int| 0 <= i < 32 ==> is_lower_hex(#[trigger] hex@[i]),
{
    uuid::Uuid::new_v4().simple().to_string().into_bytes()
}

/// A fresh session id: the first sixteen digits of a random UUID.
pub fn generate_id() -> (id: Vec<u8>)
    ensures
        valid_id(id@),
{
    let hex = fresh_uuid_hex();
    let id = copy_range(hex.as_slice(), 0, 16);
    assert forall|i: int| 0 <= i < 16 implies is_lower_hex(#[trigger] id@[i]) by {
        assert(id@[i] == hex@[i]);
    }
    id
}

/// One connected viewer.
#[derive(Debug)]
pub struct ClientDetails {
    id: Vec<u8>,
    connected_at: Instant,
    last_frame_time: Instant,
    fps: u32,
    flags: FlagSet,
    key: Vec<u8>,
}

/// What a session holds, as plain values.
pub struct ClientView {
    pub id: Seq<u8>,
    pub key: Seq<u8>,
    pub fps: u32,
    pub flags: FlagSet,
}

impl View for ClientDetails {
    type V = ClientView;

    closed spec fn view(&self) -> ClientView {
        ClientView { id: self.id@, key: self.key@, fps: self.fps, flags: self.flags }
    }
}

/// The frame rate that a session opened from a request line starts with.
pub const INITIAL_FPS: u32 = 30;

impl ClientDetails {
    /// The clock's reading when the session was opened.
    pub closed spec fn opened(&self) -> Instant {
        self.connected_at
    }

    /// The clock's reading when the session last saw a frame.
    pub closed spec fn seen(&self) -> Instant {
        self.last_frame_time
    }

    /// A session with the given id under the given key, with the flags that the key
    /// embeds. It was opened, and has last seen a frame, now.
    pub fn with_id(id: Vec<u8>, key: Vec<u8>, fps: u32) -> (client: Self)
        ensures
            client@ == (ClientView { id: id@, key: key@, fps: fps, flags: key_flags(key@) }),
            client.seen() == client.opened(),
    {
        let parsed = parse_flags(key.as_slice());
        let now = clock_now();
        ClientDetails { id, connected_at: now, last_frame_time: now, fps, flags: parsed.0, key }
    }

    /// A session with a fresh id under `key`, or under the sentinel key when none is given.
    pub fn new(key: Option<Vec<u8>>) -> (client: Self)
        ensures
            valid_id(client@.id),
            client@.key == resolve_key(
                match key {
                    Some(k) => Some(k@),
                    None => None,
                },
            ),
            client@.fps == 0,
            client@.flags == key_flags(client@.key),
    {
        let resolved = match key {
            Some(k) => k,
            None => sentinel(),
        };
        ClientDetails::with_id(generate_id(), resolved, 0)
    }

    /// A session with a fresh id under the key that the request line carries.
    pub fn from_header(header: &[u8]) -> (client: Self)
        ensures
            valid_id(client@.id),
            client@.key == resolve_key(header_key(header@)),
            client@.fps == INITIAL_FPS,
            client@.flags == key_flags(client@.key),
    {
        let resolved = match parse_key_from_header(header) {
            Some(k) => k,
            None => sentinel(),
        };
        ClientDetails::with_id(generate_id(), resolved, INITIAL_FPS)
    }

    /// Replaces the session's frame-rate estimate.
    pub fn update_fps(&mut self, fps: u32)
        ensures
            final(self)@ == (ClientView { fps: fps, ..old(self)@ }),
            final(self).opened() == old(self).opened(),
            final(self).seen() == old(self).seen(),
    {
        self.fps = fps;
    }

    /// The session's id.
    pub fn id(&self) -> (id: &Vec<u8>)
        ensures
            id@ == self@.id,
    {
        &self.id
    }

    /// The key under which the session is kept.
    pub fn key(&self) -> (key: &Vec<u8>)
        ensures
            key@ == self@.key,
    {
        &self.key
    }

    /// The session's frame-rate estimate.
    pub fn fps(&self) -> (fps: u32)
        ensures
            fps == self@.fps,
    {
        self.fps
    }

    /// The session's delivery options.
    pub fn flags(&self) -> (flags: FlagSet)
        ensures
            flags == self@.flags,
    {
        self.flags
    }

    /// When the session was opened.
    pub fn connected_at(&self) -> (at: Instant)
        ensures
            at == self.opened(),
    {
        self.connected_at
    }

    /// When the session last saw a frame.
    pub fn last_frame_time(&self) -> (at: Instant)
        ensures
            at == self.seen(),
    {
        self.last_frame_time
    }

    /// A copy of the session.
    pub fn duplicate(&self) -> (copy: Self)
        ensures
            copy@ == self@,
            copy.opened() == self.opened(),
            copy.seen() == self.seen(),
    {
        ClientDetails {
            id: copy_bytes(self.id.as_slice()),
            connected_at: self.connected_at,
            last_frame_time: self.last_frame_time,
            fps: self.fps,
            flags: self.flags,
            key: copy_bytes(self.key.as_slice()),
        }
    }
}

/// The sentinel key as bytes.
pub fn sentinel() -> (key: Vec<u8>)
    ensures
        key@ == sentinel_key(),
{
    let mut key: Vec<u8> = Vec::new();
    key.push(48);
    assert(key@ =~= sentinel_key());
    key
}


/// The index of the first session at or after `from` that is kept under `key`; the
/// number of sessions when there is none.
pub open spec fn position_from(sessions: Seq<ClientView>, key: Seq<u8>, from: int) -> int
    decreases sessions.len() - from,
{
    if from < 0 || from >= sessions.len() {
        sessions.len() as int
    } else if sessions[from].key == key {
        from
    } else {
        position_from(sessions, key, from + 1)
    }
}

/// The index of the session kept under `key`; the number of sessions when there is none.
pub open spec fn position(sessions: Seq<ClientView>, key: Seq<u8>) -> int {
    position_from(sessions, key, 0)
}

/// Whether a session is kept under `key`.
pub open spec fn has_key(sessions: Seq<ClientView>, key: Seq<u8>) -> bool {
    exists|i: int| 0 <= i < sessions.len() && (#[trigger] sessions[i]).key == key
}

/// Whether no two sessions share a key.
pub open spec fn distinct_keys(sessions: Seq<ClientView>) -> bool {
    forall|i: int, j: int|
        0 <= i < j < sessions.len() ==> (#[trigger] sessions[i]).key != (#[trigger] sessions[j]).key
}

/// `position_from` finds the least index with the key, if there is one.
pub proof fn lemma_position(sessions: Seq<ClientView>, key: Seq<u8>, from: int)
    requires
        0 <= from <= sessions.len(),
    ensures
        from <= position_from(sessions, key, from) <= sessions.len(),
        forall|k: int|
            from <= k < position_from(sessions, key, from) ==> (#[trigger] sessions[k]).key != key,
        position_from(sessions, key, from) < sessions.len() ==> sessions[position_from(
            sessions,
            key,
            from,
        )].key == key,
    decreases sessions.len() - from,
{
    if from < sessions.len() && sessions[from].key != key {
        lemma_position(sessions, key, from + 1);
    }
}

/// The sessions without the one kept under `key`.
pub open spec fn without_key(sessions: Seq<ClientView>, key: Seq<u8>) -> Seq<ClientView> {
    let at = position(sessions, key);
    if 0 <= at < sessions.len() {
        sessions.remove(at)
    } else {
        sessions
    }
}

/// What the registry holds, as plain values: the sessions stand in the order in which
/// they were registered, oldest first.
pub struct ClientsView {
    pub queued: u32,
    pub max_clients: u32,
    pub sessions: Seq<ClientView>,
}

impl ClientsView {
    /// The registry's invariant: room for at least one session, never more sessions than
    /// the maximum, and no key twice.
    pub open spec fn wf(self) -> bool {
        &&& self.max_clients >= 1
        &&& self.sessions.len() <= self.max_clients
        &&& distinct_keys(self.sessions)
    }

    /// The registry after `client` was registered: a session under the same key leaves;
    /// if the registry is then still full, the oldest session leaves; the new session
    /// becomes the newest.
    pub open spec fn register(self, client: ClientView) -> ClientsView {
        let kept = without_key(self.sessions, client.key);
        let room = if kept.len() >= self.max_clients && kept.len() > 0 {
            kept.drop_first()
        } else {
            kept
        };
        ClientsView { queued: self.queued, max_clients: self.max_clients, sessions: room.push(client) }
    }

    /// The registry after the session under `key` was removed.
    pub open spec fn unregister(self, key: Seq<u8>) -> ClientsView {
        ClientsView {
            queued: self.queued,
            max_clients: self.max_clients,
            sessions: without_key(self.sessions, key),
        }
    }

    /// The registry after the session under `key`, if there is one, got a new frame rate.
    pub open spec fn with_fps(self, key: Seq<u8>, fps: u32) -> ClientsView {
        let at = position(self.sessions, key);
        if 0 <= at < self.sessions.len() {
            ClientsView {
                queued: self.queued,
                max_clients: self.max_clients,
                sessions: self.sessions.update(at, ClientView { fps: fps, ..self.sessions[at] }),
            }
        } else {
            self
        }
    }

    /// The session kept under `key`.
    pub open spec fn lookup(self, key: Seq<u8>) -> Option<ClientView> {
        let at = position(self.sessions, key);
        if 0 <= at < self.sessions.len() {
            Some(self.sessions[at])
        } else {
            None
        }
    }
}

/// Removing a key leaves the keys distinct, takes away at most one session, and the key
/// is then absent.
pub proof fn lemma_without_key(sessions: Seq<ClientView>, key: Seq<u8>)
    requires
        distinct_keys(sessions),
    ensures
        distinct_keys(without_key(sessions, key)),
        !has_key(without_key(sessions, key), key),
        without_key(sessions, key).len() <= sessions.len(),
        has_key(sessions, key) ==> without_key(sessions, key).len() == sessions.len() - 1,
        !has_key(sessions, key) ==> without_key(sessions, key) == sessions,
{
    lemma_position(sessions, key, 0);
    let at = position(sessions, key);
    let rest = without_key(sessions, key);
    if at < sessions.len() {
        assert forall|i: int, j: int| 0 <= i < j < rest.len() implies (#[trigger] rest[i]).key != (
        #[trigger] rest[j]).key by {
            let si = if i < at { i } else { i + 1 };
            let sj = if j < at { j } else { j + 1 };
            assert(rest[i] == sessions[si]);
            assert(rest[j] == sessions[sj]);
        }
        assert forall|i: int| 0 <= i < rest.len() implies (#[trigger] rest[i]).key != key by {
            let si = if i < at { i } else { i + 1 };
            assert(rest[i] == sessions[si]);
            if si > at {
                assert(sessions[at].key != sessions[si].key);
            }
        }
        assert(sessions[at].key == key);
    } else {
        assert forall|i: int| 0 <= i < sessions.len() implies (#[trigger] sessions[i]).key != key by {}
    }
}

/// The registry never holds more sessions than its maximum, and never a key twice:
/// registering keeps the invariant. A session registered under a new key into a full
/// registry takes the place of exactly the oldest one, and the others keep their order.
pub proof fn lemma_register_bounded(registry: ClientsView, client: ClientView)
    requires
        registry.wf(),
    ensures
        registry.register(client).wf(),
        registry.register(client).sessions.last() == client,
        !has_key(registry.sessions, client.key) && registry.sessions.len() == registry.max_clients
            ==> registry.register(client).sessions == registry.sessions.drop_first().push(client),
        !has_key(registry.sessions, client.key) && registry.sessions.len() < registry.max_clients
            ==> registry.register(client).sessions == registry.sessions.push(client),
{
    lemma_without_key(registry.sessions, client.key);
    let kept = without_key(registry.sessions, client.key);
    let room = if kept.len() >= registry.max_clients && kept.len() > 0 {
        kept.drop_first()
    } else {
        kept
    };
    let after = room.push(client);
    assert forall|i: int| 0 <= i < room.len() implies (#[trigger] room[i]).key != client.key by {
        if kept.len() >= registry.max_clients && kept.len() > 0 {
            assert(room[i] == kept[i + 1]);
        } else {
            assert(room[i] == kept[i]);
        }
    }
    assert forall|i: int, j: int| 0 <= i < j < after.len() implies (#[trigger] after[i]).key != (
    #[trigger] after[j]).key by {
        if j < room.len() {
            if kept.len() >= registry.max_clients && kept.len() > 0 {
                assert(room[i] == kept[i + 1]);
                assert(room[j] == kept[j + 1]);
            }
        } else {
            assert(after[i] == room[i]);
        }
    }
}

/// A session that was just registered is found under its key.
pub proof fn lemma_registered_is_found(registry: ClientsView, client: ClientView)
    requires
        registry.wf(),
    ensures
        registry.register(client).lookup(client.key) == Some(client),
{
    lemma_register_bounded(registry, client);
    let after = registry.register(client).sessions;
    lemma_position(after, client.key, 0);
    let at = position(after, client.key);
    let last = after.len() - 1;
    assert(after[last] == client);
    if at > last {
        assert(after[last].key != client.key);
    }
    if at < last {
        assert(after[at].key != after[last].key);
    }
}

/// Removing a session keeps the registry's invariant.
pub proof fn lemma_unregister_wf(registry: ClientsView, key: Seq<u8>)
    requires
        registry.wf(),
    ensures
        registry.unregister(key).wf(),
        registry.unregister(key).lookup(key).is_none(),
{
    lemma_without_key(registry.sessions, key);
    lemma_position(without_key(registry.sessions, key), key, 0);
}

/// A new frame rate keeps the registry's invariant.
pub proof fn lemma_with_fps_wf(registry: ClientsView, key: Seq<u8>, fps: u32)
    requires
        registry.wf(),
    ensures
        registry.with_fps(key, fps).wf(),
{
    lemma_position(registry.sessions, key, 0);
}

/// The views of a sequence of sessions.
pub open spec fn session_views(sessions: Seq<ClientDetails>) -> Seq<ClientView> {
    Seq::new(sessions.len(), |i: int| sessions[i]@)
}

/// The number of sessions that a registry made by `Clients::new` can hold.
pub const DEFAULT_MAX_CLIENTS: u32 = 2;

/// The frame rate that a registry reports as queued.
pub const DEFAULT_QUEUED_FPS: u32 = 30;

/// The registry of connected viewers.
pub struct Clients {
    queued: u32,
    max_clients: u32,
    sessions: Vec<ClientDetails>,
}

impl View for Clients {
    type V = ClientsView;

    closed spec fn view(&self) -> ClientsView {
        ClientsView {
            queued: self.queued,
            max_clients: self.max_clients,
            sessions: session_views(self.sessions@),
        }
    }
}

fn index_of(sessions: &Vec<ClientDetails>, key: &[u8]) -> (at: usize)
    ensures
        at == position(session_views(sessions@), key@),
        at <= sessions.len(),
{
    let mut i: usize = 0;
    while i < sessions.len()
        invariant
            i <= sessions.len(),
            position(session_views(sessions@), key@) == position_from(
                session_views(sessions@),
                key@,
                i as int,
            ),
        decreases sessions.len() - i,
    {
        assert(session_views(sessions@)[i as int] == sessions[i as int]@);
        if bytes_eq(sessions[i].key.as_slice(), key) {
            return i;
        }
        i += 1;
    }
    i
}

fn resolved(key: Option<Vec<u8>>) -> (out: Vec<u8>)
    ensures
        out@ == resolve_key(
            match key {
                Some(k) => Some(k@),
                None => None,
            },
        ),
{
    match key {
        Some(k) => k,
        None => sentinel(),
    }
}

fn resolved_from_header(header: &[u8]) -> (out: Vec<u8>)
    ensures
        out@ == resolve_key(header_key(header@)),
{
    match parse_key_from_header(header) {
        Some(k) => k,
        None => sentinel(),
    }
}

impl Clients {
    #[verifier::type_invariant]
    spec fn inv(self) -> bool {
        self@.wf()
    }

    /// An empty registry for at most `DEFAULT_MAX_CLIENTS` sessions.
    pub fn new() -> (registry: Self)
        ensures
            registry@.sessions.len() == 0,
            registry@.max_clients == DEFAULT_MAX_CLIENTS,
            registry@.queued == DEFAULT_QUEUED_FPS,
            registry@.wf(),
    {
        Clients::with_max_clients(DEFAULT_MAX_CLIENTS)
    }

    /// An empty registry for at most `max_clients` sessions.
    pub fn with_max_clients(max_clients: u32) -> (registry: Self)
        requires
            max_clients >= 1,
        ensures
            registry@.sessions.len() == 0,
            registry@.max_clients == max_clients,
            registry@.queued == DEFAULT_QUEUED_FPS,
            registry@.wf(),
    {
        Clients { queued: DEFAULT_QUEUED_FPS, max_clients, sessions: Vec::new() }
    }

    /// The number of live sessions.
    pub fn clients(&self) -> (count: u32)
        ensures
            count == self@.sessions.len(),
            count <= self@.max_clients,
            self@.wf(),
    {
        proof {
            use_type_invariant(self);
        }
        self.sessions.len() as u32
    }

    /// The largest number of sessions that the registry holds.
    pub fn max_clients(&self) -> (max: u32)
        ensures
            max == self@.max_clients,
    {
        self.max_clients
    }

    /// The frame rate reported as queued.
    pub fn queued(&self) -> (queued: u32)
        ensures
            queued == self@.queued,
    {
        self.queued
    }

    /// Registers `client`. A session under the same key is replaced; if the registry is
    /// then still full, the oldest session is evicted.
    pub fn register(&mut self, client: ClientDetails)
        ensures
            final(self)@ == old(self)@.register(client@),
            final(self)@.wf(),
    {
        proof {
            use_type_invariant(&*self);
            lemma_register_bounded(self@, client@);
            lemma_without_key(self@.sessions, client@.key);
        }
        let mut sessions: Vec<ClientDetails> = Vec::new();
        core::mem::swap(&mut self.sessions, &mut sessions);
        let ghost before = session_views(sessions@);
        let at = index_of(&sessions, client.key.as_slice());
        if at < sessions.len() {
            sessions.remove(at);
        }
        assert(session_views(sessions@) =~= without_key(before, client@.key));
        if sessions.len() >= self.max_clients as usize && sessions.len() > 0 {
            let ghost kept = session_views(sessions@);
            sessions.remove(0);
            assert(session_views(sessions@) =~= kept.drop_first());
        }
        let ghost room = session_views(sessions@);
        sessions.push(client);
        assert(session_views(sessions@) =~= room.push(client@));
        self.sessions = sessions;
    }

    /// Registers a session with a fresh id under `key`, or under the sentinel key, and
    /// returns the id.
    pub fn add_client(&mut self, key: Option<Vec<u8>>) -> (id: Vec<u8>)
        ensures
            valid_id(id@),
            final(self)@ == old(self)@.register(
                ClientView {
                    id: id@,
                    key: resolve_key(
                        match key {
                            Some(k) => Some(k@),
                            None => None,
                        },
                    ),
                    fps: 0,
                    flags: key_flags(
                        resolve_key(
                            match key {
                                Some(k) => Some(k@),
                                None => None,
                            },
                        ),
                    ),
                },
            ),
            final(self)@.wf(),
    {
        let client = ClientDetails::new(key);
        let id = copy_bytes(client.id.as_slice());
        self.register(client);
        id
    }

    /// Registers a session with a fresh id under the key that the request line carries,
    /// and returns the id and the key.
    pub fn add_client_from_header(&mut self, header: &[u8]) -> (added: (Vec<u8>, Vec<u8>))
        ensures
            valid_id(added.0@),
            added.1@ == resolve_key(header_key(header@)),
            final(self)@ == old(self)@.register(
                ClientView {
                    id: added.0@,
                    key: added.1@,
                    fps: INITIAL_FPS,
                    flags: key_flags(added.1@),
                },
            ),
            old(self)@.wf(),
            final(self)@.wf(),
    {
        proof {
            use_type_invariant(&*self);
        }
        let client = ClientDetails::from_header(header);
        let id = copy_bytes(client.id.as_slice());
        let key = copy_bytes(client.key.as_slice());
        self.register(client);
        (id, key)
    }

    /// Removes the session under the resolved key, if there is one.
    pub fn unregister(&mut self, key: &[u8])
        ensures
            final(self)@ == old(self)@.unregister(key@),
            final(self)@.wf(),
    {
        proof {
            use_type_invariant(&*self);
            lemma_unregister_wf(self@, key@);
        }
        let at = index_of(&self.sessions, key);
        if at < self.sessions.len() {
            let mut sessions: Vec<ClientDetails> = Vec::new();
            core::mem::swap(&mut self.sessions, &mut sessions);
            let ghost before = session_views(sessions@);
            sessions.remove(at);
            assert(session_views(sessions@) =~= before.remove(at as int));
            self.sessions = sessions;
        }
    }

    /// Removes the session under `key`, or under the sentinel key when none is given.
    pub fn remove_client(&mut self, key: Option<Vec<u8>>)
        ensures
            final(self)@ == old(self)@.unregister(
                resolve_key(
                    match key {
                        Some(k) => Some(k@),
                        None => None,
                    },
                ),
            ),
            final(self)@.wf(),
    {
        let key = resolved(key);
        self.unregister(key.as_slice());
    }

    /// Removes the session under the key that the request line carries.
    pub fn remove_client_from_header(&mut self, header: &[u8])
        ensures
            final(self)@ == old(self)@.unregister(resolve_key(header_key(header@))),
            final(self)@.wf(),
    {
        let key = resolved_from_header(header);
        self.unregister(key.as_slice());
    }

    /// The session under the key that the request line carries.
    pub fn get_client_from_header(&self, header: &[u8]) -> (client: Option<&ClientDetails>)
        ensures
            match self@.lookup(resolve_key(header_key(header@))) {
                Some(c) => client.is_some() && client.unwrap()@ == c,
                None => client.is_none(),
            },
    {
        let key = resolved_from_header(header);
        let at = index_of(&self.sessions, key.as_slice());
        if at < self.sessions.len() {
            assert(session_views(self.sessions@)[at as int] == self.sessions[at as int]@);
            Some(&self.sessions[at])
        } else {
            None
        }
    }

    /// The delivery options of the session under `key`, or under the sentinel key when
    /// none is given.
    pub fn get_client_settings(&self, key: Option<Vec<u8>>) -> (flags: Option<FlagSet>)
        ensures
            flags == match self@.lookup(
                resolve_key(
                    match key {
                        Some(k) => Some(k@),
                        None => None,
                    },
                ),
            ) {
                Some(c) => Some(c.flags),
                None => None,
            },
    {
        let key = resolved(key);
        let at = index_of(&self.sessions, key.as_slice());
        if at < self.sessions.len() {
            assert(session_views(self.sessions@)[at as int] == self.sessions[at as int]@);
            Some(self.sessions[at].flags)
        } else {
            None
        }
    }

    /// Replaces the frame-rate estimate of the session under `key`, if there is one.
    pub fn update_fps(&mut self, key: &[u8], fps: u32)
        ensures
            final(self)@ == old(self)@.with_fps(key@, fps),
            final(self)@.wf(),
    {
        proof {
            use_type_invariant(&*self);
            lemma_with_fps_wf(self@, key@, fps);
        }
        let at = index_of(&self.sessions, key);
        if at < self.sessions.len() {
            let mut sessions: Vec<ClientDetails> = Vec::new();
            core::mem::swap(&mut self.sessions, &mut sessions);
            let ghost before = session_views(sessions@);
            let mut client = sessions.remove(at);
            assert(client@ == before[at as int]);
            client.update_fps(fps);
            sessions.insert(at, client);
            assert(session_views(sessions@) =~= before.update(
                at as int,
                ClientView { fps: fps, ..before[at as int] },
            ));
            self.sessions = sessions;
        }
    }

    /// Replaces the frame-rate estimate of the session under the key that the request
    /// line carries, if there is one.
    pub fn update_fps_from_header(&mut self, header: &[u8], fps: u32)
        ensures
            final(self)@ == old(self)@.with_fps(resolve_key(header_key(header@)), fps),
            final(self)@.wf(),
    {
        let key = resolved_from_header(header);
        self.update_fps(key.as_slice(), fps);
    }

    /// A copy of every session, oldest first, for a status report.
    pub fn snapshot_for_reporting(&self) -> (sessions: Vec<ClientDetails>)
        ensures
            session_views(sessions@) == self@.sessions,
    {
        let mut out: Vec<ClientDetails> = Vec::new();
        let mut i: usize = 0;
        while i < self.sessions.len()
            invariant
                i <= self.sessions.len(),
                session_views(out@) == session_views(self.sessions@).subrange(0, i as int),
            decreases self.sessions.len() - i,
        {
            let copy = self.sessions[i].duplicate();
            let ghost done = session_views(out@);
            assert(session_views(self.sessions@)[i as int] == copy@);
            out.push(copy);
            assert(session_views(out@) =~= done.push(copy@));
            i += 1;
            assert(session_views(out@) =~= session_views(self.sessions@).subrange(0, i as int));
        }
        assert(session_views(self.sessions@).subrange(0, self.sessions.len() as int)
            =~= session_views(self.sessions@));
        out
    }
}

} // verus!
