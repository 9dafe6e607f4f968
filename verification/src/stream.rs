//! The streaming engine of one viewer connection: what it emits in each iteration,
//! from what it read of the frame cache.

use crate::client::{Clients, FlagSet, INITIAL_FPS};
use crate::text::{append, append_decimal, append_str, copy_bytes, decimal_spec};
use vstd::prelude::*;
use vstd::string::StringSliceAdditionalSpecFns;

verus! {

/// Wall-clock time as whole seconds and microseconds since the epoch.
#[derive(Clone, Copy, Debug)]
pub struct Timestamp {
    pub secs: u64,
    pub micros: u32,
}

/// The six digits that write the microseconds of a timestamp.
pub open spec fn micros_digits(micros: u32) -> Seq<u8> {
    seq![
        (48 + micros / 100000 % 10) as u8,
        (48 + micros / 10000 % 10) as u8,
        (48 + micros / 1000 % 10) as u8,
        (48 + micros / 100 % 10) as u8,
        (48 + micros / 10 % 10) as u8,
        (48 + micros % 10) as u8,
    ]
}

/// The header line that carries the time: seconds with six decimal places.
pub open spec fn timestamp_line(time: Timestamp) -> Seq<u8> {
    "X-Timestamp: ".spec_bytes() + decimal_spec(time.secs as nat) + ".".spec_bytes()
        + micros_digits(time.micros) + "\r\n".spec_bytes()
}

/// The head of a part: the boundary, the content type and the payload's length.
pub open spec fn part_head(len: nat) -> Seq<u8> {
    "--boundarydonotcross\r\nContent-Type: image/jpeg\r\nContent-Length: ".spec_bytes()
        + decimal_spec(len) + "\r\n".spec_bytes()
}

/// One part of the multipart stream: the head, the time unless `advance_headers` is
/// set, a blank line, the payload, and a line end.
pub open spec fn chunk_bytes(payload: Seq<u8>, advance_headers: bool, time: Timestamp) -> Seq<u8> {
    part_head(payload.len()) + (if advance_headers {
        Seq::empty()
    } else {
        timestamp_line(time)
    }) + "\r\n".spec_bytes() + payload + "\r\n".spec_bytes()
}

/// Builds one part of the multipart stream.
pub fn build_chunk(payload: &[u8], advance_headers: bool, time: Timestamp) -> (chunk: Vec<u8>)
    ensures
        chunk@ == chunk_bytes(payload@, advance_headers, time),
{
    let mut chunk: Vec<u8> = Vec::new();
    append_str(
        &mut chunk,
        "--boundarydonotcross\r\nContent-Type: image/jpeg\r\nContent-Length: ",
    );
    append_decimal(&mut chunk, payload.len() as u64);
    append_str(&mut chunk, "\r\n");
    assert(chunk@ =~= part_head(payload@.len()));
    if !advance_headers {
        let ghost head = chunk@;
        append_str(&mut chunk, "X-Timestamp: ");
        append_decimal(&mut chunk, time.secs);
        append_str(&mut chunk, ".");
        let m = time.micros;
        let ghost upto = chunk@;
        chunk.push((48 + m / 100000 % 10) as u8);
        chunk.push((48 + m / 10000 % 10) as u8);
        chunk.push((48 + m / 1000 % 10) as u8);
        chunk.push((48 + m / 100 % 10) as u8);
        chunk.push((48 + m / 10 % 10) as u8);
        chunk.push((48 + m % 10) as u8);
        assert(chunk@ =~= upto + micros_digits(m));
        append_str(&mut chunk, "\r\n");
        assert(chunk@ =~= head + timestamp_line(time));
    }
    append_str(&mut chunk, "\r\n");
    append(&mut chunk, payload);
    append_str(&mut chunk, "\r\n");
    assert(chunk@ =~= chunk_bytes(payload@, advance_headers, time));
    chunk
}

/// What an iteration read of the frame cache.
#[derive(Debug)]
pub enum CacheRead {
    /// The cache could not be read in time.
    Timeout,
    /// The cache's skip flag and frame.
    Snapshot { skip: bool, frame: Option<Vec<u8>> },
}

/// What an iteration read, as plain values.
pub enum ReadView {
    Timeout,
    Snapshot { skip: bool, frame: Option<Seq<u8>> },
}

impl CacheRead {
    /// What a reader that holds the cache sees of it: the skip flag and the frame.
    pub fn snapshot(cache: &crate::img::ImageData) -> (read: CacheRead)
        ensures
            read@ == (ReadView::Snapshot { skip: cache@.skip, frame: cache@.frame }),
    {
        CacheRead::Snapshot {
            skip: cache.skip,
            frame: match &cache.frame {
                Some(bytes) => Some(copy_bytes(bytes.as_slice())),
                None => None,
            },
        }
    }
}

impl View for CacheRead {
    type V = ReadView;

    open spec fn view(&self) -> ReadView {
        match *self {
            CacheRead::Timeout => ReadView::Timeout,
            CacheRead::Snapshot { skip, frame } => ReadView::Snapshot {
                skip: skip,
                frame: match frame {
                    Some(bytes) => Some(bytes@),
                    None => None,
                },
            },
        }
    }
}

/// What an iteration sends to the viewer.
#[derive(Debug)]
pub enum Emission {
    /// A part: a new one, or the previous one again after a read that timed out.
    Chunk(Vec<u8>),
    /// The previous part once more, as the sign that the stream pauses.
    Duplicate(Vec<u8>),
    /// Nothing.
    Nothing,
}

/// What an iteration sends, as plain values.
pub enum EmissionView {
    Chunk(Seq<u8>),
    Duplicate(Seq<u8>),
    Nothing,
}

impl View for Emission {
    type V = EmissionView;

    open spec fn view(&self) -> EmissionView {
        match *self {
            Emission::Chunk(bytes) => EmissionView::Chunk(bytes@),
            Emission::Duplicate(bytes) => EmissionView::Duplicate(bytes@),
            Emission::Nothing => EmissionView::Nothing,
        }
    }
}

/// Where a connection stands.
#[derive(Clone, Copy, Debug, PartialEq, Eq)]
pub enum Phase {
    /// The session is registered and nothing has been written.
    Registered,
    /// At least one part has been written.
    Streaming,
    /// The connection is over and the session is gone from the registry.
    Closed,
}

/// The state of one viewer connection.
#[derive(Debug)]
pub struct Engine {
    pub previous_chunk: Option<Vec<u8>>,
    pub duplicate_sent: bool,
    pub skipping: bool,
    pub flags: FlagSet,
    pub frames: u32,
    pub phase: Phase,
    pub key: Vec<u8>,
}

/// The state of one viewer connection, as plain values.
pub struct EngineView {
    pub previous_chunk: Option<Seq<u8>>,
    pub duplicate_sent: bool,
    pub skipping: bool,
    pub flags: FlagSet,
    pub frames: u32,
    pub phase: Phase,
    pub key: Seq<u8>,
}

impl View for Engine {
    type V = EngineView;

    open spec fn view(&self) -> EngineView {
        EngineView {
            previous_chunk: match self.previous_chunk {
                Some(bytes) => Some(bytes@),
                None => None,
            },
            duplicate_sent: self.duplicate_sent,
            skipping: self.skipping,
            flags: self.flags,
            frames: self.frames,
            phase: self.phase,
            key: self.key@,
        }
    }
}

/// The payload of a frame that may be absent.
pub open spec fn payload_of(frame: Option<Seq<u8>>) -> Seq<u8> {
    match frame {
        Some(bytes) => bytes,
        None => Seq::empty(),
    }
}

impl EngineView {
    /// The engine after a new part was built from `frame`.
    pub open spec fn fresh(self, frame: Option<Seq<u8>>, time: Timestamp) -> EngineView {
        EngineView {
            previous_chunk: Some(chunk_bytes(payload_of(frame), self.flags.advance_headers, time)),
            duplicate_sent: false,
            skipping: false,
            ..self
        }
    }

    /// Whether an iteration that builds no part still sends the previous one as the
    /// sign of a pause: once in a run, and only where the viewer asked for it.
    pub open spec fn owes_duplicate(self) -> bool {
        self.flags.dual_final_frames && !self.duplicate_sent && self.previous_chunk.is_some()
    }

    /// The engine after an iteration that built no part because the stream pauses.
    pub open spec fn paused(self) -> EngineView {
        EngineView {
            skipping: true,
            duplicate_sent: self.duplicate_sent || self.owes_duplicate(),
            ..self
        }
    }

    /// What such an iteration sends.
    pub open spec fn pause_emission(self) -> EmissionView {
        if self.owes_duplicate() {
            EmissionView::Duplicate(self.previous_chunk.unwrap())
        } else {
            EmissionView::Nothing
        }
    }

    /// The engine after one iteration.
    /// The first iteration builds a part from whatever the cache holds. Later, a
    /// frame that is not to be skipped gives a new part; a skip gives the pause; a
    /// read that timed out repeats the previous part, or continues the pause.
    pub open spec fn step(self, read: ReadView, time: Timestamp) -> EngineView {
        match read {
            ReadView::Snapshot { skip, frame } => if self.previous_chunk.is_none() || !skip {
                self.fresh(frame, time)
            } else {
                self.paused()
            },
            ReadView::Timeout => if self.previous_chunk.is_none() {
                self
            } else if self.skipping {
                self.paused()
            } else {
                EngineView { duplicate_sent: false, ..self }
            },
        }
    }

    /// What one iteration sends.
    pub open spec fn emission(self, read: ReadView, time: Timestamp) -> EmissionView {
        match read {
            ReadView::Snapshot { skip, frame } => if self.previous_chunk.is_none() || !skip {
                EmissionView::Chunk(self.fresh(frame, time).previous_chunk.unwrap())
            } else {
                self.pause_emission()
            },
            ReadView::Timeout => if self.previous_chunk.is_none() {
                EmissionView::Nothing
            } else if self.skipping {
                self.pause_emission()
            } else {
                EmissionView::Chunk(self.previous_chunk.unwrap())
            },
        }
    }

    /// The engine after the first `upto` of the given iterations.
    pub open spec fn run(self, reads: Seq<(ReadView, Timestamp)>, upto: int) -> EngineView
        decreases upto,
    {
        if upto <= 0 {
            self
        } else {
            self.run(reads, upto - 1).step(reads[upto - 1].0, reads[upto - 1].1)
        }
    }

    /// The number of duplicates sent in the first `upto` of the given iterations.
    pub open spec fn duplicates(self, reads: Seq<(ReadView, Timestamp)>, upto: int) -> nat
        decreases upto,
    {
        if upto <= 0 {
            0
        } else {
            let before = self.run(reads, upto - 1);
            self.duplicates(reads, upto - 1) + (if before.emission(
                reads[upto - 1].0,
                reads[upto - 1].1,
            ) is Duplicate {
                1nat
            } else {
                0nat
            })
        }
    }

    /// The number of parts of any kind sent in the first `upto` of the given iterations.
    pub open spec fn emissions(self, reads: Seq<(ReadView, Timestamp)>, upto: int) -> nat
        decreases upto,
    {
        if upto <= 0 {
            0
        } else {
            let before = self.run(reads, upto - 1);
            self.emissions(reads, upto - 1) + (if before.emission(
                reads[upto - 1].0,
                reads[upto - 1].1,
            ) is Nothing {
                0nat
            } else {
                1nat
            })
        }
    }
}

/// Whether a read shows the skip flag set.
pub open spec fn is_skip(read: ReadView) -> bool {
    match read {
        ReadView::Snapshot { skip, frame } => skip,
        ReadView::Timeout => false,
    }
}

/// A run of iterations that all see the skip flag set, after the first part has gone
/// out, sends no new part. With `dual_final_frames` it sends at most one duplicate:
/// exactly one if the run is not empty and none was sent since the last new part.
/// Without the flag it sends nothing at all.
pub proof fn lemma_skip_run_duplicates(
    engine: EngineView,
    reads: Seq<(ReadView, Timestamp)>,
    upto: int,
)
    requires
        0 <= upto <= reads.len(),
        engine.previous_chunk.is_some(),
        forall|k: int| 0 <= k < upto ==> is_skip(#[trigger] reads[k].0),
    ensures
        engine.emissions(reads, upto) == engine.duplicates(reads, upto),
        engine.duplicates(reads, upto) <= 1,
        !engine.flags.dual_final_frames ==> engine.duplicates(reads, upto) == 0,
        engine.duplicate_sent ==> engine.duplicates(reads, upto) == 0,
        engine.flags.dual_final_frames && !engine.duplicate_sent && upto > 0
            ==> engine.duplicates(reads, upto) == 1,
        engine.run(reads, upto).previous_chunk == engine.previous_chunk,
        engine.run(reads, upto).flags == engine.flags,
        upto > 0 ==> engine.run(reads, upto).skipping,
        engine.run(reads, upto).duplicate_sent == (engine.duplicate_sent || (upto > 0
            && engine.flags.dual_final_frames)),
    decreases upto,
{
    if upto > 0 {
        lemma_skip_run_duplicates(engine, reads, upto - 1);
        assert(is_skip(reads[upto - 1].0));
    }
}

/// A read that timed out during a pause sends no more than the pause does: the
/// duplicate if it is still owed, and nothing after it.
pub proof fn lemma_timeout_in_pause(engine: EngineView, time: Timestamp)
    requires
        engine.previous_chunk.is_some(),
        engine.skipping,
    ensures
        engine.emission(ReadView::Timeout, time) == engine.pause_emission(),
        engine.duplicate_sent ==> engine.emission(ReadView::Timeout, time) is Nothing,
{
}

/// Every part that goes out is whole: a new one is built before it is sent, and a
/// repeated one is the part that went out before.
pub proof fn lemma_emission_is_whole(engine: EngineView, read: ReadView, time: Timestamp)
    ensures
        match engine.emission(read, time) {
            EmissionView::Chunk(bytes) => engine.step(read, time).previous_chunk == Some(bytes),
            EmissionView::Duplicate(bytes) => engine.previous_chunk == Some(bytes)
                && engine.step(read, time).previous_chunk == Some(bytes),
            EmissionView::Nothing => engine.step(read, time).previous_chunk
                == engine.previous_chunk,
        },
{
}

impl Engine {
    /// The engine of a connection whose session is registered under `key` with `flags`.
    pub fn new(key: Vec<u8>, flags: FlagSet) -> (engine: Self)
        ensures
            engine@ == (EngineView {
                previous_chunk: None,
                duplicate_sent: false,
                skipping: false,
                flags: flags,
                frames: 0,
                phase: Phase::Registered,
                key: key@,
            }),
    {
        Engine {
            previous_chunk: None,
            duplicate_sent: false,
            skipping: false,
            flags,
            frames: 0,
            phase: Phase::Registered,
            key,
        }
    }

    /// Registers a session for the request line, and returns the engine of the
    /// connection with the session's id. The engine takes the flags that the registry
    /// holds for the session: those that the key embeds.
    pub fn connect(registry: &mut Clients, header: &[u8]) -> (opened: (Engine, Vec<u8>))
        ensures
            crate::client::valid_id(opened.1@),
            opened.0@.key == crate::client::resolve_key(crate::client::header_key(header@)),
            final(registry)@ == old(registry)@.register(
                crate::client::ClientView {
                    id: opened.1@,
                    key: opened.0@.key,
                    fps: INITIAL_FPS,
                    flags: crate::client::key_flags(opened.0@.key),
                },
            ),
            opened.0@ == (EngineView {
                previous_chunk: None,
                duplicate_sent: false,
                skipping: false,
                flags: crate::client::key_flags(opened.0@.key),
                frames: 0,
                phase: Phase::Registered,
                key: opened.0@.key,
            }),
    {
        let added = registry.add_client_from_header(header);
        let id = added.0;
        let key = added.1;
        proof {
            crate::client::lemma_registered_is_found(
                old(registry)@,
                crate::client::ClientView {
                    id: id@,
                    key: key@,
                    fps: INITIAL_FPS,
                    flags: crate::client::key_flags(key@),
                },
            );
        }
        let flags = match registry.get_client_settings(Some(copy_bytes(key.as_slice()))) {
            Some(flags) => flags,
            None => FlagSet {
                dual_final_frames: false,
                advance_headers: false,
                extra_headers: false,
                zero_data: false,
            },
        };
        (Engine::new(key, flags), id)
    }

    /// One iteration: from what was read of the cache to what is sent.
    pub fn step(&mut self, read: CacheRead, time: Timestamp) -> (emission: Emission)
        ensures
            final(self)@ == old(self)@.step(read@, time),
            emission@ == old(self)@.emission(read@, time),
    {
        match read {
            CacheRead::Snapshot { skip, frame } => {
                if self.previous_chunk.is_none() || !skip {
                    let chunk = match &frame {
                        Some(bytes) => build_chunk(bytes.as_slice(), self.flags.advance_headers, time),
                        None => {
                            let empty: Vec<u8> = Vec::new();
                            build_chunk(empty.as_slice(), self.flags.advance_headers, time)
                        },
                    };
                    let out = copy_bytes(chunk.as_slice());
                    self.previous_chunk = Some(chunk);
                    self.duplicate_sent = false;
                    self.skipping = false;
                    Emission::Chunk(out)
                } else {
                    self.pause()
                }
            },
            CacheRead::Timeout => {
                if self.previous_chunk.is_none() {
                    Emission::Nothing
                } else if self.skipping {
                    self.pause()
                } else {
                    self.duplicate_sent = false;
                    match &self.previous_chunk {
                        Some(p) => Emission::Chunk(copy_bytes(p.as_slice())),
                        None => Emission::Nothing,
                    }
                }
            },
        }
    }

    fn pause(&mut self) -> (emission: Emission)
        ensures
            final(self)@ == old(self)@.paused(),
            emission@ == old(self)@.pause_emission(),
    {
        self.skipping = true;
        if self.flags.dual_final_frames && !self.duplicate_sent {
            match &self.previous_chunk {
                Some(p) => {
                    let out = copy_bytes(p.as_slice());
                    self.duplicate_sent = true;
                    Emission::Duplicate(out)
                },
                None => Emission::Nothing,
            }
        } else {
            Emission::Nothing
        }
    }

    /// Counts one iteration. When a second has gone by, the count of that second is
    /// returned for the registry, and counting starts again.
    pub fn tick(&mut self, second_elapsed: bool) -> (rate: Option<u32>)
        ensures
            rate == if second_elapsed {
                Some(old(self).frames)
            } else {
                None::<u32>
            },
            final(self)@ == (EngineView {
                frames: if second_elapsed {
                    1
                } else if old(self).frames == u32::MAX {
                    u32::MAX
                } else {
                    (old(self).frames + 1) as u32
                },
                ..old(self)@
            }),
    {
        let rate = if second_elapsed {
            let counted = self.frames;
            self.frames = 0;
            Some(counted)
        } else {
            None
        };
        if self.frames < u32::MAX {
            self.frames = self.frames + 1;
        }
        rate
    }

    /// Takes the outcome of a write. A failed write closes the connection. The first
    /// write that went through sets the session's frame rate; if the registry no
    /// longer knows the session, the connection is closed. The result says whether the
    /// connection goes on.
    pub fn written(&mut self, registry: &mut Clients, ok: bool) -> (open: bool)
        ensures
            open == (final(self).phase != Phase::Closed),
            final(self)@ == (EngineView { phase: final(self).phase, ..old(self)@ }),
            final(self).phase == old(self)@.after_write(old(registry)@, ok),
            final(registry)@ == match old(self).phase {
                Phase::Closed => old(registry)@,
                Phase::Streaming => if ok {
                    old(registry)@
                } else {
                    old(registry)@.unregister(old(self)@.key)
                },
                Phase::Registered => if ok {
                    old(registry)@.with_fps(old(self)@.key, INITIAL_FPS)
                } else {
                    old(registry)@.unregister(old(self)@.key)
                },
            },
    {
        match self.phase {
            Phase::Closed => false,
            Phase::Streaming => {
                if ok {
                    true
                } else {
                    self.close(registry);
                    false
                }
            },
            Phase::Registered => {
                if !ok {
                    self.close(registry);
                    false
                } else {
                    let known = registry.get_client_settings(
                        Some(copy_bytes(self.key.as_slice())),
                    ).is_some();
                    if known {
                        registry.update_fps(self.key.as_slice(), INITIAL_FPS);
                        self.phase = Phase::Streaming;
                        true
                    } else {
                        self.phase = Phase::Closed;
                        false
                    }
                }
            },
        }
    }

    /// Ends the connection: the session leaves the registry, once.
    pub fn close(&mut self, registry: &mut Clients)
        ensures
            final(self)@ == (EngineView { phase: Phase::Closed, ..old(self)@ }),
            final(registry)@ == if old(self).phase == Phase::Closed {
                old(registry)@
            } else {
                old(registry)@.unregister(old(self)@.key)
            },
    {
        match self.phase {
            Phase::Closed => {},
            _ => {
                registry.unregister(self.key.as_slice());
                self.phase = Phase::Closed;
            },
        }
    }
}

impl EngineView {
    /// Where the connection stands after a write.
    pub open spec fn after_write(self, registry: crate::client::ClientsView, ok: bool) -> Phase {
        match self.phase {
            Phase::Closed => Phase::Closed,
            Phase::Streaming => if ok {
                Phase::Streaming
            } else {
                Phase::Closed
            },
            Phase::Registered => if ok && registry.lookup(self.key).is_some() {
                Phase::Streaming
            } else {
                Phase::Closed
            },
        }
    }
}

} // verus!
