//! The shared frame cache: the latest frame with the stream's metadata and counters,
//! and the metadata text that updates it.

use crate::text::{
    append, append_decimal, copy_bytes, decimal_spec, free_of, join_spec,
    lemma_decimal_round_trip, lemma_join_split, lemma_split_fields, lemma_split_join,
    parse_decimal, parse_decimal_spec, split, split_spec, views,
};
use vstd::prelude::*;

verus! {

/// The byte that separates the fields of a metadata text.
pub const FIELD_SEPARATOR: u8 = 120;

/// The number of fields of a metadata text.
pub const METADATA_FIELDS: usize = 7;

/// The fields of a metadata text, each as it was written.
#[derive(Debug)]
pub struct Metadata {
    pub width: Vec<u8>,
    pub height: Vec<u8>,
    pub format: Vec<u8>,
    pub encoder: Vec<u8>,
    pub fps: Vec<u8>,
    pub total_frames: Vec<u8>,
    pub skip: Vec<u8>,
}

impl Metadata {
    /// The seven fields in their order on the wire.
    pub open spec fn fields(&self) -> Seq<Seq<u8>> {
        seq![
            self.width@,
            self.height@,
            self.format@,
            self.encoder@,
            self.fps@,
            self.total_frames@,
            self.skip@,
        ]
    }
}

/// The fields of a metadata text, if it has exactly seven of them.
pub open spec fn metadata_fields(text: Seq<u8>) -> Option<Seq<Seq<u8>>> {
    let fields = split_spec(text, FIELD_SEPARATOR);
    if fields.len() == METADATA_FIELDS {
        Some(fields)
    } else {
        None
    }
}

/// The text that writes the given fields.
pub open spec fn metadata_text(fields: Seq<Seq<u8>>) -> Seq<u8> {
    join_spec(fields, FIELD_SEPARATOR)
}

/// A metadata text with seven fields is written back from its fields unchanged.
pub proof fn lemma_metadata_text_round_trip(text: Seq<u8>)
    requires
        metadata_fields(text).is_some(),
    ensures
        metadata_text(metadata_fields(text).unwrap()) == text,
{
    lemma_join_split(text, FIELD_SEPARATOR);
}

/// Seven fields without the separator in them are read back from their text unchanged.
pub proof fn lemma_metadata_fields_round_trip(fields: Seq<Seq<u8>>)
    requires
        fields.len() == METADATA_FIELDS,
        forall|j: int| 0 <= j < fields.len() ==> free_of(#[trigger] fields[j], FIELD_SEPARATOR),
    ensures
        metadata_fields(metadata_text(fields)) == Some(fields),
{
    lemma_split_join(fields, FIELD_SEPARATOR);
}

/// The fields that a text is read into never hold the separator.
pub proof fn lemma_metadata_fields_clean(text: Seq<u8>)
    requires
        metadata_fields(text).is_some(),
    ensures
        forall|j: int|
            0 <= j < METADATA_FIELDS ==> free_of(
                #[trigger] metadata_fields(text).unwrap()[j],
                FIELD_SEPARATOR,
            ),
{
    lemma_split_fields(text, FIELD_SEPARATOR);
}

/// Reads a metadata text into its fields. A text with another number of fields than
/// seven is no metadata.
pub fn parse_metadata(text: &[u8]) -> (metadata: Option<Metadata>)
    ensures
        match metadata_fields(text@) {
            Some(fields) => metadata.is_some() && metadata.unwrap().fields() == fields,
            None => metadata.is_none(),
        },
{
    let parts = split(text, FIELD_SEPARATOR);
    assert(views(parts@).len() == parts@.len());
    if parts.len() != METADATA_FIELDS {
        return None;
    }
    assert(forall|j: int| 0 <= j < 7 ==> views(parts@)[j] == parts@[j]@);
    let metadata = Metadata {
        width: copy_bytes(parts[0].as_slice()),
        height: copy_bytes(parts[1].as_slice()),
        format: copy_bytes(parts[2].as_slice()),
        encoder: copy_bytes(parts[3].as_slice()),
        fps: copy_bytes(parts[4].as_slice()),
        total_frames: copy_bytes(parts[5].as_slice()),
        skip: copy_bytes(parts[6].as_slice()),
    };
    assert(metadata.fields() =~= views(parts@));
    Some(metadata)
}

/// Writes the fields of a metadata text with the separator between them.
pub fn write_metadata(metadata: &Metadata) -> (text: Vec<u8>)
    ensures
        text@ == metadata_text(metadata.fields()),
{
    let mut text: Vec<u8> = Vec::new();
    let ghost f = metadata.fields();
    let ghost sep = seq![FIELD_SEPARATOR];
    append(&mut text, metadata.width.as_slice());
    text.push(FIELD_SEPARATOR);
    append(&mut text, metadata.height.as_slice());
    text.push(FIELD_SEPARATOR);
    append(&mut text, metadata.format.as_slice());
    text.push(FIELD_SEPARATOR);
    append(&mut text, metadata.encoder.as_slice());
    text.push(FIELD_SEPARATOR);
    append(&mut text, metadata.fps.as_slice());
    text.push(FIELD_SEPARATOR);
    append(&mut text, metadata.total_frames.as_slice());
    text.push(FIELD_SEPARATOR);
    append(&mut text, metadata.skip.as_slice());
    proof {
        let f1 = f.drop_first();
        let f2 = f1.drop_first();
        let f3 = f2.drop_first();
        let f4 = f3.drop_first();
        let f5 = f4.drop_first();
        let f6 = f5.drop_first();
        assert(join_spec(f6, FIELD_SEPARATOR) == f[6]);
        assert(join_spec(f5, FIELD_SEPARATOR) == f[5] + sep + join_spec(f6, FIELD_SEPARATOR));
        assert(join_spec(f4, FIELD_SEPARATOR) == f[4] + sep + join_spec(f5, FIELD_SEPARATOR));
        assert(join_spec(f3, FIELD_SEPARATOR) == f[3] + sep + join_spec(f4, FIELD_SEPARATOR));
        assert(join_spec(f2, FIELD_SEPARATOR) == f[2] + sep + join_spec(f3, FIELD_SEPARATOR));
        assert(join_spec(f1, FIELD_SEPARATOR) == f[1] + sep + join_spec(f2, FIELD_SEPARATOR));
        assert(join_spec(f, FIELD_SEPARATOR) == f[0] + sep + join_spec(f1, FIELD_SEPARATOR));
        assert(text@ =~= f[0] + sep + (f[1] + sep + (f[2] + sep + (f[3] + sep + (f[4] + sep + (f[5]
            + sep + f[6]))))));
    }
    text
}

/// The shared frame cache.
#[derive(Debug)]
pub struct ImageData {
    pub frame: Option<Vec<u8>>,
    pub width: u32,
    pub height: u32,
    pub client_fps: usize,
    pub client_total_frames: usize,
    pub server_fps: usize,
    pub server_total_frames: usize,
    pub encoder: Vec<u8>,
    pub format: Vec<u8>,
    pub skip: bool,
}

/// What the cache holds, as plain values.
pub struct ImageView {
    pub frame: Option<Seq<u8>>,
    pub width: u32,
    pub height: u32,
    pub client_fps: usize,
    pub client_total_frames: usize,
    pub server_fps: usize,
    pub server_total_frames: usize,
    pub encoder: Seq<u8>,
    pub format: Seq<u8>,
    pub skip: bool,
}

impl View for ImageData {
    type V = ImageView;

    open spec fn view(&self) -> ImageView {
        ImageView {
            frame: match self.frame {
                Some(bytes) => Some(bytes@),
                None => None,
            },
            width: self.width,
            height: self.height,
            client_fps: self.client_fps,
            client_total_frames: self.client_total_frames,
            server_fps: self.server_fps,
            server_total_frames: self.server_total_frames,
            encoder: self.encoder@,
            format: self.format@,
            skip: self.skip,
        }
    }
}

/// The number that a field writes, or `fallback` where it writes none that fits.
pub open spec fn number_or(field: Seq<u8>, limit: nat, fallback: nat) -> nat {
    match parse_decimal_spec(field, limit) {
        Some(v) => v,
        None => fallback,
    }
}

/// The text of the skip field that sets the skip flag.
pub open spec fn skip_text() -> Seq<u8> {
    seq![49u8]
}

/// The counter after one more frame; it starts again at zero after the largest value.
pub open spec fn next_count(count: usize) -> usize {
    if count == usize::MAX {
        0
    } else {
        (count + 1) as usize
    }
}

impl ImageView {
    /// The cache after the seven fields of a metadata text were taken over. A number
    /// that cannot be read leaves the value that was there.
    pub open spec fn with_fields(self, fields: Seq<Seq<u8>>) -> ImageView {
        ImageView {
            width: number_or(fields[0], u32::MAX as nat, self.width as nat) as u32,
            height: number_or(fields[1], u32::MAX as nat, self.height as nat) as u32,
            format: fields[2],
            encoder: fields[3],
            server_fps: number_or(fields[4], usize::MAX as nat, self.server_fps as nat) as usize,
            server_total_frames: number_or(
                fields[5],
                usize::MAX as nat,
                self.server_total_frames as nat,
            ) as usize,
            skip: fields[6] == skip_text(),
            ..self
        }
    }

    /// The cache after one message from the transport: a payload that is not empty
    /// replaces the frame, the count of frames goes up by one, and metadata with
    /// seven fields replaces the stream's description.
    pub open spec fn update(self, payload: Seq<u8>, metadata: Option<Seq<u8>>) -> ImageView {
        let counted = ImageView {
            frame: if payload.len() > 0 {
                Some(payload)
            } else {
                self.frame
            },
            client_total_frames: next_count(self.client_total_frames),
            ..self
        };
        match metadata {
            Some(text) => match metadata_fields(text) {
                Some(fields) => counted.with_fields(fields),
                None => counted,
            },
            None => counted,
        }
    }
}

/// Metadata that is absent, or that has another number of fields than seven, leaves
/// the stream's description as it was: size, format, encoder, source counters and
/// the skip flag.
pub proof fn lemma_malformed_metadata_ignored(
    cache: ImageView,
    payload: Seq<u8>,
    metadata: Option<Seq<u8>>,
)
    requires
        metadata.is_none() || split_spec(metadata.unwrap(), FIELD_SEPARATOR).len()
            != METADATA_FIELDS,
    ensures
        cache.update(payload, metadata).width == cache.width,
        cache.update(payload, metadata).height == cache.height,
        cache.update(payload, metadata).format == cache.format,
        cache.update(payload, metadata).encoder == cache.encoder,
        cache.update(payload, metadata).server_fps == cache.server_fps,
        cache.update(payload, metadata).server_total_frames == cache.server_total_frames,
        cache.update(payload, metadata).client_fps == cache.client_fps,
        cache.update(payload, metadata).skip == cache.skip,
{
}

/// An empty payload leaves the cached frame as it was.
pub proof fn lemma_heartbeat_keeps_frame(cache: ImageView, metadata: Option<Seq<u8>>)
    ensures
        cache.update(Seq::empty(), metadata).frame == cache.frame,
{
}

/// The width of a cache in which no metadata has arrived.
pub const DEFAULT_WIDTH: u32 = 1920;

/// The height of a cache in which no metadata has arrived.
pub const DEFAULT_HEIGHT: u32 = 1080;

fn read_u32(field: &[u8], fallback: u32) -> (value: u32)
    ensures
        value == number_or(field@, u32::MAX as nat, fallback as nat),
{
    match parse_decimal(field, u32::MAX as u64) {
        Some(v) => v as u32,
        None => fallback,
    }
}

fn read_usize(field: &[u8], fallback: usize) -> (value: usize)
    ensures
        value == number_or(field@, usize::MAX as nat, fallback as nat),
{
    match parse_decimal(field, usize::MAX as u64) {
        Some(v) => v as usize,
        None => fallback,
    }
}

impl ImageData {
    /// A cache without a frame.
    pub fn new() -> (cache: Self)
        ensures
            cache@ == (ImageView {
                frame: None,
                width: DEFAULT_WIDTH,
                height: DEFAULT_HEIGHT,
                client_fps: 0,
                client_total_frames: 0,
                server_fps: 0,
                server_total_frames: 0,
                encoder: Seq::empty(),
                format: Seq::empty(),
                skip: false,
            }),
    {
        ImageData {
            frame: None,
            width: DEFAULT_WIDTH,
            height: DEFAULT_HEIGHT,
            client_fps: 0,
            client_total_frames: 0,
            server_fps: 0,
            server_total_frames: 0,
            encoder: Vec::new(),
            format: Vec::new(),
            skip: false,
        }
    }

    /// Takes one message from the transport into the cache.
    pub fn update(&mut self, payload: Vec<u8>, metadata: Option<Vec<u8>>)
        ensures
            final(self)@ == old(self)@.update(
                payload@,
                match metadata {
                    Some(text) => Some(text@),
                    None => None,
                },
            ),
    {
        if payload.len() > 0 {
            self.frame = Some(payload);
        }
        self.client_total_frames = if self.client_total_frames == usize::MAX {
            0
        } else {
            self.client_total_frames + 1
        };
        if let Some(text) = metadata {
            if let Some(m) = parse_metadata(text.as_slice()) {
                let ghost fields = m.fields();
                assert(fields[0] == m.width@ && fields[1] == m.height@ && fields[2] == m.format@
                    && fields[3] == m.encoder@ && fields[4] == m.fps@ && fields[5]
                    == m.total_frames@ && fields[6] == m.skip@);
                self.width = read_u32(m.width.as_slice(), self.width);
                self.height = read_u32(m.height.as_slice(), self.height);
                self.server_fps = read_usize(m.fps.as_slice(), self.server_fps);
                self.server_total_frames =
                read_usize(m.total_frames.as_slice(), self.server_total_frames);
                self.skip = m.skip.len() == 1 && m.skip[0] == 49;
                assert(self.skip == (m.skip@ == skip_text())) by {
                    if self.skip {
                        assert(m.skip@ =~= skip_text());
                    } else if m.skip.len() == 1 {
                        assert(m.skip@[0] != skip_text()[0]);
                    }
                }
                self.format = m.format;
                self.encoder = m.encoder;
            }
        }
    }

    /// Takes the number of frames received in the last second into the running
    /// average of the receive rate.
    pub fn record_client_fps(&mut self, frames: usize)
        ensures
            final(self)@ == (ImageView {
                client_fps: ((old(self).client_fps + frames) / 2) as usize,
                ..old(self)@
            }),
    {
        let sum: u128 = self.client_fps as u128 + frames as u128;
        self.client_fps = (sum / 2) as usize;
    }

    /// The cached frame, or no bytes where none has arrived.
    pub fn frame_or_empty(&self) -> (bytes: Vec<u8>)
        ensures
            bytes@ == match self@.frame {
                Some(f) => f,
                None => Seq::empty(),
            },
    {
        match &self.frame {
            Some(f) => copy_bytes(f.as_slice()),
            None => Vec::new(),
        }
    }
}

/// The number of receive attempts without a message, one after another, after which
/// the receiver gives up the connection.
pub const MISSED_LIMIT: u32 = 100;

/// The receiver loop's own state: the frames counted in the running second, and the
/// attempts without a message since the last one.
#[derive(Clone, Copy, Debug)]
pub struct ReceiveLoop {
    pub frames: usize,
    pub missed: u32,
}

impl ReceiveLoop {
    /// A receiver that has seen nothing.
    pub fn new() -> (receiver: Self)
        ensures
            receiver.frames == 0,
            receiver.missed == 0,
    {
        ReceiveLoop { frames: 0, missed: 0 }
    }

    /// Takes one message: if a second has gone by, the count of the last second goes
    /// into the cache's average and starts again; the message is counted and goes
    /// into the cache; the run of misses ends.
    pub fn on_message(
        &mut self,
        cache: &mut ImageData,
        payload: Vec<u8>,
        metadata: Option<Vec<u8>>,
        second_elapsed: bool,
    )
        ensures
            final(self).missed == 0,
            final(self).frames == next_count(
                if second_elapsed {
                    0
                } else {
                    old(self).frames
                },
            ),
            final(cache)@ == (if second_elapsed {
                ImageView {
                    client_fps: ((old(cache).client_fps + old(self).frames) / 2) as usize,
                    ..old(cache)@
                }
            } else {
                old(cache)@
            }).update(
                payload@,
                match metadata {
                    Some(text) => Some(text@),
                    None => None,
                },
            ),
    {
        if second_elapsed {
            cache.record_client_fps(self.frames);
            self.frames = 0;
        }
        self.frames = if self.frames == usize::MAX {
            0
        } else {
            self.frames + 1
        };
        self.missed = 0;
        cache.update(payload, metadata);
    }

    /// Takes one attempt without a message, and says whether the receiver gives up:
    /// it does once more than `MISSED_LIMIT` attempts in a row have brought nothing.
    pub fn on_silence(&mut self) -> (give_up: bool)
        ensures
            final(self).frames == old(self).frames,
            final(self).missed == if old(self).missed == u32::MAX {
                u32::MAX
            } else {
                (old(self).missed + 1) as u32
            },
            give_up == (final(self).missed > MISSED_LIMIT),
    {
        if self.missed < u32::MAX {
            self.missed = self.missed + 1;
        }
        self.missed > MISSED_LIMIT
    }
}

/// The number of frames from one metadata text on the wire to the next.
pub const METADATA_INTERVAL: usize = 10;

/// Whether the frame with the given count carries metadata: every tenth does,
/// beginning with the first.
pub fn metadata_due(total_frames: usize) -> (due: bool)
    ensures
        due == (total_frames % METADATA_INTERVAL == 0),
{
    total_frames % METADATA_INTERVAL == 0
}

/// The text of the skip field for a flag.
pub open spec fn skip_field(skip: bool) -> Seq<u8> {
    if skip {
        skip_text()
    } else {
        seq![48u8]
    }
}

/// The fields that describe a stream: the numbers in decimal, the names as they are.
pub open spec fn description_fields(
    width: u32,
    height: u32,
    format: Seq<u8>,
    encoder: Seq<u8>,
    fps: usize,
    total_frames: usize,
    skip: bool,
) -> Seq<Seq<u8>> {
    seq![
        decimal_spec(width as nat),
        decimal_spec(height as nat),
        format,
        encoder,
        decimal_spec(fps as nat),
        decimal_spec(total_frames as nat),
        skip_field(skip),
    ]
}

fn decimal(n: u64) -> (digits: Vec<u8>)
    ensures
        digits@ == decimal_spec(n as nat),
{
    let mut digits: Vec<u8> = Vec::new();
    append_decimal(&mut digits, n);
    assert(digits@ =~= decimal_spec(n as nat));
    digits
}

/// Describes a stream for the wire.
pub fn describe(
    width: u32,
    height: u32,
    format: &[u8],
    encoder: &[u8],
    fps: usize,
    total_frames: usize,
    skip: bool,
) -> (metadata: Metadata)
    ensures
        metadata.fields() == description_fields(
            width,
            height,
            format@,
            encoder@,
            fps,
            total_frames,
            skip,
        ),
{
    let mut flag: Vec<u8> = Vec::new();
    flag.push(if skip {
        49
    } else {
        48
    });
    assert(flag@ =~= skip_field(skip));
    Metadata {
        width: decimal(width as u64),
        height: decimal(height as u64),
        format: copy_bytes(format),
        encoder: copy_bytes(encoder),
        fps: decimal(fps as u64),
        total_frames: decimal(total_frames as u64),
        skip: flag,
    }
}

/// A cache that takes a description over holds what was described.
pub proof fn lemma_description_taken_over(
    cache: ImageView,
    width: u32,
    height: u32,
    format: Seq<u8>,
    encoder: Seq<u8>,
    fps: usize,
    total_frames: usize,
    skip: bool,
)
    ensures
        cache.with_fields(
            description_fields(width, height, format, encoder, fps, total_frames, skip),
        ) == (ImageView {
            width: width,
            height: height,
            format: format,
            encoder: encoder,
            server_fps: fps,
            server_total_frames: total_frames,
            skip: skip,
            ..cache
        }),
{
    lemma_decimal_round_trip(width as nat);
    lemma_decimal_round_trip(height as nat);
    lemma_decimal_round_trip(fps as nat);
    lemma_decimal_round_trip(total_frames as nat);
    let fields = description_fields(width, height, format, encoder, fps, total_frames, skip);
    assert(parse_decimal_spec(fields[0], u32::MAX as nat) == Some(width as nat));
    assert(parse_decimal_spec(fields[1], u32::MAX as nat) == Some(height as nat));
    assert(parse_decimal_spec(fields[4], usize::MAX as nat) == Some(fps as nat));
    assert(parse_decimal_spec(fields[5], usize::MAX as nat) == Some(total_frames as nat));
    assert(skip_field(false)[0] != skip_text()[0]);
}

/// The name of the encoder that compresses on the processor.
pub fn get_encoder() -> (name: Vec<u8>)
    ensures
        name@ == seq![99u8, 112u8, 117u8],
{
    let mut name: Vec<u8> = Vec::new();
    name.push(99);
    name.push(112);
    name.push(117);
    assert(name@ =~= seq![99u8, 112u8, 117u8]);
    name
}

/// The capture loop's frame rate: the frames counted in the running second, and the
/// average over the seconds before.
#[derive(Clone, Copy, Debug)]
pub struct CaptureRate {
    pub frames: usize,
    pub fps: usize,
}

impl CaptureRate {
    /// A rate before the first frame.
    pub fn new() -> (rate: Self)
        ensures
            rate.frames == 0,
            rate.fps == 0,
    {
        CaptureRate { frames: 0, fps: 0 }
    }

    /// Counts one frame.
    pub fn on_frame(&mut self)
        ensures
            final(self).frames == next_count(old(self).frames),
            final(self).fps == old(self).fps,
    {
        self.frames = if self.frames == usize::MAX {
            0
        } else {
            self.frames + 1
        };
    }

    /// Ends a second: its count becomes the rate if there was none, else the rate
    /// becomes the mean of the two; counting starts again.
    pub fn on_second(&mut self)
        ensures
            final(self).frames == 0,
            final(self).fps == if old(self).fps != 0 {
                ((old(self).fps + old(self).frames) / 2) as usize
            } else {
                old(self).frames
            },
    {
        if self.fps != 0 {
            let sum: u128 = self.fps as u128 + self.frames as u128;
            self.fps = (sum / 2) as usize;
        } else {
            self.fps = self.frames;
        }
        self.frames = 0;
    }
}

} // verus!
