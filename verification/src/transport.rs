//! The frame transport format: an 8-byte big-endian length, the payload, and a
//! fixed-size metadata block that is all zero or holds a zero-padded text.

use crate::text::{append, copy_range, find};
use vstd::prelude::*;
use vstd::utf8::valid_utf8;

verus! {

/// The number of bytes of the length prefix.
pub const LENGTH_PREFIX_LEN: usize = 8;

/// The number of bytes of the metadata block.
pub const METADATA_BLOCK_LEN: usize = 1024;

/// The least payload length that a reader takes for corruption.
pub const FRAME_LEN_LIMIT: u64 = 300_000_000;

/// The number that eight bytes write, most significant byte first.
pub open spec fn prefix_value(prefix: Seq<u8>) -> nat
    recommends
        prefix.len() == 8,
{
    (((((((prefix[0] * 256 + prefix[1]) * 256 + prefix[2]) * 256 + prefix[3]) * 256 + prefix[4])
        * 256 + prefix[5]) * 256 + prefix[6]) * 256 + prefix[7]) as nat
}

/// The eight bytes that write `len`, most significant byte first.
pub open spec fn length_prefix(len: u64) -> Seq<u8> {
    let r1 = len / 256;
    let r2 = r1 / 256;
    let r3 = r2 / 256;
    let r4 = r3 / 256;
    let r5 = r4 / 256;
    let r6 = r5 / 256;
    let r7 = r6 / 256;
    seq![
        (r7 % 256) as u8,
        (r6 % 256) as u8,
        (r5 % 256) as u8,
        (r4 % 256) as u8,
        (r3 % 256) as u8,
        (r2 % 256) as u8,
        (r1 % 256) as u8,
        (len % 256) as u8,
    ]
}

/// Reading a written length gives the length back.
pub proof fn lemma_length_round_trip(len: u64)
    ensures
        length_prefix(len).len() == 8,
        prefix_value(length_prefix(len)) == len,
{
    let r1 = len / 256;
    let r2 = r1 / 256;
    let r3 = r2 / 256;
    let r4 = r3 / 256;
    let r5 = r4 / 256;
    let r6 = r5 / 256;
    let r7 = r6 / 256;
    assert(r7 < 256);
    let p = length_prefix(len);
    assert(p[0] == r7);
    assert(p[0] * 256 + p[1] == r6);
    assert(r6 * 256 + p[2] == r5);
    assert(r5 * 256 + p[3] == r4);
    assert(r4 * 256 + p[4] == r3);
    assert(r3 * 256 + p[5] == r2);
    assert(r2 * 256 + p[6] == r1);
    assert(r1 * 256 + p[7] == len);
}

/// The length that a length prefix writes.
pub fn decode_length(prefix: &[u8]) -> (len: u64)
    requires
        prefix@.len() == 8,
    ensures
        len == prefix_value(prefix@),
{
    let a0: u64 = prefix[0] as u64;
    let a1: u64 = a0 * 256 + prefix[1] as u64;
    let a2: u64 = a1 * 256 + prefix[2] as u64;
    let a3: u64 = a2 * 256 + prefix[3] as u64;
    let a4: u64 = a3 * 256 + prefix[4] as u64;
    let a5: u64 = a4 * 256 + prefix[5] as u64;
    let a6: u64 = a5 * 256 + prefix[6] as u64;
    a6 * 256 + prefix[7] as u64
}

/// The length prefix that writes `len`.
pub fn encode_length(len: u64) -> (prefix: Vec<u8>)
    ensures
        prefix@ == length_prefix(len),
{
    let r1: u64 = len / 256;
    let r2: u64 = r1 / 256;
    let r3: u64 = r2 / 256;
    let r4: u64 = r3 / 256;
    let r5: u64 = r4 / 256;
    let r6: u64 = r5 / 256;
    let r7: u64 = r6 / 256;
    let mut prefix: Vec<u8> = Vec::new();
    prefix.push((r7 % 256) as u8);
    prefix.push((r6 % 256) as u8);
    prefix.push((r5 % 256) as u8);
    prefix.push((r4 % 256) as u8);
    prefix.push((r3 % 256) as u8);
    prefix.push((r2 % 256) as u8);
    prefix.push((r1 % 256) as u8);
    prefix.push((len % 256) as u8);
    assert(prefix@ =~= length_prefix(len));
    prefix
}

/// Whether a length taken from the wire is small enough to be read as a payload.
pub fn length_accepted(len: u64) -> (ok: bool)
    ensures
        ok == (len < FRAME_LEN_LIMIT),
{
    len < FRAME_LEN_LIMIT
}

/// The metadata block that carries `metadata`: its bytes, cut off at the block's size,
/// and zeros up to it. Without metadata the block is all zero.
pub open spec fn metadata_block(metadata: Option<Seq<u8>>) -> Seq<u8> {
    Seq::new(
        METADATA_BLOCK_LEN as nat,
        |i: int|
            match metadata {
                Some(text) => if i < text.len() {
                    text[i]
                } else {
                    0u8
                },
                None => 0u8,
            },
    )
}

/// The text in a metadata block: the bytes before the first zero.
pub open spec fn block_text(block: Seq<u8>) -> Seq<u8> {
    block.subrange(0, find(block, 0u8, 0))
}

/// What a metadata block carries. A block that begins with a zero carries nothing.
/// Any other block carries its text, or the empty text where its bytes are not UTF-8.
pub open spec fn block_metadata(block: Seq<u8>) -> Option<Seq<u8>> {
    if block.len() == 0 || block[0] == 0 {
        None
    } else if valid_utf8(block_text(block)) {
        Some(block_text(block))
    } else {
        Some(Seq::empty())
    }
}

/// One frame as it goes over the wire.
pub open spec fn frame_bytes(payload: Seq<u8>, metadata: Option<Seq<u8>>) -> Seq<u8> {
    length_prefix(payload.len() as u64) + payload + metadata_block(metadata)
}

/// `std::str::from_utf8`, asked only whether it succeeds: it does exactly on the byte
/// strings that are well-formed UTF-8.
#[verifier::external_body]
fn is_utf8(bytes: &[u8]) -> (ok: bool)
    ensures
        ok == valid_utf8(bytes@),
{
    std::str::from_utf8(bytes).is_ok()
}

/// Builds the metadata block for a frame.
pub fn encode_metadata_block(metadata: Option<&[u8]>) -> (block: Vec<u8>)
    ensures
        block@ == metadata_block(
            match metadata {
                Some(text) => Some(text@),
                None => None,
            },
        ),
{
    let ghost want = metadata_block(
        match metadata {
            Some(text) => Some(text@),
            None => None,
        },
    );
    let mut block: Vec<u8> = Vec::new();
    let mut i: usize = 0;
    while i < METADATA_BLOCK_LEN
        invariant
            i <= METADATA_BLOCK_LEN,
            block@.len() == i,
            want == metadata_block(
                match metadata {
                    Some(text) => Some(text@),
                    None => None,
                },
            ),
            forall|k: int| 0 <= k < i ==> block@[k] == want[k],
        decreases METADATA_BLOCK_LEN - i,
    {
        let b: u8 = match metadata {
            Some(text) => if i < text.len() {
                text[i]
            } else {
                0
            },
            None => 0,
        };
        block.push(b);
        i += 1;
    }
    assert(block@ =~= want);
    block
}

/// Reads what a metadata block carries.
pub fn decode_metadata(block: &[u8]) -> (metadata: Option<Vec<u8>>)
    ensures
        match block_metadata(block@) {
            Some(text) => metadata.is_some() && metadata.unwrap()@ == text,
            None => metadata.is_none(),
        },
{
    if block.len() == 0 || block[0] == 0 {
        return None;
    }
    let mut end: usize = 0;
    while end < block.len() && block[end] != 0
        invariant
            end <= block.len(),
            find(block@, 0u8, 0) == find(block@, 0u8, end as int),
        decreases block.len() - end,
    {
        end += 1;
    }
    let text = copy_range(block, 0, end);
    if is_utf8(text.as_slice()) {
        Some(text)
    } else {
        Some(Vec::new())
    }
}

/// Writes one frame as it goes over the wire: the length, the payload, the metadata block.
pub fn encode_frame(payload: &[u8], metadata: Option<&[u8]>) -> (wire: Vec<u8>)
    ensures
        wire@ == frame_bytes(
            payload@,
            match metadata {
                Some(text) => Some(text@),
                None => None,
            },
        ),
{
    let mut wire = encode_length(payload.len() as u64);
    append(&mut wire, payload);
    let block = encode_metadata_block(metadata);
    append(&mut wire, block.as_slice());
    wire
}

/// One frame as a reader yields it.
#[derive(Debug)]
pub struct Frame {
    pub payload: Vec<u8>,
    pub metadata: Option<Vec<u8>>,
}

/// What a frame holds, as plain values.
pub struct FrameView {
    pub payload: Seq<u8>,
    pub metadata: Option<Seq<u8>>,
}

impl View for Frame {
    type V = FrameView;

    open spec fn view(&self) -> FrameView {
        FrameView {
            payload: self.payload@,
            metadata: match self.metadata {
                Some(text) => Some(text@),
                None => None,
            },
        }
    }
}

/// The frame at the beginning of `input`, if a whole frame of an accepted length stands there.
pub open spec fn first_frame(input: Seq<u8>) -> Option<FrameView> {
    if input.len() < 8 {
        None
    } else {
        let len = prefix_value(input.subrange(0, 8)) as int;
        if len >= FRAME_LEN_LIMIT || input.len() < 8 + len + METADATA_BLOCK_LEN {
            None
        } else {
            Some(
                FrameView {
                    payload: input.subrange(8, 8 + len),
                    metadata: block_metadata(
                        input.subrange(8 + len, 8 + len + METADATA_BLOCK_LEN),
                    ),
                },
            )
        }
    }
}

/// The number of bytes that a frame with a payload of `len` bytes takes on the wire.
pub open spec fn frame_size(len: nat) -> nat {
    8 + len + METADATA_BLOCK_LEN as nat
}

/// Reads the frame that begins at index `at` of `input`. There is none when the input
/// ends before the frame does, or when the length is taken for corruption; the
/// payload is then not looked at.
pub fn read_frame_at(input: &[u8], at: usize) -> (frame: Option<Frame>)
    requires
        at <= input@.len(),
    ensures
        match first_frame(input@.subrange(at as int, input@.len() as int)) {
            Some(f) => frame.is_some() && frame.unwrap()@ == f,
            None => frame.is_none(),
        },
{
    let ghost rest = input@.subrange(at as int, input@.len() as int);
    let left: usize = input.len() - at;
    if left < LENGTH_PREFIX_LEN {
        return None;
    }
    let prefix = copy_range(input, at, at + LENGTH_PREFIX_LEN);
    assert(prefix@ =~= rest.subrange(0, 8));
    let len = decode_length(prefix.as_slice());
    if !length_accepted(len) {
        return None;
    }
    let after: u64 = (left - LENGTH_PREFIX_LEN) as u64;
    if after < len || after - len < METADATA_BLOCK_LEN as u64 {
        return None;
    }
    let start: usize = at + LENGTH_PREFIX_LEN;
    let end: usize = start + len as usize;
    let payload = copy_range(input, start, end);
    let block = copy_range(input, end, end + METADATA_BLOCK_LEN);
    assert(payload@ =~= rest.subrange(8, 8 + len));
    assert(block@ =~= rest.subrange(8 + len, 8 + len + METADATA_BLOCK_LEN));
    let metadata = decode_metadata(block.as_slice());
    Some(Frame { payload, metadata })
}

/// Reads the frame at the beginning of `input`.
pub fn read_frame(input: &[u8]) -> (frame: Option<Frame>)
    ensures
        match first_frame(input@) {
            Some(f) => frame.is_some() && frame.unwrap()@ == f,
            None => frame.is_none(),
        },
{
    assert(input@.subrange(0, input@.len() as int) =~= input@);
    read_frame_at(input, 0)
}

/// A reader that pulls frames from received bytes, one after another. Once it has
/// found no frame it has ended, and stays so; to read on, make a new reader.
#[derive(Debug)]
pub struct FrameReader {
    input: Vec<u8>,
    position: usize,
    ended: bool,
}

/// What a reader holds, as plain values: the bytes not yet read, and whether it has ended.
pub struct ReaderView {
    pub rest: Seq<u8>,
    pub ended: bool,
}

impl ReaderView {
    /// The frame that the next pull yields.
    pub open spec fn head(self) -> Option<FrameView> {
        if self.ended {
            None
        } else {
            first_frame(self.rest)
        }
    }

    /// The reader after the next pull: past the frame that it yielded, or ended.
    pub open spec fn tail(self) -> ReaderView {
        match self.head() {
            Some(f) => ReaderView {
                rest: self.rest.subrange(
                    frame_size(f.payload.len()) as int,
                    self.rest.len() as int,
                ),
                ended: false,
            },
            None => ReaderView { rest: self.rest, ended: true },
        }
    }
}

impl View for FrameReader {
    type V = ReaderView;

    closed spec fn view(&self) -> ReaderView {
        ReaderView {
            rest: self.input@.subrange(self.position as int, self.input@.len() as int),
            ended: self.ended,
        }
    }
}

impl FrameReader {
    #[verifier::type_invariant]
    spec fn inv(self) -> bool {
        self.position <= self.input@.len()
    }

    /// A reader at the beginning of `input`.
    pub fn new(input: Vec<u8>) -> (reader: Self)
        ensures
            reader@ == (ReaderView { rest: input@, ended: false }),
    {
        assert(input@.subrange(0, input@.len() as int) =~= input@);
        FrameReader { input, position: 0, ended: false }
    }

    /// Whether the reader has ended.
    pub fn is_ended(&self) -> (ended: bool)
        ensures
            ended == self@.ended,
    {
        self.ended
    }

    /// Pulls the next frame. There is none once the reader has ended.
    pub fn next_frame(&mut self) -> (frame: Option<Frame>)
        ensures
            final(self)@ == old(self)@.tail(),
            match old(self)@.head() {
                Some(f) => frame.is_some() && frame.unwrap()@ == f,
                None => frame.is_none(),
            },
    {
        proof {
            use_type_invariant(&*self);
        }
        if self.ended {
            return None;
        }
        let ghost rest = self@.rest;
        match read_frame_at(self.input.as_slice(), self.position) {
            Some(frame) => {
                let total: usize = self.input.len();
                proof {
                    let len = prefix_value(rest.subrange(0, 8)) as int;
                    assert(first_frame(rest).is_some());
                    assert(frame@.payload == rest.subrange(8, 8 + len));
                    assert(rest.len() >= 8 + len + METADATA_BLOCK_LEN);
                    assert(frame.payload@.len() == len);
                }
                let size: usize = LENGTH_PREFIX_LEN + frame.payload.len() + METADATA_BLOCK_LEN;
                self.position = self.position + size;
                assert(self@.rest =~= rest.subrange(size as int, rest.len() as int));
                Some(frame)
            },
            None => {
                self.ended = true;
                None
            },
        }
    }
}

/// Frames written one after another are read back in their order: the first pull
/// yields the first frame, and leaves the reader at the second.
pub proof fn lemma_frames_in_order(
    payload: Seq<u8>,
    metadata: Option<Seq<u8>>,
    following: Seq<u8>,
)
    requires
        payload.len() < FRAME_LEN_LIMIT,
    ensures
        (ReaderView { rest: frame_bytes(payload, metadata) + following, ended: false }).head()
            == Some(
            FrameView { payload: payload, metadata: block_metadata(metadata_block(metadata)) },
        ),
        (ReaderView { rest: frame_bytes(payload, metadata) + following, ended: false }).tail() == (
        ReaderView { rest: following, ended: false }),
{
    let wire = frame_bytes(payload, metadata);
    let all = wire + following;
    let len = payload.len() as u64;
    lemma_length_round_trip(len);
    assert(all.subrange(0, 8) =~= length_prefix(len));
    assert(all.subrange(8, 8 + len) =~= payload);
    assert(all.subrange(8 + len, 8 + len + METADATA_BLOCK_LEN) =~= metadata_block(metadata));
    assert(all.subrange(frame_size(payload.len()) as int, all.len() as int) =~= following);
}

/// A reader that has ended yields nothing and stays ended.
pub proof fn lemma_end_is_final(reader: ReaderView)
    requires
        reader.ended,
    ensures
        reader.head().is_none(),
        reader.tail() == reader,
{
}

/// A frame that was written is read back: the payload as it was, and the metadata as
/// its block carries it.
pub proof fn lemma_frame_round_trip(payload: Seq<u8>, metadata: Option<Seq<u8>>)
    requires
        payload.len() < FRAME_LEN_LIMIT,
    ensures
        first_frame(frame_bytes(payload, metadata)) == Some(
            FrameView { payload: payload, metadata: block_metadata(metadata_block(metadata)) },
        ),
{
    let wire = frame_bytes(payload, metadata);
    let len = payload.len() as u64;
    lemma_length_round_trip(len);
    assert(wire.subrange(0, 8) =~= length_prefix(len));
    assert(wire.subrange(8, 8 + len) =~= payload);
    assert(wire.subrange(8 + len, 8 + len + METADATA_BLOCK_LEN) =~= metadata_block(metadata));
}

/// A block without text carries nothing; a block made from a text without a zero byte,
/// shorter than the block and well-formed, carries that text.
pub proof fn lemma_block_round_trip(metadata: Option<Seq<u8>>)
    ensures
        metadata.is_none() ==> block_metadata(metadata_block(metadata)).is_none(),
        metadata.is_some() && 0 < metadata.unwrap().len() < METADATA_BLOCK_LEN && valid_utf8(
            metadata.unwrap(),
        ) && crate::text::free_of(metadata.unwrap(), 0u8) ==> block_metadata(
            metadata_block(metadata),
        ) == metadata,
{
    let block = metadata_block(metadata);
    if metadata.is_some() && 0 < metadata.unwrap().len() < METADATA_BLOCK_LEN
        && crate::text::free_of(metadata.unwrap(), 0u8) {
        let text = metadata.unwrap();
        crate::text::lemma_find(block, 0u8, 0, text.len() as int);
        assert(block_text(block) =~= text);
    }
}

} // verus!
