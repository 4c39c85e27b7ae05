//! Byte streams over channels.
//!
//! A stream is cut into frames. A frame has a two-byte header, with the number of the stream and
//! two flags, and data, which may be compressed. A frame with the end flag ends the stream.

use vstd::prelude::*;

use crate::bytes;
use crate::compress;
use crate::compress::{decompress, maybe_compress};
use crate::error::RnsError;
use crate::iface::control;

verus! {

/// The type of channel messages that carry stream frames.
pub const SMT_STREAM_DATA: u16 = 0xff00;

/// The highest number of a stream.
pub const STREAM_ID_MAX: u16 = 0x3fff;

/// Header bytes of a frame and of the channel message around it.
pub const OVERHEAD: usize = 8;

/// The longest data of a frame.
pub const MAX_DATA_LEN: usize = 423;

/// How many bytes of a stream a frame stands for at most.
pub const MAX_CHUNK_LEN: usize = 16384;

/// Bytes up to which compression is not tried.
pub const COMPRESSION_MIN: usize = 32;

/// One more than how often compression is tried for a frame.
pub const COMPRESSION_TRIES: usize = 4;

/// How long a frame is offered to a channel that has no room, in nanoseconds.
pub const SEND_TIME: u64 = 120_000_000_000;

/// How long a channel may take to become ready.
pub const READY_TIME: u64 = 30_000_000_000;

/// A frame of a stream.
#[derive(Debug, PartialEq, Eq)]
pub struct StreamDataMessage {
    pub stream_id: u16,
    pub data: Vec<u8>,
    pub eof: bool,
    pub compressed: bool,
}

/// A frame of a stream, as a mathematical value.
#[verifier::ext_equal]
pub struct MessageView {
    pub stream_id: u16,
    pub data: Seq<u8>,
    pub eof: bool,
    pub compressed: bool,
}

impl View for StreamDataMessage {
    type V = MessageView;

    open spec fn view(&self) -> MessageView {
        MessageView {
            stream_id: self.stream_id,
            data: self.data@,
            eof: self.eof,
            compressed: self.compressed,
        }
    }
}

impl Clone for StreamDataMessage {
    fn clone(&self) -> (r: Self)
        ensures
            r@ == self@,
    {
        StreamDataMessage {
            stream_id: self.stream_id,
            data: bytes::to_vec(&self.data),
            eof: self.eof,
            compressed: self.compressed,
        }
    }
}

/// The header of a frame: fourteen bits of number, the compression flag and the end flag.
pub open spec fn header_of(m: MessageView) -> nat {
    (m.stream_id % 0x4000) as nat + (if m.compressed {
        0x4000nat
    } else {
        0
    }) + (if m.eof {
        0x8000nat
    } else {
        0
    })
}

/// A frame in bytes.
pub open spec fn packed(m: MessageView) -> Seq<u8> {
    bytes::be_bytes(header_of(m), 2) + m.data
}

/// The data that a frame stands for.
pub open spec fn plain_data(compressed: bool, data: Seq<u8>) -> Result<Seq<u8>, RnsError> {
    if compressed && data.len() > 0 {
        compress::bounded_output(
            compress::bz2_decompressed(data, (MAX_CHUNK_LEN + 1) as nat),
            MAX_CHUNK_LEN as nat,
        )
    } else {
        Ok(data)
    }
}

/// The frame in bytes, with its data as it is after decompression.
pub open spec fn unpacked(raw: Seq<u8>) -> Result<MessageView, RnsError> {
    if raw.len() < 2 {
        Err(RnsError::PacketError)
    } else {
        let header = raw[0] * 256 + raw[1];
        let compressed = header / 0x4000 % 2 == 1;
        match plain_data(compressed, raw.skip(2)) {
            Ok(data) => Ok(
                MessageView {
                    stream_id: (header % 0x4000) as u16,
                    data,
                    eof: header / 0x8000 == 1,
                    compressed,
                },
            ),
            Err(err) => Err(err),
        }
    }
}

impl StreamDataMessage {
    /// The frame in bytes.
    pub fn pack_bytes(&self) -> (r: Vec<u8>)
        ensures
            r@ == packed(self@),
    {
        let mut header: u16 = self.stream_id % 0x4000;
        if self.compressed {
            header = header + 0x4000;
        }
        if self.eof {
            header = header + 0x8000;
        }
        let mut r: Vec<u8> = Vec::new();
        bytes::append_be16(&mut r, header);
        bytes::append(&mut r, &self.data);
        assert(r@ =~= packed(self@));
        r
    }

    /// The frame in bytes, with its data decompressed.
    pub fn unpack_bytes(raw: &[u8]) -> (r: Result<Self, RnsError>)
        ensures
            match unpacked(raw@) {
                Ok(message) => r is Ok && r->Ok_0@ == message,
                Err(err) => r is Err && r->Err_0 == err,
            },
    {
        if raw.len() < 2 {
            return Err(RnsError::PacketError);
        }
        let header: u16 = raw[0] as u16 * 256 + raw[1] as u16;
        let eof: bool = header / 0x8000 == 1;
        let compressed: bool = header / 0x4000 % 2 == 1;
        let stream_id: u16 = header % 0x4000;
        let mut data: Vec<u8> = bytes::slice_to_vec(raw, 2, raw.len());
        assert(data@ =~= raw@.skip(2));
        if compressed && data.len() > 0 {
            data = match decompress(&data, MAX_CHUNK_LEN) {
                Ok(data) => data,
                Err(err) => return Err(err),
            };
        }
        Ok(StreamDataMessage { stream_id, data, eof, compressed })
    }

    /// The type of the channel messages that carry frames.
    pub fn message_type(&self) -> (r: u16)
        ensures
            r == SMT_STREAM_DATA,
    {
        SMT_STREAM_DATA
    }

    /// The frame in bytes.
    pub fn pack(&self) -> (r: Vec<u8>)
        ensures
            r@ == packed(self@),
    {
        self.pack_bytes()
    }

    /// The frame in the bytes of a channel message.
    pub fn unpack(raw: &[u8], _message_type: u16) -> (r: Result<Self, RnsError>)
        ensures
            match unpacked(raw@) {
                Ok(message) => r is Ok && r->Ok_0@ == message,
                Err(err) => r is Err && r->Err_0 == err,
            },
    {
        StreamDataMessage::unpack_bytes(raw)
    }
}

/// A frame in bytes says the frame again: the number in its fourteen bits, the flags, and the data
/// that it stands for.
pub proof fn unpack_inverts_pack(m: MessageView)
    ensures
        unpacked(packed(m)) == (match plain_data(m.compressed, m.data) {
            Ok(data) => Ok(
                MessageView { stream_id: (m.stream_id % 0x4000) as u16, data, ..m },
            ),
            Err(err) => Err::<MessageView, RnsError>(err),
        }),
{
    let raw = packed(m);
    let h = header_of(m);
    reveal_with_fuel(bytes::be_bytes, 3);
    assert(raw[0] * 256 + raw[1] == h);
    assert(raw.skip(2) =~= m.data);
}

/// The prefix of a chunk that compression is tried on: all of it, a half, a third.
pub open spec fn prefix(chunk: Seq<u8>, attempt: int) -> Seq<u8> {
    chunk.take(chunk.len() as int / attempt)
}

/// What compression makes of a prefix.
pub open spec fn attempted(chunk: Seq<u8>, attempt: int) -> Seq<u8> {
    compress::kept_compression(
        prefix(chunk, attempt),
        true,
        usize::MAX as nat,
        compress::bz2_compressed(prefix(chunk, attempt)),
    ).0
}

/// Whether what compression makes of a prefix fits a frame and is shorter.
pub open spec fn pays_off(compressed: Seq<u8>, length: nat) -> bool {
    compressed.len() < MAX_DATA_LEN && compressed.len() < length
}

/// The first attempt from `attempt` on that pays off.
pub open spec fn first_attempt(chunk: Seq<u8>, attempt: int) -> Option<int>
    decreases COMPRESSION_TRIES - attempt,
{
    if chunk.len() <= COMPRESSION_MIN || attempt < 1 || attempt >= COMPRESSION_TRIES {
        None
    } else if pays_off(attempted(chunk, attempt), prefix(chunk, attempt).len()) {
        Some(attempt)
    } else {
        first_attempt(chunk, attempt + 1)
    }
}

/// The bytes of a stream that the next frame is made of.
pub open spec fn chunk_of(data: Seq<u8>) -> Seq<u8> {
    if data.len() > MAX_CHUNK_LEN {
        data.take(MAX_CHUNK_LEN as int)
    } else {
        data
    }
}

/// The frame made of a chunk, given what compression has made of a prefix where that pays off, and
/// how many bytes of the chunk it stands for.
pub open spec fn frame_of(
    stream_id: u16,
    chunk: Seq<u8>,
    compressed: Option<(Seq<u8>, nat)>,
) -> (MessageView, nat) {
    match compressed {
        Some((data, length)) => (
            MessageView { stream_id, data, eof: false, compressed: true },
            length,
        ),
        None => {
            let length = if chunk.len() < MAX_DATA_LEN {
                chunk.len()
            } else {
                MAX_DATA_LEN as nat
            };
            (
                MessageView {
                    stream_id,
                    data: chunk.take(length as int),
                    eof: false,
                    compressed: false,
                },
                length,
            )
        },
    }
}

/// What compression has made of a prefix, where an attempt pays off.
pub open spec fn compressed_prefix_of(chunk: Seq<u8>) -> Option<(Seq<u8>, nat)> {
    match first_attempt(chunk, 1) {
        Some(attempt) => Some((attempted(chunk, attempt), prefix(chunk, attempt).len())),
        None => None,
    }
}

/// Optional compressed bytes, as a mathematical value.
pub open spec fn compressed_view(compressed: Option<(Vec<u8>, usize)>) -> Option<(Seq<u8>, nat)> {
    match compressed {
        Some((data, length)) => Some((data@, length as nat)),
        None => None,
    }
}

/// The length of the prefix for an attempt.
fn prefix_len(length: usize, attempt: usize) -> (r: usize)
    requires
        1 <= attempt < COMPRESSION_TRIES,
    ensures
        r == length as int / attempt as int,
        r <= length,
        length > COMPRESSION_MIN ==> r > 0,
{
    if attempt == 1 {
        length
    } else if attempt == 2 {
        length / 2
    } else {
        length / 3
    }
}

/// Whether a frame without the end flag stands for the first `length` bytes of `data`.
pub open spec fn carries(m: MessageView, stream_id: u16, length: nat, data: Seq<u8>) -> bool {
    &&& m.stream_id == stream_id
    &&& !m.eof
    &&& m.data.len() <= MAX_DATA_LEN
    &&& 0 < length <= data.len()
    &&& length <= MAX_CHUNK_LEN
    &&& plain_data(m.compressed, m.data) == Ok::<Seq<u8>, RnsError>(data.take(length as int))
}

/// Tries to compress prefixes of a chunk. Returns the first result that pays off and the length of
/// its prefix.
fn compress_prefix(chunk: &[u8]) -> (r: Option<(Vec<u8>, usize)>)
    requires
        chunk@.len() <= MAX_CHUNK_LEN,
    ensures
        compressed_view(r) == compressed_prefix_of(chunk@),
        r is Some ==> {
            let (data, length) = r->0;
            &&& 0 < length <= chunk@.len()
            &&& data@.len() < MAX_DATA_LEN
            &&& plain_data(true, data@) == Ok::<Seq<u8>, RnsError>(chunk@.take(length as int))
        },
{
    if chunk.len() <= COMPRESSION_MIN {
        return None;
    }
    let mut attempt: usize = 1;
    while attempt < COMPRESSION_TRIES
        invariant
            1 <= attempt <= COMPRESSION_TRIES,
            COMPRESSION_MIN < chunk@.len() <= MAX_CHUNK_LEN,
            first_attempt(chunk@, 1) == first_attempt(chunk@, attempt as int),
        decreases COMPRESSION_TRIES - attempt,
    {
        let length: usize = prefix_len(chunk.len(), attempt);
        let part: &[u8] = &chunk[0..length];
        assert(part@ =~= prefix(chunk@, attempt as int));
        let (compressed, _): (Vec<u8>, bool) = maybe_compress(part, true, usize::MAX);
        if compressed.len() < MAX_DATA_LEN && compressed.len() < length {
            assert(compress::bz2_decompressed(compressed@, (MAX_CHUNK_LEN + 1) as nat) == Some(
                part@,
            ));
            return Some((compressed, length));
        }
        attempt += 1;
    }
    None
}

/// Makes the frame of a chunk from what compression has made of a prefix, if that pays off.
/// Returns the frame and how many bytes of the chunk it stands for.
pub fn build_frame(
    stream_id: u16,
    chunk: &[u8],
    compressed: Option<(Vec<u8>, usize)>,
) -> (r: (StreamDataMessage, usize))
    ensures
        (r.0@, r.1 as nat) == frame_of(stream_id, chunk@, compressed_view(compressed)),
{
    match compressed {
        Some((data, length)) => {
            (StreamDataMessage { stream_id, data, eof: false, compressed: true }, length)
        },
        None => {
            let length: usize = if chunk.len() < MAX_DATA_LEN {
                chunk.len()
            } else {
                MAX_DATA_LEN
            };
            let data: Vec<u8> = bytes::slice_to_vec(chunk, 0, length);
            assert(data@ =~= chunk@.take(length as int));
            (StreamDataMessage { stream_id, data, eof: false, compressed: false }, length)
        },
    }
}

/// The next frame for `data`: the longest prefix of the next chunk, of three tried, that
/// compresses below a frame and below itself, or else as much as fits uncompressed. Returns the
/// frame and how many bytes it stands for.
pub fn next_frame(stream_id: u16, data: &[u8]) -> (r: (StreamDataMessage, usize))
    ensures
        (r.0@, r.1 as nat) == frame_of(
            stream_id,
            chunk_of(data@),
            compressed_prefix_of(chunk_of(data@)),
        ),
        data@.len() > 0 ==> carries(r.0@, stream_id, r.1 as nat, data@),
{
    let chunk: &[u8] = if data.len() > MAX_CHUNK_LEN {
        &data[0..MAX_CHUNK_LEN]
    } else {
        data
    };
    assert(chunk@ =~= chunk_of(data@));
    let compressed: Option<(Vec<u8>, usize)> = compress_prefix(chunk);
    let r: (StreamDataMessage, usize) = build_frame(stream_id, chunk, compressed);
    proof {
        assert(chunk@.take(r.1 as int) =~= data@.take(r.1 as int));
    }
    r
}

/// The frame that ends a stream.
pub fn eof_frame(stream_id: u16) -> (r: StreamDataMessage)
    ensures
        r@ == (MessageView {
            stream_id,
            data: Seq::<u8>::empty(),
            eof: true,
            compressed: false,
        }),
{
    let r = StreamDataMessage { stream_id, data: Vec::new(), eof: true, compressed: false };
    assert(r@.data =~= Seq::<u8>::empty());
    r
}

/// The receiving end of a stream.
#[derive(Debug)]
pub struct BufferReader {
    pub stream_id: u16,
    pub open: bool,
}

/// What a reader does with a frame: the reader afterwards, and the bytes that it hands on.
pub open spec fn after_frame(reader: BufferReader, message: MessageView) -> (
    BufferReader,
    Seq<u8>,
) {
    if !reader.open || message.stream_id != reader.stream_id {
        (reader, Seq::empty())
    } else {
        (BufferReader { open: !message.eof, ..reader }, message.data)
    }
}

impl BufferReader {
    /// A reader that has seen no frame.
    pub fn new(stream_id: u16) -> (r: Self)
        ensures
            r == (BufferReader { stream_id, open: true }),
    {
        BufferReader { stream_id, open: true }
    }

    /// The number of the stream.
    pub fn stream_id(&self) -> (r: u16)
        ensures
            r == self.stream_id,
    {
        self.stream_id
    }

    /// Takes a frame and returns the bytes to hand on. A frame of another stream is ignored; one
    /// with the end flag closes the reader.
    pub fn on_frame(&mut self, message: &StreamDataMessage) -> (r: Vec<u8>)
        ensures
            (*final(self), r@) == after_frame(*old(self), message@),
    {
        if !self.open || message.stream_id != self.stream_id {
            let r: Vec<u8> = Vec::new();
            assert(r@ =~= Seq::<u8>::empty());
            return r;
        }
        self.open = !message.eof;
        bytes::to_vec(&message.data)
    }

    /// The channel is gone: the reader closes.
    pub fn on_channel_closed(&mut self)
        ensures
            *final(self) == (BufferReader { open: false, ..*old(self) }),
    {
        self.open = false;
    }
}

/// The sending end of a stream, with the chunk that is under way.
#[derive(Debug)]
pub struct BufferWriter {
    pub stream_id: u16,
    pub chunk: Vec<u8>,
    /// How many bytes of the chunk are sent.
    pub offset: usize,
    /// Until when the next frame is offered, once it has been offered.
    pub deadline: Option<u64>,
}

/// A writer, as a mathematical value.
#[verifier::ext_equal]
pub struct WriterView {
    pub stream_id: u16,
    /// The bytes of the chunk that are not sent.
    pub pending: Seq<u8>,
    /// Until when the next frame is offered, once it has been offered.
    pub deadline: Option<u64>,
}

/// How an attempt to send a frame went.
#[derive(Clone, Copy, Debug, PartialEq, Eq)]
pub enum SendOutcome {
    /// The channel took the frame.
    Sent,
    /// The channel has no room or is not ready.
    Busy,
    /// The channel cannot send.
    Failed,
}

/// What a writer does after an attempt to send a frame.
#[derive(Clone, Copy, Debug, PartialEq, Eq)]
pub enum WriterStep {
    /// Goes on with what is pending.
    Continue,
    /// Offers the frame again a little later.
    Retry,
    /// Gives up.
    Stop,
}

/// The end of the time that a frame is offered for, if it is first offered at `now`.
pub open spec fn send_deadline(now: u64) -> u64 {
    control::later(now, SEND_TIME)
}

/// A writer that has offered its next frame. The time for the frame runs from its first offer.
pub open spec fn after_offer(writer: WriterView, now: u64) -> WriterView {
    if writer.pending.len() > 0 && writer.deadline is None {
        WriterView { deadline: Some(send_deadline(now)), ..writer }
    } else {
        writer
    }
}

/// A writer after an attempt to send the frame that stands for `length` pending bytes.
pub open spec fn after_attempt(
    writer: WriterView,
    outcome: SendOutcome,
    length: nat,
    now: u64,
) -> (WriterView, WriterStep) {
    match outcome {
        SendOutcome::Sent => (
            WriterView {
                pending: writer.pending.skip(length as int),
                deadline: None,
                ..writer
            },
            WriterStep::Continue,
        ),
        SendOutcome::Busy => (
            writer,
            if writer.deadline is Some && now > writer.deadline->0 {
                WriterStep::Stop
            } else {
                WriterStep::Retry
            },
        ),
        SendOutcome::Failed => (writer, WriterStep::Stop),
    }
}

impl View for BufferWriter {
    type V = WriterView;

    open spec fn view(&self) -> WriterView {
        WriterView {
            stream_id: self.stream_id,
            pending: self.chunk@.skip(self.offset as int),
            deadline: self.deadline,
        }
    }
}

impl BufferWriter {
    /// That no more than the chunk is sent.
    pub open spec fn wf(&self) -> bool {
        self.offset <= self.chunk@.len()
    }

    /// A writer with nothing to send.
    pub fn new(stream_id: u16) -> (r: Self)
        ensures
            r.wf(),
            r@ == (WriterView { stream_id, pending: Seq::<u8>::empty(), deadline: None }),
    {
        let r = BufferWriter { stream_id, chunk: Vec::new(), offset: 0, deadline: None };
        assert(r@.pending =~= Seq::<u8>::empty());
        r
    }

    /// The number of the stream.
    pub fn stream_id(&self) -> (r: u16)
        ensures
            r == self@.stream_id,
    {
        self.stream_id
    }

    /// Takes the next chunk. The one before must be sent.
    pub fn load(&mut self, chunk: Vec<u8>)
        requires
            old(self).wf(),
            old(self)@.pending.len() == 0,
        ensures
            final(self).wf(),
            final(self)@ == (WriterView { pending: chunk@, deadline: None, ..old(self)@ }),
    {
        self.chunk = chunk;
        self.offset = 0;
        self.deadline = None;
        assert(self@.pending =~= chunk@);
    }

    /// The next frame to send and how many bytes it stands for; none when all is sent. Until it is
    /// sent the same frame is offered again, and its time runs from the first offer.
    pub fn next(&mut self, now: u64) -> (r: Option<(StreamDataMessage, usize)>)
        requires
            old(self).wf(),
        ensures
            final(self).wf(),
            final(self)@ == after_offer(old(self)@, now),
            r is None <==> old(self)@.pending.len() == 0,
            r is Some ==> {
                let (frame, length) = r->0;
                let pending = old(self)@.pending;
                &&& (frame@, length as nat) == frame_of(
                    old(self)@.stream_id,
                    chunk_of(pending),
                    compressed_prefix_of(chunk_of(pending)),
                )
                &&& carries(frame@, old(self)@.stream_id, length as nat, pending)
            },
    {
        if self.offset >= self.chunk.len() {
            return None;
        }
        if self.deadline.is_none() {
            self.deadline = Some(now.saturating_add(SEND_TIME));
        }
        let pending: &[u8] = &self.chunk[self.offset..self.chunk.len()];
        assert(pending@ =~= self@.pending);
        Some(next_frame(self.stream_id, pending))
    }

    /// Takes note of an attempt to send the frame that stands for `length` pending bytes.
    pub fn on_attempt(&mut self, outcome: SendOutcome, length: usize, now: u64) -> (r: WriterStep)
        requires
            old(self).wf(),
            length <= old(self)@.pending.len(),
        ensures
            final(self).wf(),
            (final(self)@, r) == after_attempt(old(self)@, outcome, length as nat, now),
    {
        match outcome {
            SendOutcome::Sent => {
                assert(self.offset + length <= self.chunk.len());
                self.offset = self.offset + length;
                self.deadline = None;
                assert(self@.pending =~= old(self)@.pending.skip(length as int));
                WriterStep::Continue
            },
            SendOutcome::Busy => match self.deadline {
                Some(deadline) => if now > deadline {
                    WriterStep::Stop
                } else {
                    WriterStep::Retry
                },
                None => WriterStep::Retry,
            },
            SendOutcome::Failed => WriterStep::Stop,
        }
    }
}

/// Whether a writer that has waited since `since` goes on waiting for a channel that is not ready.
pub fn waits_for_ready(since: u64, now: u64) -> (r: bool)
    ensures
        r == (now <= control::later(since, READY_TIME)),
{
    now <= since.saturating_add(READY_TIME)
}

/// A reader and a writer of one channel.
#[derive(Debug)]
pub struct BufferStream {
    pub reader: BufferReader,
    pub writer: BufferWriter,
}

/// A reader for the stream that the peer writes to and a writer for the stream that it reads.
pub fn create_bidirectional_buffer(receive_stream_id: u16, send_stream_id: u16) -> (r:
    BufferStream)
    ensures
        r.reader == (BufferReader { stream_id: receive_stream_id, open: true }),
        r.writer.wf(),
        r.writer@ == (WriterView {
            stream_id: send_stream_id,
            pending: Seq::<u8>::empty(),
            deadline: None,
        }),
{
    BufferStream {
        reader: BufferReader::new(receive_stream_id),
        writer: BufferWriter::new(send_stream_id),
    }
}

/// A reader for a stream.
pub fn create_reader(stream_id: u16) -> (r: BufferReader)
    ensures
        r == (BufferReader { stream_id, open: true }),
{
    BufferReader::new(stream_id)
}

/// A writer for a stream.
pub fn create_writer(stream_id: u16) -> (r: BufferWriter)
    ensures
        r.wf(),
        r@ == (WriterView { stream_id, pending: Seq::<u8>::empty(), deadline: None }),
{
    BufferWriter::new(stream_id)
}

/// Whether frames, each with the number of bytes that it stands for, carry `data` from its start
/// to its end.
pub open spec fn framed(stream_id: u16, data: Seq<u8>, frames: Seq<(MessageView, nat)>) -> bool
    decreases frames.len(),
{
    if frames.len() == 0 {
        data.len() == 0
    } else {
        &&& carries(frames[0].0, stream_id, frames[0].1, data)
        &&& framed(stream_id, data.skip(frames[0].1 as int), frames.drop_first())
    }
}

/// What a reader hands on of frames that cross a channel in bytes.
pub open spec fn received(reader: BufferReader, frames: Seq<(MessageView, nat)>) -> (
    BufferReader,
    Seq<u8>,
)
    decreases frames.len(),
{
    if frames.len() == 0 {
        (reader, Seq::empty())
    } else {
        let (after, data) = match unpacked(packed(frames[0].0)) {
            Ok(message) => after_frame(reader, message),
            Err(_) => (reader, Seq::empty()),
        };
        let (last, rest) = received(after, frames.drop_first());
        (last, data + rest)
    }
}

/// Frames that a writer makes of bytes, read in order by a reader of the same stream, give exactly
/// these bytes, and leave the reader open.
pub proof fn streams_are_recovered(
    reader: BufferReader,
    data: Seq<u8>,
    frames: Seq<(MessageView, nat)>,
)
    requires
        reader.open,
        reader.stream_id <= STREAM_ID_MAX,
        framed(reader.stream_id, data, frames),
    ensures
        received(reader, frames) == (reader, data),
    decreases frames.len(),
{
    if frames.len() == 0 {
        assert(data =~= Seq::<u8>::empty());
    } else {
        let m = frames[0].0;
        let n = frames[0].1 as int;
        unpack_inverts_pack(m);
        streams_are_recovered(reader, data.skip(n), frames.drop_first());
        assert(data.take(n) + data.skip(n) =~= data);
    }
}

/// The frame that ends a stream closes its reader and hands nothing on.
pub proof fn end_closes_reader(reader: BufferReader)
    requires
        reader.open,
        reader.stream_id <= STREAM_ID_MAX,
    ensures
        received(
            reader,
            seq![
                (
                    (MessageView {
                        stream_id: reader.stream_id,
                        data: Seq::<u8>::empty(),
                        eof: true,
                        compressed: false,
                    }),
                    0nat,
                ),
            ],
        ) == (BufferReader { open: false, ..reader }, Seq::<u8>::empty()),
{
    let m = MessageView {
        stream_id: reader.stream_id,
        data: Seq::<u8>::empty(),
        eof: true,
        compressed: false,
    };
    let frames = seq![(m, 0nat)];
    unpack_inverts_pack(m);
    reveal_with_fuel(received, 2);
    assert(frames.drop_first().len() == 0);
    assert(received(reader, frames).1 =~= Seq::<u8>::empty());
}

} // verus!
