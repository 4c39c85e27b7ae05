//! What holds of streams over a channel: what a frame says, what a reader takes, and how long a
//! writer goes on.

use vstd::prelude::*;

use crate::buffer_stream::{
    after_attempt, after_frame, after_offer, attempted, chunk_of, compressed_prefix_of,
    first_attempt, frame_of, packed, plain_data, unpacked, BufferReader, MessageView, SendOutcome,
    WriterStep, WriterView,
};
use crate::bytes;
use crate::compress;
use crate::error::RnsError;

verus! {

/// A frame begins with two bytes: the end mark, the compression mark and the stream, from the highest
/// bit down. Its data follows as it is.
pub proof fn frames_say_what_they_are(m: MessageView)
    requires
        m.stream_id < 0x4000,
    ensures
        packed(m).len() == 2 + m.data.len(),
        packed(m)[0] * 256 + packed(m)[1] == m.stream_id + (if m.compressed {
            0x4000int
        } else {
            0
        }) + (if m.eof {
            0x8000int
        } else {
            0
        }),
        packed(m).skip(2) == m.data,
{
    let header = crate::buffer_stream::header_of(m);
    reveal_with_fuel(bytes::be_bytes, 3);
    assert(packed(m)[0] == header / 256 % 256 && packed(m)[1] == header % 256);
    assert(packed(m).skip(2) =~= m.data);
}

/// A frame is read by its first two bytes: the stream, whether it is the last, and whether its data is
/// compressed. Data that is not compressed is taken as it is.
pub proof fn frames_are_read(raw: Seq<u8>)
    ensures
        raw.len() < 2 ==> unpacked(raw) == Err::<MessageView, RnsError>(RnsError::PacketError),
        raw.len() >= 2 && raw[0] % 128 < 64 ==> unpacked(raw) is Ok && unpacked(raw)->Ok_0 == (
        MessageView {
            stream_id: (raw[0] % 64 * 256 + raw[1]) as u16,
            data: raw.skip(2),
            eof: raw[0] >= 128,
            compressed: false,
        }),
        raw.len() >= 2 && unpacked(raw) is Ok ==> {
            &&& unpacked(raw)->Ok_0.stream_id == raw[0] % 64 * 256 + raw[1]
            &&& unpacked(raw)->Ok_0.eof == (raw[0] >= 128)
            &&& unpacked(raw)->Ok_0.compressed == (raw[0] % 128 >= 64)
        },
{
}

/// Compressed data becomes what it decompresses to, where that is at most 16384 bytes.
pub proof fn compressed_data_is_bounded(data: Seq<u8>, out: Seq<u8>)
    requires
        data.len() > 0,
    ensures
        compress::bz2_decompressed(data, 16385) == Some(out) && out.len() <= 16384 ==> plain_data(
            true,
            data,
        ) == Ok::<Seq<u8>, RnsError>(out),
        compress::bz2_decompressed(data, 16385) == Some(out) && out.len() > 16384 ==> plain_data(
            true,
            data,
        ) is Err,
        compress::bz2_decompressed(data, 16385) is None ==> plain_data(true, data) is Err,
        plain_data(false, data) == Ok::<Seq<u8>, RnsError>(data),
{
}

/// A reader takes the data of its own stream until the end; frames of other streams, and all that
/// come after the end, leave it as it is and give nothing.
pub proof fn readers_take_their_stream(reader: BufferReader, message: MessageView)
    ensures
        reader.open && message.stream_id == reader.stream_id ==> {
            &&& after_frame(reader, message).1 == message.data
            &&& after_frame(reader, message).0.open == !message.eof
            &&& after_frame(reader, message).0.stream_id == reader.stream_id
        },
        message.stream_id != reader.stream_id ==> after_frame(reader, message).0 == reader
            && after_frame(reader, message).1.len() == 0,
        !reader.open ==> after_frame(reader, message).0 == reader && after_frame(
            reader,
            message,
        ).1.len() == 0,
{
}

/// A frame is offered for two minutes from its first offer on; further offers do not put that off.
pub proof fn offers_last_two_minutes(writer: WriterView, now: u64, then: u64)
    requires
        writer.pending.len() > 0,
        writer.deadline is None,
        now + 120_000_000_000 <= u64::MAX,
    ensures
        ({
            let offered = after_offer(writer, now);
            &&& offered.deadline == Some((now + 120_000_000_000) as u64)
            &&& offered.pending == writer.pending
            &&& offered.stream_id == writer.stream_id
            &&& after_offer(offered, then) == offered
        }),
{
}

/// A frame that the channel took is not sent again, and the next one has a time of its own. One that
/// it had no room for stays, and is offered again until its time is over; one that it cannot send
/// ends the writing.
pub proof fn outcomes_decide_on_frames(writer: WriterView, length: nat, now: u64, deadline: u64)
    requires
        writer.deadline == Some(deadline),
        length <= writer.pending.len(),
    ensures
        ({
            let (after, step) = after_attempt(writer, SendOutcome::Sent, length, now);
            &&& step == WriterStep::Continue
            &&& after.pending.len() == writer.pending.len() - length
            &&& forall|i: int|
                0 <= i < after.pending.len() ==> #[trigger] after.pending[i] == writer.pending[i
                    + length]
            &&& after.deadline is None
            &&& after.stream_id == writer.stream_id
        }),
        after_attempt(writer, SendOutcome::Busy, length, now).0 == writer,
        now <= deadline ==> after_attempt(writer, SendOutcome::Busy, length, now).1
            == WriterStep::Retry,
        now > deadline ==> after_attempt(writer, SendOutcome::Busy, length, now).1
            == WriterStep::Stop,
        after_attempt(writer, SendOutcome::Failed, length, now) == (writer, WriterStep::Stop),
{
}

/// A frame without compression carries the first bytes, 423 of them where there are so many.
pub proof fn plain_frames_carry_the_first_bytes(stream_id: u16, chunk: Seq<u8>)
    ensures
        ({
            let (message, length) = frame_of(stream_id, chunk, None);
            &&& message.stream_id == stream_id
            &&& !message.eof
            &&& !message.compressed
            &&& length == (if chunk.len() < 423 {
                chunk.len()
            } else {
                423
            })
            &&& message.data == chunk.take(length as int)
        }),
{
}

/// A frame with compressed data carries that data, and stands for the bytes that it was made from.
pub proof fn compressed_frames_stand_for_more(
    stream_id: u16,
    chunk: Seq<u8>,
    data: Seq<u8>,
    length: nat,
)
    ensures
        ({
            let (message, sent) = frame_of(stream_id, chunk, Some((data, length)));
            &&& message.stream_id == stream_id
            &&& !message.eof
            &&& message.compressed
            &&& message.data == data
            &&& sent == length
        }),
{
}

/// Compression is tried on the whole chunk, its half and its third, in that order. The first is taken
/// whose result is shorter than what it was made from and than a frame holds.
pub proof fn first_compression_that_pays_is_taken(chunk: Seq<u8>, attempt: int, data: Seq<u8>)
    requires
        32 < chunk.len() <= 16384,
        1 <= attempt <= 3,
        compress::bz2_compressed(chunk.take(chunk.len() as int / attempt)) == Some(data),
        data.len() < 423,
        data.len() < chunk.len() as int / attempt,
        forall|k: int|
            #![trigger attempted(chunk, k)]
            1 <= k < attempt ==> {
                let compressed = compress::bz2_compressed(chunk.take(chunk.len() as int / k));
                compressed is None || compressed->0.len() >= 423 || compressed->0.len()
                    >= chunk.len() as int / k
            },
    ensures
        compressed_prefix_of(chunk) == Some((data, (chunk.len() as int / attempt) as nat)),
{
    reveal_with_fuel(first_attempt, 4);
    assert(0 < chunk.len() as int / attempt <= chunk.len()) by (nonlinear_arith)
        requires
            32 < chunk.len(),
            1 <= attempt <= 3,
    ;
    assert(attempted(chunk, attempt) == data);
    if attempt > 1 {
        let first = attempted(chunk, 1);
        assert(!crate::buffer_stream::pays_off(first, chunk.take(chunk.len() as int / 1).len()));
    }
    if attempt > 2 {
        let second = attempted(chunk, 2);
        assert(!crate::buffer_stream::pays_off(second, chunk.take(chunk.len() as int / 2).len()));
    }
}

/// Short chunks are not compressed, nor are those on which no attempt pays.
pub proof fn other_chunks_are_sent_plain(chunk: Seq<u8>)
    ensures
        chunk.len() <= 32 ==> compressed_prefix_of(chunk) is None,
        (forall|k: int|
            #![trigger attempted(chunk, k)]
            1 <= k <= 3 ==> {
                let compressed = compress::bz2_compressed(chunk.take(chunk.len() as int / k));
                compressed is None || compressed->0.len() >= 423 || compressed->0.len()
                    >= chunk.len() as int / k
            }) ==> compressed_prefix_of(chunk) is None,
{
    reveal_with_fuel(first_attempt, 4);
    if forall|k: int|
        #![trigger attempted(chunk, k)]
        1 <= k <= 3 ==> {
            let compressed = compress::bz2_compressed(chunk.take(chunk.len() as int / k));
            compressed is None || compressed->0.len() >= 423 || compressed->0.len()
                >= chunk.len() as int / k
        } {
        let first = attempted(chunk, 1);
        let second = attempted(chunk, 2);
        let third = attempted(chunk, 3);
        assert(!crate::buffer_stream::pays_off(first, chunk.take(chunk.len() as int / 1).len()));
        assert(!crate::buffer_stream::pays_off(second, chunk.take(chunk.len() as int / 2).len()));
        assert(!crate::buffer_stream::pays_off(third, chunk.take(chunk.len() as int / 3).len()));
    }
}

/// A write takes 16384 bytes at most, from the front.
pub proof fn chunks_are_bounded(data: Seq<u8>)
    ensures
        data.len() <= 16384 ==> chunk_of(data) == data,
        data.len() > 16384 ==> chunk_of(data) == data.take(16384),
{
}

/// Compressed data is sent in place of the data exactly where compression is on, the data is neither
/// empty nor too large, and the result is shorter.
pub proof fn compression_is_kept_where_it_helps(
    data: Seq<u8>,
    max_size: nat,
    compressed: Seq<u8>,
)
    ensures
        0 < data.len() <= max_size && compressed.len() < data.len() ==> compress::kept_compression(
            data,
            true,
            max_size,
            Some(compressed),
        ) == (compressed, true),
        compressed.len() >= data.len() ==> compress::kept_compression(
            data,
            true,
            max_size,
            Some(compressed),
        ) == (data, false),
        data.len() > max_size ==> compress::kept_compression(
            data,
            true,
            max_size,
            Some(compressed),
        ) == (data, false),
        compress::kept_compression(data, false, max_size, Some(compressed)) == (data, false),
        compress::kept_compression(data, true, max_size, None) == (data, false),
{
}

} // verus!
