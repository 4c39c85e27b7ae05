//! Byte streams over channels, and compression.

use reticulum::buffer_stream::{
    build_frame, create_bidirectional_buffer, create_reader, create_writer, eof_frame, next_frame,
    waits_for_ready, SendOutcome, StreamDataMessage, WriterStep, MAX_CHUNK_LEN, MAX_DATA_LEN,
    READY_TIME, SEND_TIME, SMT_STREAM_DATA,
};
use reticulum::compress::{check_output, decompress, maybe_compress, shorter_of};
use reticulum::error::RnsError;

#[test]
fn stream_frame_pack_unpack() {
    let msg = StreamDataMessage {
        stream_id: 0x1234,
        data: b"hello stream".to_vec(),
        eof: false,
        compressed: false,
    };
    let packed = msg.pack_bytes();
    assert_eq!(&packed[..2], &[0x12, 0x34]);
    assert_eq!(&packed[2..], b"hello stream");
    let unpacked = StreamDataMessage::unpack_bytes(&packed).unwrap();
    assert_eq!(unpacked, msg);

    let msg = StreamDataMessage {
        stream_id: 0x0001,
        data: vec![],
        eof: true,
        compressed: false,
    };
    let packed = msg.pack_bytes();
    assert_eq!(&packed[..2], &[0x80, 0x01]);
    assert!(StreamDataMessage::unpack_bytes(&packed).unwrap().eof);

    let msg = StreamDataMessage {
        stream_id: 0x0002,
        data: vec![],
        eof: false,
        compressed: true,
    };
    let packed = msg.pack_bytes();
    assert_eq!(&packed[..2], &[0x40, 0x02]);
    assert!(StreamDataMessage::unpack_bytes(&packed).unwrap().compressed);
}

#[test]
fn compressed_roundtrip() {
    let data = vec![0xAB; 5000];
    let (compressed, did) = maybe_compress(&data, true, usize::MAX);
    assert!(did);
    let msg = StreamDataMessage {
        stream_id: 7,
        data: compressed,
        eof: false,
        compressed: true,
    };
    let unpacked = StreamDataMessage::unpack_bytes(&msg.pack_bytes()).unwrap();
    assert_eq!(unpacked.data, data);
    assert!(unpacked.compressed);
}

#[test]
fn message_type_is_system_reserved() {
    let msg = StreamDataMessage {
        stream_id: 1,
        data: vec![],
        eof: false,
        compressed: false,
    };
    assert_eq!(msg.message_type(), SMT_STREAM_DATA);
    assert!(msg.message_type() >= 0xff00);
}

#[test]
fn short_and_damaged_frames_are_rejected() {
    assert_eq!(StreamDataMessage::unpack_bytes(&[0x12]), Err(RnsError::PacketError));
    assert_eq!(
        StreamDataMessage::unpack(&[0x40, 0x02, 1, 2, 3], SMT_STREAM_DATA),
        Err(RnsError::ResourceMsg("bz2 decompression failed"))
    );
    let (large, did) = maybe_compress(&vec![7u8; MAX_CHUNK_LEN + 1], true, usize::MAX);
    assert!(did);
    let frame = StreamDataMessage { stream_id: 1, data: large, eof: false, compressed: true };
    assert_eq!(
        StreamDataMessage::unpack_bytes(&frame.pack()),
        Err(RnsError::ResourceMsg("decompressed resource exceeded maximum size"))
    );
}

fn noise(length: usize) -> Vec<u8> {
    let mut state: u32 = 12345;
    let mut out = Vec::new();
    for _ in 0..length {
        state = state.wrapping_mul(1664525).wrapping_add(1013904223);
        out.push((state >> 24) as u8);
    }
    out
}

#[test]
fn frames_take_the_longest_prefix_that_compresses() {
    let even = vec![1u8; 20000];
    let (frame, length) = next_frame(3, &even);
    assert_eq!(length, MAX_CHUNK_LEN);
    assert!(frame.compressed);

    let (frame, length) = next_frame(3, &[5u8; 32]);
    assert_eq!(length, 32);
    assert!(!frame.compressed);
    assert_eq!(frame.data, vec![5u8; 32]);

    let random = noise(1000);
    let (frame, length) = next_frame(3, &random);
    assert_eq!(length, MAX_DATA_LEN);
    assert!(!frame.compressed);
    assert_eq!(frame.data, random[..MAX_DATA_LEN].to_vec());

    let mut half = vec![9u8; 500];
    half.extend_from_slice(&noise(500));
    let (frame, length) = next_frame(3, &half);
    assert_eq!(length, 500);
    assert!(frame.compressed);

    let (frame, length) = build_frame(8, &[1, 2, 3], Some((vec![42], 3)));
    assert_eq!((frame.data, frame.compressed, length), (vec![42], true, 3));
    let (frame, length) = build_frame(8, &[1, 2, 3], None);
    assert_eq!((frame.data, frame.compressed, length), (vec![1, 2, 3], false, 3));
}

#[test]
fn what_is_written_is_read() {
    let mut data = vec![0u8; 3000];
    data.extend_from_slice(&noise(2500));
    data.extend_from_slice(&vec![7u8; 900]);
    let mut writer = create_writer(5);
    let mut reader = create_reader(5);
    let mut stranger = create_reader(6);
    let mut read = Vec::new();
    writer.load(data.clone());
    while let Some((frame, length)) = writer.next(0) {
        assert!(frame.data.len() <= MAX_DATA_LEN);
        let message = StreamDataMessage::unpack_bytes(&frame.pack_bytes()).unwrap();
        read.extend_from_slice(&reader.on_frame(&message));
        assert!(stranger.on_frame(&message).is_empty());
        assert_eq!(writer.on_attempt(SendOutcome::Sent, length, 1), WriterStep::Continue);
    }
    assert_eq!(read, data);
    assert!(reader.open);
    let end = StreamDataMessage::unpack_bytes(&eof_frame(5).pack_bytes()).unwrap();
    assert!(reader.on_frame(&end).is_empty());
    assert!(!reader.open);
    let late = StreamDataMessage { stream_id: 5, data: vec![1], eof: false, compressed: false };
    assert!(reader.on_frame(&late).is_empty());
    assert!(stranger.open);
    stranger.on_channel_closed();
    assert!(!stranger.open);
}

#[test]
fn a_full_channel_is_tried_for_two_minutes() {
    let mut stream = create_bidirectional_buffer(1, 2);
    assert_eq!((stream.reader.stream_id(), stream.writer.stream_id()), (1, 2));
    stream.writer.load(vec![1, 2, 3]);
    assert_eq!(stream.writer.next(1000).unwrap().1, 3);
    assert_eq!(stream.writer.on_attempt(SendOutcome::Busy, 3, 1500), WriterStep::Retry);
    assert_eq!(stream.writer.next(2000).unwrap().1, 3);
    assert_eq!(stream.writer.on_attempt(SendOutcome::Busy, 3, 1000 + SEND_TIME), WriterStep::Retry);
    assert_eq!(
        stream.writer.on_attempt(SendOutcome::Busy, 3, 1001 + SEND_TIME),
        WriterStep::Stop
    );
    assert_eq!(stream.writer.on_attempt(SendOutcome::Failed, 3, 1000), WriterStep::Stop);
    assert!(waits_for_ready(500, 500 + READY_TIME));
    assert!(!waits_for_ready(500, 501 + READY_TIME));
}

#[test]
fn the_time_of_a_frame_runs_from_its_first_offer() {
    let mut writer = create_writer(4);
    writer.load(noise(3 * MAX_DATA_LEN));
    let (_, length) = writer.next(10).unwrap();
    assert_eq!(writer.deadline, Some(10 + SEND_TIME));
    assert_eq!(writer.on_attempt(SendOutcome::Sent, length, 20), WriterStep::Continue);
    assert_eq!(writer.deadline, None);
    let offered = 20 + READY_TIME;
    let (_, length) = writer.next(offered).unwrap();
    assert_eq!(
        writer.on_attempt(SendOutcome::Busy, length, offered + SEND_TIME),
        WriterStep::Retry
    );
    assert_eq!(
        writer.on_attempt(SendOutcome::Busy, length, offered + SEND_TIME + 1),
        WriterStep::Stop
    );
}

#[test]
fn compression_is_kept_when_it_is_shorter() {
    let data = vec![3u8; 400];
    let (kept, compressed) = maybe_compress(&data, true, 400);
    assert!(compressed && kept.len() < 400 && kept[..3] == *b"BZh");
    assert_eq!(maybe_compress(&data, true, 399), (data.clone(), false));
    assert_eq!(maybe_compress(&data, false, 400), (data.clone(), false));
    assert_eq!(maybe_compress(b"ab", true, 400), (b"ab".to_vec(), false));
    assert_eq!(decompress(&kept, 400).unwrap(), data);
    assert_eq!(
        decompress(&kept, 399),
        Err(RnsError::ResourceMsg("decompressed resource exceeded maximum size"))
    );
    assert_eq!(decompress(b"nothing", 10), Err(RnsError::ResourceMsg("bz2 decompression failed")));
    assert_eq!(shorter_of(b"abc", Some(vec![1, 2])), (vec![1, 2], true));
    assert_eq!(shorter_of(b"abc", Some(vec![1, 2, 3])), (b"abc".to_vec(), false));
    assert_eq!(check_output(Some(vec![1, 2]), 2), Ok(vec![1, 2]));
    assert_eq!(check_output(None, 2), Err(RnsError::ResourceMsg("bz2 decompression failed")));
}
