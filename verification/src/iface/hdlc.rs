//! HDLC framing: frames between flag bytes, with flag and escape bytes in the payload escaped.

use vstd::prelude::*;

use crate::buffer::OutputBuffer;
use crate::error::RnsError;

verus! {

pub const HDLC_FRAME_FLAG: u8 = 0x7e;

pub const HDLC_ESCAPE_BYTE: u8 = 0x7d;

pub const HDLC_ESCAPE_MASK: u8 = 0x20;

/// A byte as it travels inside a frame.
pub open spec fn escaped_byte(b: u8) -> Seq<u8> {
    if b == HDLC_FRAME_FLAG || b == HDLC_ESCAPE_BYTE {
        seq![HDLC_ESCAPE_BYTE, b ^ HDLC_ESCAPE_MASK]
    } else {
        seq![b]
    }
}

/// A payload as it travels inside a frame.
pub open spec fn escaped(data: Seq<u8>) -> Seq<u8>
    decreases data.len(),
{
    if data.len() == 0 {
        Seq::empty()
    } else {
        escaped(data.drop_last()) + escaped_byte(data.last())
    }
}

/// The frame of a payload.
pub open spec fn framed(data: Seq<u8>) -> Seq<u8> {
    seq![HDLC_FRAME_FLAG] + escaped(data) + seq![HDLC_FRAME_FLAG]
}

/// The length of the longest prefix of a payload whose escaped form fits into `room` bytes.
pub open spec fn longest_fitting(data: Seq<u8>, room: int) -> int
    decreases data.len(),
{
    if data.len() == 0 || escaped(data).len() <= room {
        data.len() as int
    } else {
        longest_fitting(data.drop_last(), room)
    }
}

/// What is written of the frame of a payload when there is room for `room` bytes and that is too
/// little: the flag, and as many bytes of the payload as fit in whole.
pub open spec fn cut_frame(data: Seq<u8>, room: int) -> Seq<u8> {
    if room < 1 {
        Seq::empty()
    } else {
        seq![HDLC_FRAME_FLAG] + escaped(data.take(longest_fitting(data, room - 1)))
    }
}

/// The index of the first flag byte from `from` on, or the length.
pub open spec fn flag_from(data: Seq<u8>, from: int) -> int
    decreases data.len() - from,
{
    if from < 0 || from >= data.len() {
        data.len() as int
    } else if data[from] == HDLC_FRAME_FLAG {
        from
    } else {
        flag_from(data, from + 1)
    }
}

/// `b` in front of a decoded payload.
pub open spec fn in_front(b: u8, rest: Option<Seq<u8>>) -> Option<Seq<u8>> {
    match rest {
        Some(rest) => Some(seq![b] + rest),
        None => None,
    }
}

/// The bytes that decoding puts out until the flag that ends the first frame; `None` when there
/// is no such flag.
pub open spec fn decoded(data: Seq<u8>, started: bool, escape: bool) -> Option<Seq<u8>>
    decreases data.len(),
{
    if data.len() == 0 {
        None
    } else {
        let b = data[0];
        let rest = data.skip(1);
        if escape {
            in_front(b ^ HDLC_ESCAPE_MASK, decoded(rest, started, false))
        } else if b == HDLC_FRAME_FLAG {
            if started {
                Some(Seq::empty())
            } else {
                decoded(rest, true, false)
            }
        } else if b == HDLC_ESCAPE_BYTE {
            decoded(rest, started, true)
        } else {
            in_front(b, decoded(rest, started, false))
        }
    }
}

/// The bytes that decoding puts out until the flag that ends the first frame, or until the end of
/// the data when there is no such flag.
pub open spec fn put_out(data: Seq<u8>, started: bool, escape: bool) -> Seq<u8>
    decreases data.len(),
{
    if data.len() == 0 {
        Seq::empty()
    } else {
        let b = data[0];
        let rest = data.skip(1);
        if escape {
            seq![b ^ HDLC_ESCAPE_MASK] + put_out(rest, started, false)
        } else if b == HDLC_FRAME_FLAG {
            if started {
                Seq::empty()
            } else {
                put_out(rest, true, false)
            }
        } else if b == HDLC_ESCAPE_BYTE {
            put_out(rest, started, true)
        } else {
            seq![b] + put_out(rest, started, false)
        }
    }
}

/// The first bytes of a payload that a limit lets through.
pub open spec fn cut(data: Seq<u8>, mtu: nat) -> Seq<u8> {
    if data.len() <= mtu {
        data
    } else {
        data.take(mtu as int)
    }
}

/// A frame that ends is put out in full.
proof fn decoded_is_put_out(data: Seq<u8>, started: bool, escape: bool)
    ensures
        decoded(data, started, escape) is Some ==> decoded(data, started, escape)->0 == put_out(
            data,
            started,
            escape,
        ),
    decreases data.len(),
{
    if data.len() > 0 {
        let rest = data.skip(1);
        decoded_is_put_out(rest, started, false);
        decoded_is_put_out(rest, true, false);
        decoded_is_put_out(rest, started, true);
    }
}

/// The escape mask turns the two special bytes into their escaped forms and back.
proof fn escape_mask()
    ensures
        0x7eu8 ^ 0x20 == 0x5e,
        0x7du8 ^ 0x20 == 0x5d,
        0x5eu8 ^ 0x20 == 0x7e,
        0x5du8 ^ 0x20 == 0x7d,
{
    assert(0x7eu8 ^ 0x20 == 0x5e && 0x7du8 ^ 0x20 == 0x5d && 0x5eu8 ^ 0x20 == 0x7e && 0x5du8 ^ 0x20
        == 0x7d) by (bit_vector);
}

/// Escaping one more byte.
proof fn escaped_next(data: Seq<u8>, i: int)
    requires
        0 <= i < data.len(),
    ensures
        escaped(data.take(i + 1)) == escaped(data.take(i)) + escaped_byte(data[i]),
{
    assert(data.take(i + 1).drop_last() =~= data.take(i));
}

/// An escaped prefix is no longer than the whole.
proof fn escaped_prefix_len(data: Seq<u8>, i: int)
    requires
        0 <= i <= data.len(),
    ensures
        escaped(data.take(i)).len() <= escaped(data).len(),
    decreases data.len() - i,
{
    if i < data.len() {
        escaped_next(data, i);
        escaped_prefix_len(data, i + 1);
    } else {
        assert(data.take(i) =~= data);
    }
}

/// The longest prefix that fits is the one that fits while the next one does not.
proof fn fitting_prefix(data: Seq<u8>, room: int, i: int)
    requires
        0 <= i < data.len(),
        escaped(data.take(i)).len() <= room < escaped(data.take(i + 1)).len(),
    ensures
        longest_fitting(data, room) == i,
    decreases data.len(),
{
    let head = data.drop_last();
    escaped_prefix_len(data, i + 1);
    if i + 1 == data.len() {
        assert(head =~= data.take(i));
        assert(data.take(i + 1) =~= data);
        assert(longest_fitting(head, room) == i);
    } else {
        assert(head.take(i) =~= data.take(i));
        assert(head.take(i + 1) =~= data.take(i + 1));
        fitting_prefix(head, room, i);
    }
}

/// Frames and unframes whole buffers.
#[derive(Debug)]
pub struct Hdlc {}

impl Hdlc {
    /// Appends the frame of `data`; see [`Hdlc::encode_frame`].
    pub fn encode(data: &[u8], buffer: &mut OutputBuffer) -> (r: Result<usize, RnsError>)
        requires
            old(buffer).wf(),
        ensures
            final(buffer).wf(),
            final(buffer).capacity() == old(buffer).capacity(),
            r is Ok <==> old(buffer)@.len() + framed(data@).len() <= old(buffer).capacity(),
            r is Ok ==> final(buffer)@ == old(buffer)@ + framed(data@) && r->Ok_0 == final(
                buffer
            )@.len(),
            r is Err ==> r->Err_0 == RnsError::OutOfMemory && final(buffer)@ == old(buffer)@
                + cut_frame(data@, old(buffer).capacity() - old(buffer)@.len()),
    {
        Hdlc::encode_frame(data, buffer)
    }

    /// The indices of the first two flag bytes.
    pub fn find(data: &[u8]) -> (r: Option<(usize, usize)>)
        ensures
            ({
                let start = flag_from(data@, 0);
                let end = flag_from(data@, start + 1);
                if start < data@.len() && end < data@.len() {
                    r is Some && (r->0).0 == start && (r->0).1 == end
                } else {
                    r is None
                }
            }),
    {
        let start: usize = Hdlc::find_flag(data, 0);
        if start >= data.len() {
            return None;
        }
        let end: usize = Hdlc::find_flag(data, start + 1);
        if end >= data.len() {
            return None;
        }
        Some((start, end))
    }

    /// The index of the first flag byte from `from` on, or the length.
    fn find_flag(data: &[u8], from: usize) -> (r: usize)
        requires
            from <= data@.len(),
        ensures
            r == flag_from(data@, from as int),
            from <= r <= data@.len(),
    {
        let mut i: usize = from;
        while i < data.len()
            invariant
                from <= i <= data@.len(),
                flag_from(data@, from as int) == flag_from(data@, i as int),
            decreases data@.len() - i,
        {
            if data[i] == HDLC_FRAME_FLAG {
                return i;
            }
            i += 1;
        }
        i
    }

    /// Appends the escaped form of `data`. When the buffer is too small, the bytes that fit stay
    /// written.
    pub fn escape(data: &[u8], buffer: &mut OutputBuffer) -> (r: Result<usize, RnsError>)
        requires
            old(buffer).wf(),
        ensures
            final(buffer).wf(),
            final(buffer).capacity() == old(buffer).capacity(),
            r is Ok <==> old(buffer)@.len() + escaped(data@).len() <= old(buffer).capacity(),
            r is Ok ==> final(buffer)@ == old(buffer)@ + escaped(data@) && r->Ok_0 == final(
                buffer
            )@.len(),
            r is Err ==> r->Err_0 == RnsError::OutOfMemory && final(buffer)@ == old(buffer)@
                + escaped(
                data@.take(longest_fitting(data@, old(buffer).capacity() - old(buffer)@.len())),
            ),
    {
        let mut i: usize = 0;
        let ghost room = buffer.capacity() - buffer@.len();
        proof {
            buffer.written_fits();
            assert(data@.take(0) =~= Seq::<u8>::empty());
            assert(buffer@ =~= old(buffer)@ + escaped(data@.take(0)));
            escaped_prefix_len(data@, 0);
        }
        while i < data.len()
            invariant
                i <= data@.len(),
                buffer.wf(),
                buffer.capacity() == old(buffer).capacity(),
                buffer@ == old(buffer)@ + escaped(data@.take(i as int)),
                room == old(buffer).capacity() - old(buffer)@.len(),
                escaped(data@.take(i as int)).len() <= room,
            decreases data@.len() - i,
        {
            let byte: u8 = data[i];
            proof {
                escaped_next(data@, i as int);
                escaped_prefix_len(data@, i + 1);
                if escaped(data@.take(i + 1)).len() > room {
                    fitting_prefix(data@, room, i as int);
                }
            }
            if byte == HDLC_FRAME_FLAG || byte == HDLC_ESCAPE_BYTE {
                let pair: [u8; 2] = [HDLC_ESCAPE_BYTE, byte ^ HDLC_ESCAPE_MASK];
                assert(pair@ =~= escaped_byte(byte));
                match buffer.write(&pair) {
                    Ok(_) => {},
                    Err(err) => return Err(err),
                }
            } else {
                match buffer.write_byte(byte) {
                    Ok(_) => {},
                    Err(err) => return Err(err),
                }
            }
            i += 1;
            assert(buffer@ =~= old(buffer)@ + escaped(data@.take(i as int)));
        }
        assert(data@.take(i as int) =~= data@);
        proof {
            buffer.written_fits();
        }
        Ok(buffer.offset())
    }

    /// Appends the frame of `data`: a flag, the escaped payload and a flag. When the buffer is too
    /// small, the bytes that fit stay written.
    pub fn encode_frame(data: &[u8], buffer: &mut OutputBuffer) -> (r: Result<usize, RnsError>)
        requires
            old(buffer).wf(),
        ensures
            final(buffer).wf(),
            final(buffer).capacity() == old(buffer).capacity(),
            r is Ok <==> old(buffer)@.len() + framed(data@).len() <= old(buffer).capacity(),
            r is Ok ==> final(buffer)@ == old(buffer)@ + framed(data@) && r->Ok_0 == final(
                buffer
            )@.len(),
            r is Err ==> r->Err_0 == RnsError::OutOfMemory && final(buffer)@ == old(buffer)@
                + cut_frame(data@, old(buffer).capacity() - old(buffer)@.len()),
    {
        let ghost room = buffer.capacity() - buffer@.len();
        let ghost before = buffer@;
        proof {
            buffer.written_fits();
        }
        match buffer.write_byte(HDLC_FRAME_FLAG) {
            Ok(_) => {},
            Err(err) => {
                assert(before + cut_frame(data@, room) =~= before);
                return Err(err);
            },
        }
        match Hdlc::escape(data, buffer) {
            Ok(_) => {},
            Err(err) => {
                assert(buffer@ =~= before + cut_frame(data@, room));
                return Err(err);
            },
        }
        assert(data@.take(data@.len() as int) =~= data@);
        match buffer.write_byte(HDLC_FRAME_FLAG) {
            Ok(_) => {},
            Err(err) => {
                assert(buffer@ =~= before + cut_frame(data@, room));
                return Err(err);
            },
        }
        assert(buffer@ =~= old(buffer)@ + framed(data@));
        proof {
            buffer.written_fits();
        }
        Ok(buffer.offset())
    }

    /// The frame of `data`.
    pub fn encode_frame_vec(data: &[u8]) -> (out: Vec<u8>)
        ensures
            out@ == framed(data@),
    {
        let mut out: Vec<u8> = Vec::new();
        out.push(HDLC_FRAME_FLAG);
        let mut i: usize = 0;
        proof {
            assert(data@.take(0) =~= Seq::<u8>::empty());
            assert(out@ =~= seq![HDLC_FRAME_FLAG] + escaped(data@.take(0)));
        }
        while i < data.len()
            invariant
                i <= data@.len(),
                out@ == seq![HDLC_FRAME_FLAG] + escaped(data@.take(i as int)),
            decreases data@.len() - i,
        {
            let byte: u8 = data[i];
            proof {
                escaped_next(data@, i as int);
            }
            if byte == HDLC_FRAME_FLAG || byte == HDLC_ESCAPE_BYTE {
                out.push(HDLC_ESCAPE_BYTE);
                out.push(byte ^ HDLC_ESCAPE_MASK);
            } else {
                out.push(byte);
            }
            i += 1;
            assert(out@ =~= seq![HDLC_FRAME_FLAG] + escaped(data@.take(i as int)));
        }
        assert(data@.take(i as int) =~= data@);
        out.push(HDLC_FRAME_FLAG);
        assert(out@ =~= framed(data@));
        out
    }

    /// Appends the payload of the first frame in `data`. Fails when the frame does not end or the
    /// buffer is too small; the bytes that fit stay written.
    pub fn decode(data: &[u8], output: &mut OutputBuffer) -> (r: Result<usize, RnsError>)
        requires
            old(output).wf(),
        ensures
            final(output).wf(),
            final(output).capacity() == old(output).capacity(),
            r is Ok <==> decoded(data@, false, false) is Some && old(output)@.len() + decoded(
                data@,
                false,
                false,
            )->0.len() <= old(output).capacity(),
            r is Ok ==> final(output)@ == old(output)@ + decoded(data@, false, false)->0
                && r->Ok_0 == final(output)@.len(),
            r is Err ==> r->Err_0 == RnsError::OutOfMemory && final(output)@ == old(output)@
                + cut(
                put_out(data@, false, false),
                (old(output).capacity() - old(output)@.len()) as nat,
            ),
    {
        let mut started: bool = false;
        let mut escape: bool = false;
        let ghost target = decoded(data@, false, false);
        let ghost all = put_out(data@, false, false);
        let ghost room = output.capacity() - output@.len();
        let ghost mut written = Seq::<u8>::empty();
        let mut i: usize = 0;
        proof {
            output.written_fits();
            decoded_is_put_out(data@, false, false);
        }
        assert(data@.skip(0) =~= data@);
        assert(all =~= written + put_out(data@.skip(0), false, false));
        assert(output@ =~= old(output)@ + written);
        while i < data.len()
            invariant
                i <= data@.len(),
                output.wf(),
                output.capacity() == old(output).capacity(),
                output@ == old(output)@ + written,
                target == decoded(data@, false, false),
                match decoded(data@.skip(i as int), started, escape) {
                    Some(rest) => target == Some(written + rest),
                    None => target is None,
                },
                all == put_out(data@, false, false),
                target is Some ==> target->0 == all,
                all == written + put_out(data@.skip(i as int), started, escape),
                room == old(output).capacity() - old(output)@.len(),
                written.len() <= room,
            decreases data@.len() - i,
        {
            let byte: u8 = data[i];
            let ghost before = written;
            let ghost rest = data@.skip(i as int);
            proof {
                assert(rest.skip(1) =~= data@.skip(i + 1));
                assert(rest[0] == byte);
            }
            if escape {
                escape = false;
                let ghost next = decoded(data@.skip(i + 1), started, escape);
                assert(all =~= written.push(byte ^ HDLC_ESCAPE_MASK) + put_out(
                    data@.skip(i + 1),
                    started,
                    escape,
                ));
                match output.write_byte(byte ^ HDLC_ESCAPE_MASK) {
                    Ok(_) => {},
                    Err(err) => {
                        assert(written =~= cut(all, room as nat));
                        return Err(err);
                    },
                }
                proof {
                    written = written.push(byte ^ HDLC_ESCAPE_MASK);
                    assert(output@ =~= old(output)@ + written);
                    if next is Some {
                        assert(before + (seq![byte ^ HDLC_ESCAPE_MASK] + next->0) =~= written
                            + next->0);
                    }
                }
            } else if byte == HDLC_FRAME_FLAG {
                if started {
                    assert(target == Some(written + Seq::<u8>::empty()));
                    assert(written + Seq::<u8>::empty() =~= written);
                    proof {
                        output.written_fits();
                    }
                    return Ok(output.offset());
                }
                started = true;
            } else if byte == HDLC_ESCAPE_BYTE {
                escape = true;
            } else {
                let ghost next = decoded(data@.skip(i + 1), started, escape);
                assert(all =~= written.push(byte) + put_out(data@.skip(i + 1), started, escape));
                match output.write_byte(byte) {
                    Ok(_) => {},
                    Err(err) => {
                        assert(written =~= cut(all, room as nat));
                        return Err(err);
                    },
                }
                proof {
                    written = written.push(byte);
                    assert(output@ =~= old(output)@ + written);
                    if next is Some {
                        assert(before + (seq![byte] + next->0) =~= written + next->0);
                    }
                }
            }
            i += 1;
        }
        assert(all =~= written);
        Err(RnsError::OutOfMemory)
    }
}

/// The state of a stream decoder between two bytes.
#[verifier::ext_equal]
pub struct DecoderView {
    pub frame: Seq<u8>,
    pub in_frame: bool,
    pub escape: bool,
    pub mtu: nat,
}

/// The byte that an escaped byte stands for.
pub open spec fn unescaped(b: u8) -> u8 {
    b ^ HDLC_ESCAPE_MASK
}

/// The state of a decoder after one more byte.
pub open spec fn after_byte(d: DecoderView, b: u8) -> DecoderView {
    if b == HDLC_FRAME_FLAG {
        DecoderView { frame: Seq::empty(), in_frame: !d.in_frame, escape: false, ..d }
    } else if d.in_frame && d.frame.len() < d.mtu {
        if d.escape {
            DecoderView { frame: d.frame.push(unescaped(b)), escape: false, ..d }
        } else if b == HDLC_ESCAPE_BYTE {
            DecoderView { escape: true, ..d }
        } else {
            DecoderView { frame: d.frame.push(b), ..d }
        }
    } else {
        d
    }
}

/// The frames that one more byte completes.
pub open spec fn frames_of_byte(d: DecoderView, b: u8) -> Seq<Seq<u8>> {
    if b == HDLC_FRAME_FLAG && d.in_frame {
        seq![d.frame]
    } else {
        Seq::empty()
    }
}

/// The state of a decoder after more bytes.
pub open spec fn after_bytes(d: DecoderView, data: Seq<u8>) -> DecoderView
    decreases data.len(),
{
    if data.len() == 0 {
        d
    } else {
        after_byte(after_bytes(d, data.drop_last()), data.last())
    }
}

/// The frames that more bytes complete.
pub open spec fn frames_of(d: DecoderView, data: Seq<u8>) -> Seq<Seq<u8>>
    decreases data.len(),
{
    if data.len() == 0 {
        Seq::empty()
    } else {
        frames_of(d, data.drop_last()) + frames_of_byte(
            after_bytes(d, data.drop_last()),
            data.last(),
        )
    }
}

/// Decodes frames from a byte stream.
///
/// A flag starts a frame and the next flag ends it. An escape flips a bit of the byte behind it,
/// whichever that is, unless it is a flag. Frames longer than the limit are cut off
/// there. Empty frames are delivered too.
#[derive(Debug)]
pub struct HdlcDecoder {
    frame: Vec<u8>,
    in_frame: bool,
    escape: bool,
    mtu: usize,
}

impl View for HdlcDecoder {
    type V = DecoderView;

    closed spec fn view(&self) -> DecoderView {
        DecoderView {
            frame: self.frame@,
            in_frame: self.in_frame,
            escape: self.escape,
            mtu: self.mtu as nat,
        }
    }
}

/// Frames as mathematical values.
pub open spec fn frame_views(frames: Seq<Vec<u8>>) -> Seq<Seq<u8>> {
    frames.map_values(|f: Vec<u8>| f@)
}

impl HdlcDecoder {
    /// A decoder outside of any frame, for frames of at most `mtu` bytes.
    pub fn new(mtu: usize) -> (r: Self)
        ensures
            r@ == (DecoderView {
                frame: Seq::empty(),
                in_frame: false,
                escape: false,
                mtu: mtu as nat,
            }),
    {
        HdlcDecoder { frame: Vec::new(), in_frame: false, escape: false, mtu }
    }

    /// Takes one byte in. Returns the frame that it completes.
    fn feed_byte(&mut self, byte: u8) -> (r: Option<Vec<u8>>)
        ensures
            final(self)@ == after_byte(old(self)@, byte),
            match r {
                Some(frame) => frames_of_byte(old(self)@, byte) == seq![frame@],
                None => frames_of_byte(old(self)@, byte) == Seq::<Seq<u8>>::empty(),
            },
    {
        if byte == HDLC_FRAME_FLAG {
            let mut frame: Vec<u8> = Vec::new();
            std::mem::swap(&mut frame, &mut self.frame);
            self.escape = false;
            if self.in_frame {
                self.in_frame = false;
                return Some(frame);
            }
            self.in_frame = true;
        } else if self.in_frame && self.frame.len() < self.mtu {
            if self.escape {
                self.frame.push(byte ^ HDLC_ESCAPE_MASK);
                self.escape = false;
            } else if byte == HDLC_ESCAPE_BYTE {
                self.escape = true;
            } else {
                self.frame.push(byte);
            }
        }
        None
    }

    /// Takes stream bytes in. Returns the completed frames, in order.
    pub fn feed(&mut self, data: &[u8]) -> (frames: Vec<Vec<u8>>)
        ensures
            final(self)@ == after_bytes(old(self)@, data@),
            frame_views(frames@) == frames_of(old(self)@, data@),
    {
        let mut frames: Vec<Vec<u8>> = Vec::new();
        let mut i: usize = 0;
        let ghost d = self@;
        assert(data@.take(0) =~= Seq::<u8>::empty());
        assert(frame_views(frames@) =~= Seq::<Seq<u8>>::empty());
        while i < data.len()
            invariant
                i <= data@.len(),
                d == old(self)@,
                self@ == after_bytes(d, data@.take(i as int)),
                frame_views(frames@) == frames_of(d, data@.take(i as int)),
            decreases data@.len() - i,
        {
            let ghost before = frame_views(frames@);
            let ghost state = self@;
            proof {
                assert(data@.take(i + 1).drop_last() =~= data@.take(i as int));
            }
            match self.feed_byte(data[i]) {
                Some(frame) => {
                    frames.push(frame);
                    assert(frame_views(frames@) =~= before + seq![frame@]);
                },
                None => {
                    assert(before + Seq::<Seq<u8>>::empty() =~= before);
                },
            }
            i += 1;
        }
        assert(data@.take(i as int) =~= data@);
        frames
    }

    /// Drops any partial frame.
    pub fn reset(&mut self)
        ensures
            final(self)@ == (DecoderView {
                frame: Seq::empty(),
                in_frame: false,
                escape: false,
                mtu: old(self)@.mtu,
            }),
    {
        self.frame.clear();
        self.in_frame = false;
        self.escape = false;
    }
}

/// Taking bytes in one go or in two is the same: how a stream is cut into pieces does not matter.
pub proof fn feeding_in_pieces(d: DecoderView, a: Seq<u8>, b: Seq<u8>)
    ensures
        after_bytes(d, a + b) == after_bytes(after_bytes(d, a), b),
        frames_of(d, a + b) == frames_of(d, a) + frames_of(after_bytes(d, a), b),
    decreases b.len(),
{
    if b.len() == 0 {
        assert(a + b =~= a);
        assert(frames_of(d, a) + frames_of(after_bytes(d, a), b) =~= frames_of(d, a));
    } else {
        assert((a + b).drop_last() =~= a + b.drop_last());
        feeding_in_pieces(d, a, b.drop_last());
        assert(frames_of(d, a + b) =~= frames_of(d, a) + frames_of(after_bytes(d, a), b));
    }
}

/// An escaped byte inside a frame goes into the frame, unless that is full.
proof fn escaped_byte_enters(d: DecoderView, b: u8)
    requires
        d.in_frame,
        !d.escape,
    ensures
        after_bytes(d, escaped_byte(b)) == (DecoderView {
            frame: if d.frame.len() < d.mtu {
                d.frame.push(b)
            } else {
                d.frame
            },
            ..d
        }),
        frames_of(d, escaped_byte(b)) == Seq::<Seq<u8>>::empty(),
{
    escape_mask();
    let e = escaped_byte(b);
    reveal_with_fuel(after_bytes, 3);
    reveal_with_fuel(frames_of, 3);
    if e.len() == 2 {
        assert(e.drop_last() =~= seq![e[0]]);
        assert(e.drop_last().drop_last() =~= Seq::<u8>::empty());
    } else {
        assert(e.drop_last() =~= Seq::<u8>::empty());
    }
    assert(frames_of(d, e) =~= Seq::<Seq<u8>>::empty());
}

/// An escaped payload inside a frame fills the frame with the payload, up to the limit.
proof fn escaped_fills_frame(d: DecoderView, data: Seq<u8>)
    requires
        d.in_frame,
        !d.escape,
        d.frame.len() == 0,
    ensures
        after_bytes(d, escaped(data)) == (DecoderView { frame: cut(data, d.mtu), ..d }),
        frames_of(d, escaped(data)) == Seq::<Seq<u8>>::empty(),
    decreases data.len(),
{
    if data.len() == 0 {
        assert(cut(data, d.mtu) =~= d.frame);
    } else {
        let head = data.drop_last();
        let b = data.last();
        escaped_fills_frame(d, head);
        feeding_in_pieces(d, escaped(head), escaped_byte(b));
        escaped_byte_enters(after_bytes(d, escaped(head)), b);
        if head.len() < d.mtu {
            assert(cut(data, d.mtu) =~= head.push(b));
        } else {
            assert(cut(data, d.mtu) =~= cut(head, d.mtu));
        }
        assert(frames_of(d, escaped(data)) =~= Seq::<Seq<u8>>::empty());
    }
}

/// A decoder outside of a frame that takes in the frame of a payload delivers the payload, cut at
/// its limit, and is outside of a frame again.
pub proof fn frame_round_trip(d: DecoderView, data: Seq<u8>)
    requires
        !d.in_frame,
    ensures
        frames_of(d, framed(data)) == seq![cut(data, d.mtu)],
        after_bytes(d, framed(data)) == (DecoderView {
            frame: Seq::empty(),
            in_frame: false,
            escape: false,
            mtu: d.mtu,
        }),
{
    let flag = seq![HDLC_FRAME_FLAG];
    let opened = DecoderView { frame: Seq::empty(), in_frame: true, escape: false, mtu: d.mtu };
    reveal_with_fuel(after_bytes, 2);
    reveal_with_fuel(frames_of, 2);
    assert(flag.drop_last() =~= Seq::<u8>::empty());
    assert(after_bytes(d, flag) =~= opened);
    assert(frames_of(d, flag) =~= Seq::<Seq<u8>>::empty());
    escaped_fills_frame(opened, data);
    feeding_in_pieces(d, flag, escaped(data));
    feeding_in_pieces(d, flag + escaped(data), flag);
    let full = DecoderView { frame: cut(data, d.mtu), ..opened };
    assert(after_bytes(d, flag + escaped(data)) == full);
    assert(frames_of(full, flag) =~= seq![cut(data, d.mtu)]);
    assert(frames_of(d, framed(data)) =~= seq![cut(data, d.mtu)]);
}

/// An escaped payload holds no flag byte.
pub proof fn escaped_has_no_flag(data: Seq<u8>, i: int)
    requires
        0 <= i < escaped(data).len(),
    ensures
        escaped(data)[i] != HDLC_FRAME_FLAG,
    decreases data.len(),
{
    escape_mask();
    if data.len() > 0 {
        let head = escaped(data.drop_last());
        if i < head.len() {
            escaped_has_no_flag(data.drop_last(), i);
        }
    }
}

/// The flags of the frame of a payload are its first and its last byte.
pub proof fn frame_flags(data: Seq<u8>)
    ensures
        flag_from(framed(data), 0) == 0,
        flag_from(framed(data), 1) == framed(data).len() - 1,
{
    no_flag_before_end(data, 1);
}

proof fn no_flag_before_end(data: Seq<u8>, i: int)
    requires
        1 <= i <= framed(data).len() - 1,
    ensures
        flag_from(framed(data), i) == framed(data).len() - 1,
    decreases framed(data).len() - i,
{
    if i < framed(data).len() - 1 {
        escaped_has_no_flag(data, i - 1);
        assert(framed(data)[i] == escaped(data)[i - 1]);
        no_flag_before_end(data, i + 1);
    }
}

/// Decoding the rest of a frame gives the rest of the payload.
proof fn decoded_rest(data: Seq<u8>, tail: Seq<u8>, i: int)
    requires
        0 <= i <= data.len(),
        decoded(tail, true, false) is Some,
    ensures
        decoded(escaped(data.skip(i)) + tail, true, false) == Some(
            data.skip(i) + decoded(tail, true, false)->0,
        ),
    decreases data.len() - i,
{
    escape_mask();
    let rest = data.skip(i);
    if i == data.len() {
        assert(escaped(rest) + tail =~= tail);
        assert(rest + decoded(tail, true, false)->0 =~= decoded(tail, true, false)->0);
    } else {
        let b = data[i];
        let next = data.skip(i + 1);
        escaped_head(rest);
        assert(rest.skip(1) =~= next);
        decoded_rest(data, tail, i + 1);
        let s = escaped(rest) + tail;
        let after = escaped(next) + tail;
        reveal_with_fuel(decoded, 3);
        if b == HDLC_FRAME_FLAG || b == HDLC_ESCAPE_BYTE {
            assert(s.skip(1).skip(1) =~= after);
            assert(s.skip(1)[0] == b ^ HDLC_ESCAPE_MASK);
        } else {
            assert(s.skip(1) =~= after);
        }
        assert(rest + decoded(tail, true, false)->0 =~= seq![b] + (next + decoded(
            tail,
            true,
            false,
        )->0));
    }
}

/// Escaping from the front.
proof fn escaped_head(data: Seq<u8>)
    requires
        data.len() > 0,
    ensures
        escaped(data) == escaped_byte(data[0]) + escaped(data.skip(1)),
    decreases data.len(),
{
    if data.len() == 1 {
        assert(data.drop_last() =~= Seq::<u8>::empty());
        assert(data.skip(1) =~= Seq::<u8>::empty());
        assert(escaped(data) =~= escaped_byte(data[0]) + escaped(data.skip(1)));
    } else {
        escaped_head(data.drop_last());
        assert(data.drop_last().skip(1) =~= data.skip(1).drop_last());
        assert(escaped(data) =~= escaped_byte(data[0]) + escaped(data.skip(1)));
    }
}

/// Decoding the frame of a payload gives the payload.
pub proof fn decode_inverts_encode(data: Seq<u8>)
    ensures
        decoded(framed(data), false, false) == Some(data),
{
    let flag = seq![HDLC_FRAME_FLAG];
    reveal_with_fuel(decoded, 2);
    assert(decoded(flag, true, false) == Some(Seq::<u8>::empty()));
    decoded_rest(data, flag, 0);
    assert(data.skip(0) =~= data);
    assert(framed(data).skip(1) =~= escaped(data) + flag);
    assert(data + Seq::<u8>::empty() =~= data);
}

} // verus!
