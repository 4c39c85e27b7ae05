//! KISS framing on serial ports, plain or with AX.25 headers.
//!
//! A data frame is a frame end, the command byte zero, the escaped payload and a frame end. The
//! terminal is configured by commands of one value each. With flow control the interface waits
//! for a ready command after each frame that it sends, and queues what comes in between.

use vstd::prelude::*;

use crate::bytes;
use crate::iface::ax25;
use crate::iface::ifac;
use crate::iface::ifac::IfacKey;

pub use crate::iface::transmit::KissInterface;
pub use crate::iface::transmit::KissTransmitter;

verus! {

pub const FEND: u8 = 0xC0;

pub const FESC: u8 = 0xDB;

pub const TFEND: u8 = 0xDC;

pub const TFESC: u8 = 0xDD;

pub const CMD_UNKNOWN: u8 = 0xFE;

pub const CMD_DATA: u8 = 0x00;

pub const CMD_TXDELAY: u8 = 0x01;

pub const CMD_P: u8 = 0x02;

pub const CMD_SLOTTIME: u8 = 0x03;

pub const CMD_TXTAIL: u8 = 0x04;

pub const CMD_FULLDUPLEX: u8 = 0x05;

pub const CMD_SETHARDWARE: u8 = 0x06;

pub const CMD_READY: u8 = 0x0F;

pub const CMD_RETURN: u8 = 0xFF;

/// The longest payload of a frame.
pub const HW_MTU: usize = 564;

/// Length that a beacon is padded to.
pub const BEACON_MIN_LEN: usize = 15;

/// Wait before a port is opened again, in nanoseconds.
pub const RECONNECT_WAIT: u64 = 5_000_000_000;

/// Wait between opening a port and configuring the terminal, in nanoseconds.
pub const SETTLE_WAIT: u64 = 2_000_000_000;

/// The smaller of a value and the largest byte.
pub open spec fn clamped(value: u32) -> u8 {
    if value > 255 {
        255
    } else {
        value as u8
    }
}

fn clamp(value: u32) -> (r: u8)
    ensures
        r == clamped(value),
{
    if value > 255 {
        255
    } else {
        value as u8
    }
}

/// A configuration command.
pub open spec fn command(code: u8, value: u8) -> Seq<u8> {
    seq![FEND, code, value, FEND]
}

fn kiss_command(code: u8, value: u8) -> (r: Vec<u8>)
    ensures
        r@ == command(code, value),
{
    let mut r: Vec<u8> = Vec::new();
    r.push(FEND);
    r.push(code);
    r.push(value);
    r.push(FEND);
    assert(r@ =~= command(code, value));
    r
}

/// The command for a preamble of so many milliseconds.
pub fn set_preamble(preamble_ms: u32) -> (r: Vec<u8>)
    ensures
        r@ == command(CMD_TXDELAY, clamped(preamble_ms / 10)),
{
    kiss_command(CMD_TXDELAY, clamp(preamble_ms / 10))
}

/// The command for a transmission tail of so many milliseconds.
pub fn set_txtail(txtail_ms: u32) -> (r: Vec<u8>)
    ensures
        r@ == command(CMD_TXTAIL, clamped(txtail_ms / 10)),
{
    kiss_command(CMD_TXTAIL, clamp(txtail_ms / 10))
}

/// The command for a persistence.
pub fn set_persistence(persistence: u32) -> (r: Vec<u8>)
    ensures
        r@ == command(CMD_P, clamped(persistence)),
{
    kiss_command(CMD_P, clamp(persistence))
}

/// The command for a slot time of so many milliseconds.
pub fn set_slottime(slottime_ms: u32) -> (r: Vec<u8>)
    ensures
        r@ == command(CMD_SLOTTIME, clamped(slottime_ms / 10)),
{
    kiss_command(CMD_SLOTTIME, clamp(slottime_ms / 10))
}

/// The command that switches flow control.
pub fn set_flow_control(enabled: bool) -> (r: Vec<u8>)
    ensures
        r@ == command(
            CMD_READY,
            if enabled {
                1
            } else {
                0
            },
        ),
{
    let value: u8 = if enabled {
        1
    } else {
        0
    };
    kiss_command(CMD_READY, value)
}

/// Channel access parameters of a terminal: times in milliseconds, and the persistence.
#[derive(Debug, Clone, Copy, PartialEq, Eq, Structural)]
pub struct CsmaParams {
    pub preamble: u32,
    pub txtail: u32,
    pub persistence: u32,
    pub slottime: u32,
}

impl Default for CsmaParams {
    fn default() -> (r: Self)
        ensures
            r == (CsmaParams { preamble: 350, txtail: 20, persistence: 64, slottime: 20 }),
    {
        CsmaParams { preamble: 350, txtail: 20, persistence: 64, slottime: 20 }
    }
}

impl CsmaParams {
    pub fn new(preamble: u32, txtail: u32, persistence: u32, slottime: u32) -> (r: Self)
        ensures
            r == (CsmaParams { preamble, txtail, persistence, slottime }),
    {
        CsmaParams { preamble, txtail, persistence, slottime }
    }

    /// The commands that configure a terminal, in the order in which they are sent.
    pub open spec fn command_views(&self) -> Seq<Seq<u8>> {
        seq![
            command(CMD_TXDELAY, clamped(self.preamble / 10)),
            command(CMD_TXTAIL, clamped(self.txtail / 10)),
            command(CMD_P, clamped(self.persistence)),
            command(CMD_SLOTTIME, clamped(self.slottime / 10)),
            command(CMD_READY, 1),
        ]
    }

    /// The commands that configure a terminal.
    pub fn commands(&self) -> (r: Vec<Vec<u8>>)
        ensures
            r@.map_values(|c: Vec<u8>| c@) == self.command_views(),
    {
        let mut r: Vec<Vec<u8>> = Vec::new();
        r.push(set_preamble(self.preamble));
        r.push(set_txtail(self.txtail));
        r.push(set_persistence(self.persistence));
        r.push(set_slottime(self.slottime));
        r.push(set_flow_control(true));
        assert(r@.map_values(|c: Vec<u8>| c@) =~= self.command_views());
        r
    }
}

/// A byte as it travels inside a frame.
pub open spec fn escaped_byte(b: u8) -> Seq<u8> {
    if b == FESC {
        seq![FESC, TFESC]
    } else if b == FEND {
        seq![FESC, TFEND]
    } else {
        seq![b]
    }
}

/// A payload as it travels inside a frame.
pub open spec fn escaped(data: Seq<u8>) -> Seq<u8>
    decreases data.len(),
{
    if data.len() == 0 {
        Seq::empty()
    } else {
        escaped(data.drop_last()) + escaped_byte(data.last())
    }
}

/// The data frame of a payload.
pub open spec fn framed(data: Seq<u8>) -> Seq<u8> {
    seq![FEND, CMD_DATA] + escaped(data) + seq![FEND]
}

/// Escapes a payload.
pub fn escape(data: &[u8]) -> (r: Vec<u8>)
    ensures
        r@ == escaped(data@),
{
    let mut r: Vec<u8> = Vec::new();
    let mut i: usize = 0;
    assert(data@.take(0) =~= Seq::<u8>::empty());
    while i < data.len()
        invariant
            i <= data@.len(),
            r@ == escaped(data@.take(i as int)),
        decreases data@.len() - i,
    {
        let byte: u8 = data[i];
        assert(data@.take(i + 1).drop_last() =~= data@.take(i as int));
        if byte == FESC {
            r.push(FESC);
            r.push(TFESC);
        } else if byte == FEND {
            r.push(FESC);
            r.push(TFEND);
        } else {
            r.push(byte);
        }
        i += 1;
        assert(r@ =~= escaped(data@.take(i as int)));
    }
    assert(data@.take(i as int) =~= data@);
    r
}

/// The data frame of a payload.
pub fn encode_frame(data: &[u8]) -> (r: Vec<u8>)
    ensures
        r@ == framed(data@),
{
    let mut r: Vec<u8> = Vec::new();
    r.push(FEND);
    r.push(CMD_DATA);
    bytes::append(&mut r, &escape(data));
    r.push(FEND);
    assert(r@ =~= framed(data@));
    r
}

/// What a decoder reports.
#[derive(Debug, PartialEq, Eq)]
pub enum KissEvent {
    /// A complete data frame, unescaped.
    Data(Vec<u8>),
    /// The terminal is ready for the next frame.
    Ready,
}

/// What a decoder reports, as a mathematical value.
pub enum EventView {
    Data(Seq<u8>),
    Ready,
}

impl View for KissEvent {
    type V = EventView;

    open spec fn view(&self) -> EventView {
        match self {
            KissEvent::Data(frame) => EventView::Data(frame@),
            KissEvent::Ready => EventView::Ready,
        }
    }
}

/// Events as mathematical values.
pub open spec fn event_views(events: Seq<KissEvent>) -> Seq<EventView> {
    events.map_values(|e: KissEvent| e@)
}

/// The state of a decoder between two bytes.
#[verifier::ext_equal]
pub struct DecoderView {
    pub frame: Seq<u8>,
    pub in_frame: bool,
    pub escape: bool,
    pub command: u8,
    pub mtu: nat,
}

/// The byte that an escaped byte stands for.
pub open spec fn unescaped(b: u8) -> u8 {
    if b == TFEND {
        FEND
    } else if b == TFESC {
        FESC
    } else {
        b
    }
}

/// The state of a decoder after one more byte.
pub open spec fn after_byte(d: DecoderView, b: u8) -> DecoderView {
    if b == FEND {
        DecoderView {
            frame: Seq::empty(),
            in_frame: !(d.in_frame && d.command == CMD_DATA),
            escape: false,
            command: CMD_UNKNOWN,
            ..d
        }
    } else if d.in_frame && d.frame.len() < d.mtu {
        if d.frame.len() == 0 && d.command == CMD_UNKNOWN {
            DecoderView { command: b & 0x0F, ..d }
        } else if d.command == CMD_DATA {
            if b == FESC {
                DecoderView { escape: true, ..d }
            } else if d.escape {
                DecoderView { frame: d.frame.push(unescaped(b)), escape: false, ..d }
            } else {
                DecoderView { frame: d.frame.push(b), ..d }
            }
        } else if d.command == CMD_READY {
            DecoderView { command: CMD_RETURN, ..d }
        } else {
            d
        }
    } else {
        d
    }
}

/// What one more byte makes a decoder report.
pub open spec fn events_of_byte(d: DecoderView, b: u8) -> Seq<EventView> {
    if b == FEND {
        if d.in_frame && d.command == CMD_DATA {
            seq![EventView::Data(d.frame)]
        } else {
            Seq::empty()
        }
    } else if d.in_frame && d.frame.len() < d.mtu && d.command == CMD_READY {
        seq![EventView::Ready]
    } else {
        Seq::empty()
    }
}

/// The state of a decoder after more bytes.
pub open spec fn after_bytes(d: DecoderView, data: Seq<u8>) -> DecoderView
    decreases data.len(),
{
    if data.len() == 0 {
        d
    } else {
        after_byte(after_bytes(d, data.drop_last()), data.last())
    }
}

/// What more bytes make a decoder report.
pub open spec fn events_of(d: DecoderView, data: Seq<u8>) -> Seq<EventView>
    decreases data.len(),
{
    if data.len() == 0 {
        Seq::empty()
    } else {
        events_of(d, data.drop_last()) + events_of_byte(
            after_bytes(d, data.drop_last()),
            data.last(),
        )
    }
}

/// The state of a decoder outside of any frame.
pub open spec fn idle_decoder(mtu: nat) -> DecoderView {
    DecoderView { frame: Seq::empty(), in_frame: false, escape: false, command: CMD_UNKNOWN, mtu }
}

/// Decodes frames from a byte stream.
///
/// A frame end starts a frame and the next one ends it. The first byte of a frame is its command;
/// its upper half, the port, is dropped. Only data frames carry a payload, cut off at the limit.
/// A ready frame is reported at its value byte, and the rest of it is ignored. Other commands are
/// ignored.
#[derive(Debug)]
pub struct KissDecoder {
    frame: Vec<u8>,
    in_frame: bool,
    escape: bool,
    command: u8,
    mtu: usize,
}

impl View for KissDecoder {
    type V = DecoderView;

    closed spec fn view(&self) -> DecoderView {
        DecoderView {
            frame: self.frame@,
            in_frame: self.in_frame,
            escape: self.escape,
            command: self.command,
            mtu: self.mtu as nat,
        }
    }
}

impl KissDecoder {
    /// A decoder outside of any frame, for payloads of at most `mtu` bytes.
    pub fn new(mtu: usize) -> (r: Self)
        ensures
            r@ == idle_decoder(mtu as nat),
    {
        KissDecoder {
            frame: Vec::new(),
            in_frame: false,
            escape: false,
            command: CMD_UNKNOWN,
            mtu,
        }
    }

    /// Takes one byte in. Returns what it completes.
    fn feed_byte(&mut self, byte: u8) -> (r: Option<KissEvent>)
        ensures
            final(self)@ == after_byte(old(self)@, byte),
            match r {
                Some(event) => events_of_byte(old(self)@, byte) == seq![event@],
                None => events_of_byte(old(self)@, byte) == Seq::<EventView>::empty(),
            },
    {
        if byte == FEND {
            let complete: bool = self.in_frame && self.command == CMD_DATA;
            let mut frame: Vec<u8> = Vec::new();
            std::mem::swap(&mut frame, &mut self.frame);
            self.in_frame = !complete;
            self.command = CMD_UNKNOWN;
            self.escape = false;
            if complete {
                return Some(KissEvent::Data(frame));
            }
        } else if self.in_frame && self.frame.len() < self.mtu {
            if self.frame.len() == 0 && self.command == CMD_UNKNOWN {
                self.command = byte & 0x0F;
            } else if self.command == CMD_DATA {
                if byte == FESC {
                    self.escape = true;
                } else {
                    let mut byte: u8 = byte;
                    if self.escape {
                        if byte == TFEND {
                            byte = FEND;
                        } else if byte == TFESC {
                            byte = FESC;
                        }
                        self.escape = false;
                    }
                    self.frame.push(byte);
                }
            } else if self.command == CMD_READY {
                self.command = CMD_RETURN;
                return Some(KissEvent::Ready);
            }
        }
        None
    }

    /// Takes stream bytes in. Returns what they complete, in order.
    pub fn feed(&mut self, data: &[u8]) -> (events: Vec<KissEvent>)
        ensures
            final(self)@ == after_bytes(old(self)@, data@),
            event_views(events@) == events_of(old(self)@, data@),
    {
        let mut events: Vec<KissEvent> = Vec::new();
        let mut i: usize = 0;
        let ghost d = self@;
        assert(data@.take(0) =~= Seq::<u8>::empty());
        assert(event_views(events@) =~= Seq::<EventView>::empty());
        while i < data.len()
            invariant
                i <= data@.len(),
                d == old(self)@,
                self@ == after_bytes(d, data@.take(i as int)),
                event_views(events@) == events_of(d, data@.take(i as int)),
            decreases data@.len() - i,
        {
            let ghost before = event_views(events@);
            proof {
                assert(data@.take(i + 1).drop_last() =~= data@.take(i as int));
            }
            match self.feed_byte(data[i]) {
                Some(event) => {
                    let ghost view = event@;
                    events.push(event);
                    assert(event_views(events@) =~= before + seq![view]);
                },
                None => {
                    assert(before + Seq::<EventView>::empty() =~= before);
                },
            }
            i += 1;
        }
        assert(data@.take(i as int) =~= data@);
        events
    }
}

/// Taking bytes in one go or in two is the same: how a stream is cut into pieces does not matter.
pub proof fn feeding_in_pieces(d: DecoderView, a: Seq<u8>, b: Seq<u8>)
    ensures
        after_bytes(d, a + b) == after_bytes(after_bytes(d, a), b),
        events_of(d, a + b) == events_of(d, a) + events_of(after_bytes(d, a), b),
    decreases b.len(),
{
    if b.len() == 0 {
        assert(a + b =~= a);
        assert(events_of(d, a) + events_of(after_bytes(d, a), b) =~= events_of(d, a));
    } else {
        assert((a + b).drop_last() =~= a + b.drop_last());
        feeding_in_pieces(d, a, b.drop_last());
        assert(events_of(d, a + b) =~= events_of(d, a) + events_of(after_bytes(d, a), b));
    }
}

/// The first bytes of a payload that a frame limit lets through.
pub open spec fn cut(data: Seq<u8>, mtu: nat) -> Seq<u8> {
    if data.len() <= mtu {
        data
    } else {
        data.take(mtu as int)
    }
}

/// An escaped payload inside a data frame fills the frame with the payload, up to the limit.
proof fn escaped_fills_frame(d: DecoderView, data: Seq<u8>)
    requires
        d.in_frame,
        !d.escape,
        d.command == CMD_DATA,
        d.frame.len() == 0,
    ensures
        after_bytes(d, escaped(data)) == (DecoderView { frame: cut(data, d.mtu), ..d }),
        events_of(d, escaped(data)) == Seq::<EventView>::empty(),
    decreases data.len(),
{
    if data.len() == 0 {
        assert(cut(data, d.mtu) =~= d.frame);
    } else {
        let head = data.drop_last();
        let b = data.last();
        escaped_fills_frame(d, head);
        feeding_in_pieces(d, escaped(head), escaped_byte(b));
        let mid = after_bytes(d, escaped(head));
        let e = escaped_byte(b);
        reveal_with_fuel(after_bytes, 3);
        reveal_with_fuel(events_of, 3);
        if e.len() == 2 {
            assert(e.drop_last() =~= seq![e[0]]);
            assert(e.drop_last().drop_last() =~= Seq::<u8>::empty());
        } else {
            assert(e.drop_last() =~= Seq::<u8>::empty());
        }
        if head.len() < d.mtu {
            assert(cut(data, d.mtu) =~= head.push(b));
        } else {
            assert(cut(data, d.mtu) =~= cut(head, d.mtu));
        }
        assert(events_of(mid, e) =~= Seq::<EventView>::empty());
        assert(events_of(d, escaped(data)) =~= Seq::<EventView>::empty());
    }
}

/// A decoder that is not inside a data frame and takes in the frame of a payload delivers the
/// payload, cut at its limit, and is outside of any frame again.
pub proof fn frame_round_trip(d: DecoderView, data: Seq<u8>)
    requires
        !(d.in_frame && d.command == CMD_DATA),
        d.mtu > 0,
    ensures
        events_of(d, framed(data)) == seq![EventView::Data(cut(data, d.mtu))],
        after_bytes(d, framed(data)) == idle_decoder(d.mtu),
{
    let start = seq![FEND, CMD_DATA];
    let end = seq![FEND];
    let opened = DecoderView {
        frame: Seq::empty(),
        in_frame: true,
        escape: false,
        command: CMD_DATA,
        mtu: d.mtu,
    };
    assert(0u8 & 0x0F == 0) by (bit_vector);
    reveal_with_fuel(after_bytes, 3);
    reveal_with_fuel(events_of, 3);
    assert(start.drop_last() =~= seq![FEND]);
    assert(start.drop_last().drop_last() =~= Seq::<u8>::empty());
    assert(end.drop_last() =~= Seq::<u8>::empty());
    assert(after_bytes(d, start) =~= opened);
    assert(events_of(d, start) =~= Seq::<EventView>::empty());
    escaped_fills_frame(opened, data);
    feeding_in_pieces(d, start, escaped(data));
    feeding_in_pieces(d, start + escaped(data), end);
    let full = DecoderView { frame: cut(data, d.mtu), ..opened };
    assert(after_bytes(d, start + escaped(data)) == full);
    assert(events_of(full, end) =~= seq![EventView::Data(cut(data, d.mtu))]);
    assert(events_of(d, framed(data)) =~= seq![EventView::Data(cut(data, d.mtu))]);
}

/// An escaped payload holds no frame end.
pub proof fn escaped_has_no_frame_end(data: Seq<u8>, i: int)
    requires
        0 <= i < escaped(data).len(),
    ensures
        escaped(data)[i] != FEND,
    decreases data.len(),
{
    if data.len() > 0 {
        let head = escaped(data.drop_last());
        if i < head.len() {
            escaped_has_no_frame_end(data.drop_last(), i);
        }
    }
}

/// Configuration of a serial port.
#[derive(Debug, PartialEq, Eq)]
pub struct SerialPortConfig {
    pub port: String,
    pub speed: u32,
    pub databits: u8,
    pub parity: String,
    pub stopbits: u8,
}

impl Clone for SerialPortConfig {
    fn clone(&self) -> (r: Self)
        ensures
            r.port@ == self.port@,
            r.speed == self.speed,
            r.databits == self.databits,
            r.parity@ == self.parity@,
            r.stopbits == self.stopbits,
    {
        SerialPortConfig {
            port: self.port.clone(),
            speed: self.speed,
            databits: self.databits,
            parity: self.parity.clone(),
            stopbits: self.stopbits,
        }
    }
}

impl SerialPortConfig {
    /// A port with eight data bits, no parity and one stop bit.
    pub fn new(port: &str, speed: u32) -> (r: Self)
        ensures
            r.port@ == port@,
            r.speed == speed,
            r.databits == 8,
            r.parity@ == "N"@,
            r.stopbits == 1,
    {
        SerialPortConfig {
            port: port.to_owned(),
            speed,
            databits: 8,
            parity: "N".to_owned(),
            stopbits: 1,
        }
    }

    /// The same port with another character format.
    pub fn with_format(self, databits: u8, parity: &str, stopbits: u8) -> (r: Self)
        ensures
            r.port@ == self.port@,
            r.speed == self.speed,
            r.databits == databits,
            r.parity@ == parity@,
            r.stopbits == stopbits,
    {
        SerialPortConfig { databits, parity: parity.to_owned(), stopbits, ..self }
    }
}

/// Framing of an interface: plain, or with AX.25 headers from the given source.
#[derive(Debug, PartialEq, Eq)]
pub enum KissMode {
    Kiss,
    Ax25 { callsign: String, ssid: u8 },
}

/// Framing of an interface, as a mathematical value.
#[verifier::ext_equal]
pub enum ModeView {
    Kiss,
    Ax25 { callsign: Seq<char>, ssid: u8 },
}

impl View for KissMode {
    type V = ModeView;

    open spec fn view(&self) -> ModeView {
        match self {
            KissMode::Kiss => ModeView::Kiss,
            KissMode::Ax25 { callsign, ssid } => ModeView::Ax25 { callsign: callsign@, ssid: *ssid },
        }
    }
}

impl Clone for KissMode {
    fn clone(&self) -> (r: Self)
        ensures
            r@ == self@,
    {
        match self {
            KissMode::Kiss => KissMode::Kiss,
            KissMode::Ax25 { callsign, ssid } => KissMode::Ax25 {
                callsign: callsign.clone(),
                ssid: *ssid,
            },
        }
    }
}

/// The frame of a packet.
pub open spec fn encoded(mode: ModeView, data: Seq<u8>) -> Seq<u8> {
    match mode {
        ModeView::Kiss => framed(data),
        ModeView::Ax25 { callsign, ssid } => framed(
            ax25::packed_frame(
                data,
                vstd::utf8::encode_utf8(callsign),
                ssid,
                ax25::default_destination(),
                ax25::DEFAULT_DESTINATION_SSID,
            ),
        ),
    }
}

/// The packet in the payload of a frame.
pub open spec fn packet_in(mode: ModeView, frame: Seq<u8>) -> Option<Seq<u8>> {
    match mode {
        ModeView::Kiss => Some(frame),
        ModeView::Ax25 { .. } => if frame.len() > ax25::HEADER_SIZE {
            Some(frame.skip(ax25::HEADER_SIZE as int))
        } else {
            None
        },
    }
}

/// The longest payload of a frame.
pub open spec fn frame_limit(mode: ModeView) -> nat {
    match mode {
        ModeView::Kiss => HW_MTU as nat,
        ModeView::Ax25 { .. } => (HW_MTU + ax25::HEADER_SIZE) as nat,
    }
}

impl KissMode {
    /// The frame of a packet.
    pub fn encode(&self, data: &[u8]) -> (r: Vec<u8>)
        ensures
            r@ == encoded(self@, data@),
    {
        match self {
            KissMode::Kiss => encode_frame(data),
            KissMode::Ax25 { callsign, ssid } => {
                let packed: Vec<u8> = ax25::pack_ax25_frame(data, callsign.as_str(), *ssid);
                encode_frame(&packed)
            },
        }
    }

    /// The packet in the payload of a frame.
    pub fn payload(&self, frame: &[u8]) -> (r: Option<Vec<u8>>)
        ensures
            match packet_in(self@, frame@) {
                Some(packet) => r is Some && r->0@ == packet,
                None => r is None,
            },
    {
        match self {
            KissMode::Kiss => Some(bytes::to_vec(frame)),
            KissMode::Ax25 { .. } => match ax25::strip_ax25_header(frame) {
                Some(payload) => Some(bytes::to_vec(payload)),
                None => None,
            },
        }
    }

    /// A decoder for the frames of this mode.
    pub fn decoder(&self) -> (r: KissDecoder)
        ensures
            r@ == idle_decoder(frame_limit(self@)),
    {
        match self {
            KissMode::Kiss => KissDecoder::new(HW_MTU),
            KissMode::Ax25 { .. } => KissDecoder::new(HW_MTU + ax25::HEADER_SIZE),
        }
    }

    /// The plain packet in the payload of a received frame; `None` when the frame carries no
    /// packet or the access code is wrong. The first component says whether the frame counts as
    /// received.
    pub fn receive(&self, frame: &[u8], key: Option<&IfacKey>) -> (r: (bool, Option<Vec<u8>>))
        requires
            key is Some ==> key->0.size <= ifac::SIGNATURE_SIZE && frame@.len()
                <= ifac::MAX_STREAM,
        ensures
            r.0 == (packet_in(self@, frame@) is Some),
            match packet_in(self@, frame@) {
                Some(packet) => match ifac::decoded_wire(packet, key) {
                    Some(plain) => r.1 is Some && r.1->0@ == plain,
                    None => r.1 is None,
                },
                None => r.1 is None,
            },
    {
        match self.payload(frame) {
            Some(packet) => (true, ifac::decode(&packet, key)),
            None => (false, None),
        }
    }
}

/// A packet short enough for the frames of its mode travels: what a decoder delivers for its frame
/// is the packet. (An AX.25 frame without data carries no packet.)
pub proof fn packet_round_trip(mode: ModeView, packet: Seq<u8>)
    requires
        packet.len() <= HW_MTU,
        mode is Ax25 ==> packet.len() > 0,
    ensures
        events_of(idle_decoder(frame_limit(mode)), encoded(mode, packet)).len() == 1,
        exists|frame: Seq<u8>|
            events_of(idle_decoder(frame_limit(mode)), encoded(mode, packet))[0]
                == EventView::Data(frame) && #[trigger] packet_in(mode, frame) == Some(packet),
{
    let d = idle_decoder(frame_limit(mode));
    match mode {
        ModeView::Kiss => {
            frame_round_trip(d, packet);
            assert(packet_in(mode, packet) == Some(packet));
        },
        ModeView::Ax25 { callsign, ssid } => {
            let source = vstd::utf8::encode_utf8(callsign);
            let packed = ax25::packed_frame(
                packet,
                source,
                ssid,
                ax25::default_destination(),
                ax25::DEFAULT_DESTINATION_SSID,
            );
            ax25::strip_inverts_pack(
                packet,
                source,
                ssid,
                ax25::default_destination(),
                ax25::DEFAULT_DESTINATION_SSID,
            );
            frame_round_trip(d, packed);
            assert(packet_in(mode, packed) == Some(packet));
        },
    }
}

/// An identification beacon: what is sent, and so many seconds after traffic began.
#[derive(Debug, PartialEq, Eq)]
pub struct KissBeacon {
    pub interval: u64,
    pub data: Vec<u8>,
}

impl Clone for KissBeacon {
    fn clone(&self) -> (r: Self)
        ensures
            r.interval == self.interval,
            r.data@ == self.data@,
    {
        KissBeacon { interval: self.interval, data: bytes::to_vec(&self.data) }
    }
}

} // verus!
