//! Parsing what radio modems send.

use vstd::prelude::*;

use crate::bytes;
use crate::iface::kiss;
use crate::iface::rnode;
use crate::iface::rnode::{
    RnodeEchoState, RnodeStatus, CMD_BANDWIDTH, CMD_CR, CMD_DATA, CMD_DETECT, CMD_ERROR,
    CMD_FREQUENCY, CMD_FW_VERSION, CMD_INT_DATA, CMD_LT_ALOCK, CMD_MCU, CMD_PLATFORM,
    CMD_RADIO_STATE, CMD_RANDOM, CMD_READY, CMD_SEL_INT, CMD_SF, CMD_STAT_RSSI, CMD_STAT_RX,
    CMD_STAT_SNR, CMD_STAT_TX, CMD_ST_ALOCK, CMD_TXPOWER, CMD_UNKNOWN, DETECT_RESP, FEND, FESC,
    MAX_PAYLOAD, RSSI_OFFSET, TFEND, TFESC,
};

verus! {

/// What a modem reports.
#[derive(Debug, PartialEq, Eq)]
pub enum RnodeEvent {
    /// A packet came in, on a virtual port where the modem has those.
    Data { vport: Option<u8>, data: Vec<u8> },
    /// A virtual port is selected.
    SelectedVport(u8),
    Detect,
    FirmwareVersion { major: u8, minor: u8 },
    Platform(u8),
    Mcu(u8),
    Ready(bool),
    Echo(RnodeEchoState),
    Status(RnodeStatus),
    Error(u8),
    /// Random bytes.
    Random(Vec<u8>),
}

/// What a modem reports, as a mathematical value.
#[verifier::ext_equal]
pub enum EventView {
    Data { vport: Option<u8>, data: Seq<u8> },
    SelectedVport(u8),
    Detect,
    FirmwareVersion { major: u8, minor: u8 },
    Platform(u8),
    Mcu(u8),
    Ready(bool),
    Echo(RnodeEchoState),
    Status(RnodeStatus),
    Error(u8),
    Random(Seq<u8>),
}

impl View for RnodeEvent {
    type V = EventView;

    open spec fn view(&self) -> EventView {
        match self {
            RnodeEvent::Data { vport, data } => EventView::Data { vport: *vport, data: data@ },
            RnodeEvent::SelectedVport(port) => EventView::SelectedVport(*port),
            RnodeEvent::Detect => EventView::Detect,
            RnodeEvent::FirmwareVersion { major, minor } => EventView::FirmwareVersion {
                major: *major,
                minor: *minor,
            },
            RnodeEvent::Platform(platform) => EventView::Platform(*platform),
            RnodeEvent::Mcu(mcu) => EventView::Mcu(*mcu),
            RnodeEvent::Ready(ready) => EventView::Ready(*ready),
            RnodeEvent::Echo(echo) => EventView::Echo(*echo),
            RnodeEvent::Status(status) => EventView::Status(*status),
            RnodeEvent::Error(code) => EventView::Error(*code),
            RnodeEvent::Random(data) => EventView::Random(data@),
        }
    }
}

/// Events as mathematical values.
pub open spec fn event_views(events: Seq<RnodeEvent>) -> Seq<EventView> {
    events.map_values(|e: RnodeEvent| e@)
}

/// The virtual port that a command belongs to, from port `from` on.
pub open spec fn port_from(command: u8, from: int) -> Option<u8>
    decreases 12 - from,
{
    if from < 0 || from >= 12 {
        None
    } else if CMD_INT_DATA@[from] == command {
        Some(from as u8)
    } else {
        port_from(command, from + 1)
    }
}

/// The port that packets with a command come in on, where it is a command of packets.
pub open spec fn port_of(multi: bool, command: u8) -> Option<u8> {
    if multi {
        port_from(command, 0)
    } else if command == CMD_DATA {
        Some(0)
    } else {
        None
    }
}

/// The first four bytes as a number.
pub open spec fn word(data: Seq<u8>) -> nat {
    bytes::be_value(data.subrange(0, 4))
}

/// The first two bytes as a number.
pub open spec fn half_word(data: Seq<u8>) -> nat {
    bytes::be_value(data.subrange(0, 2))
}

/// A byte as a signed number.
pub open spec fn signed(b: u8) -> i16 {
    if b < 128 {
        b as i16
    } else {
        (b - 256) as i16
    }
}

/// The settings that a frame reports.
pub open spec fn echo_of(command: u8, data: Seq<u8>) -> Option<RnodeEchoState> {
    let none = rnode::no_echo();
    if command == CMD_FREQUENCY && data.len() >= 4 {
        Some(RnodeEchoState { frequency: Some(word(data) as u64), ..none })
    } else if command == CMD_BANDWIDTH && data.len() >= 4 {
        Some(RnodeEchoState { bandwidth: Some(word(data) as u32), ..none })
    } else if command == CMD_TXPOWER && data.len() > 0 {
        Some(RnodeEchoState { txpower: Some(data[0]), ..none })
    } else if command == CMD_SF && data.len() > 0 {
        Some(RnodeEchoState { spreadingfactor: Some(data[0]), ..none })
    } else if command == CMD_CR && data.len() > 0 {
        Some(RnodeEchoState { codingrate: Some(data[0]), ..none })
    } else if command == CMD_RADIO_STATE && data.len() > 0 {
        Some(RnodeEchoState { radio_state: Some(data[0]), ..none })
    } else if command == CMD_ST_ALOCK && data.len() >= 2 {
        Some(RnodeEchoState { st_alock: Some(half_word(data) as u16), ..none })
    } else if command == CMD_LT_ALOCK && data.len() >= 2 {
        Some(RnodeEchoState { lt_alock: Some(half_word(data) as u16), ..none })
    } else {
        None
    }
}

/// The status that a frame reports.
pub open spec fn status_of(command: u8, data: Seq<u8>) -> Option<RnodeStatus> {
    let none = rnode::no_status();
    if command == CMD_STAT_RSSI && data.len() > 0 {
        Some(RnodeStatus { rssi: Some((data[0] - RSSI_OFFSET) as i16), ..none })
    } else if command == CMD_STAT_SNR && data.len() > 0 {
        Some(RnodeStatus { snr: Some(signed(data[0])), ..none })
    } else if command == CMD_STAT_RX && data.len() >= 4 {
        Some(RnodeStatus { stat_rx: Some(word(data) as u32), ..none })
    } else if command == CMD_STAT_TX && data.len() >= 4 {
        Some(RnodeStatus { stat_tx: Some(word(data) as u32), ..none })
    } else {
        None
    }
}

/// What a frame other than a packet or a port selection reports.
pub open spec fn report_of(command: u8, data: Seq<u8>) -> Option<EventView> {
    if echo_of(command, data) is Some {
        Some(EventView::Echo(echo_of(command, data)->0))
    } else if status_of(command, data) is Some {
        Some(EventView::Status(status_of(command, data)->0))
    } else if command == CMD_RANDOM {
        Some(EventView::Random(data))
    } else if data.len() == 0 {
        None
    } else if command == CMD_DETECT && data[0] == DETECT_RESP {
        Some(EventView::Detect)
    } else if command == CMD_FW_VERSION && data.len() >= 2 {
        Some(EventView::FirmwareVersion { major: data[0], minor: data[1] })
    } else if command == CMD_PLATFORM {
        Some(EventView::Platform(data[0]))
    } else if command == CMD_MCU {
        Some(EventView::Mcu(data[0]))
    } else if command == CMD_READY {
        Some(EventView::Ready(data[0] == 1))
    } else if command == CMD_ERROR {
        Some(EventView::Error(data[0]))
    } else {
        None
    }
}

/// What a frame reports.
#[verifier::opaque]
pub open spec fn event_of(multi: bool, command: u8, data: Seq<u8>) -> Option<EventView> {
    match port_of(multi, command) {
        Some(port) => if data.len() > 0 {
            Some(
                EventView::Data {
                    vport: if multi {
                        Some(port)
                    } else {
                        None
                    },
                    data,
                },
            )
        } else {
            None
        },
        None => if multi && command == CMD_SEL_INT && data.len() == 1 {
            Some(EventView::SelectedVport(data[0]))
        } else {
            report_of(command, data)
        },
    }
}

/// The state of a parser between two bytes.
#[verifier::ext_equal]
pub struct ParserView {
    pub in_frame: bool,
    pub escaped: bool,
    pub command: u8,
    pub data: Seq<u8>,
    pub multi: bool,
    pub selected: Option<u8>,
}

/// The byte that a byte stands for; `None` when it announces an escaped one.
pub open spec fn unescaped(escaped: bool, b: u8) -> Option<u8> {
    if escaped {
        Some(kiss::unescaped(b))
    } else if b == FESC {
        None
    } else {
        Some(b)
    }
}

/// The state of a parser after one more byte.
pub open spec fn after_byte(p: ParserView, b: u8) -> ParserView {
    if b == FEND {
        ParserView {
            in_frame: !p.in_frame,
            command: CMD_UNKNOWN,
            data: Seq::empty(),
            selected: if p.in_frame {
                match event_of(p.multi, p.command, p.data) {
                    Some(EventView::SelectedVport(port)) => Some(port),
                    _ => p.selected,
                }
            } else {
                p.selected
            },
            ..p
        }
    } else if !p.in_frame {
        p
    } else if p.command == CMD_UNKNOWN && p.data.len() == 0 {
        ParserView { command: b, ..p }
    } else {
        let opened = ParserView { escaped: !p.escaped && b == FESC, ..p };
        match unescaped(p.escaped, b) {
            Some(b) if p.data.len() < MAX_PAYLOAD => ParserView { data: p.data.push(b), ..opened },
            _ => opened,
        }
    }
}

/// What one more byte makes a parser report.
pub open spec fn events_of_byte(p: ParserView, b: u8) -> Seq<EventView> {
    if b == FEND && p.in_frame {
        match event_of(p.multi, p.command, p.data) {
            Some(event) => seq![event],
            None => Seq::empty(),
        }
    } else {
        Seq::empty()
    }
}

/// The state of a parser after more bytes.
pub open spec fn after_bytes(p: ParserView, data: Seq<u8>) -> ParserView
    decreases data.len(),
{
    if data.len() == 0 {
        p
    } else {
        after_byte(after_bytes(p, data.drop_last()), data.last())
    }
}

/// What more bytes make a parser report.
pub open spec fn events_of(p: ParserView, data: Seq<u8>) -> Seq<EventView>
    decreases data.len(),
{
    if data.len() == 0 {
        Seq::empty()
    } else {
        events_of(p, data.drop_last()) + events_of_byte(
            after_bytes(p, data.drop_last()),
            data.last(),
        )
    }
}

/// The state of a new parser.
pub open spec fn new_parser(multi: bool) -> ParserView {
    ParserView {
        in_frame: false,
        escaped: false,
        command: CMD_DATA,
        data: Seq::empty(),
        multi,
        selected: None,
    }
}

/// Parses what a modem sends.
///
/// A frame end starts a frame and the next one ends it. The first byte of a frame is its command,
/// the rest its escaped payload, of which at most 2048 bytes are kept.
#[derive(Debug)]
pub struct RnodeParser {
    in_frame: bool,
    escaped: bool,
    command: u8,
    data_buffer: Vec<u8>,
    multi: bool,
    selected_vport: Option<u8>,
}

impl View for RnodeParser {
    type V = ParserView;

    closed spec fn view(&self) -> ParserView {
        ParserView {
            in_frame: self.in_frame,
            escaped: self.escaped,
            command: self.command,
            data: self.data_buffer@,
            multi: self.multi,
            selected: self.selected_vport,
        }
    }
}

/// The first four bytes as a number.
fn read_word(data: &[u8]) -> (r: u32)
    requires
        data@.len() >= 4,
    ensures
        r == word(data@),
{
    proof {
        bytes::be_value_bound(data@.subrange(0, 4));
        reveal_with_fuel(bytes::byte_span, 5);
    }
    bytes::be_number(&data[0..4]) as u32
}

/// The first two bytes as a number.
fn read_half_word(data: &[u8]) -> (r: u16)
    requires
        data@.len() >= 2,
    ensures
        r == half_word(data@),
{
    proof {
        bytes::be_value_bound(data@.subrange(0, 2));
        reveal_with_fuel(bytes::byte_span, 3);
    }
    bytes::be_number(&data[0..2]) as u16
}

/// The settings that a frame reports.
fn parse_echo(command: u8, data: &[u8]) -> (r: Option<RnodeEchoState>)
    ensures
        r == echo_of(command, data@),
{
    let mut echo: RnodeEchoState = RnodeEchoState::default();
    if command == CMD_FREQUENCY && data.len() >= 4 {
        echo.frequency = Some(read_word(data) as u64);
    } else if command == CMD_BANDWIDTH && data.len() >= 4 {
        echo.bandwidth = Some(read_word(data));
    } else if command == CMD_TXPOWER && data.len() > 0 {
        echo.txpower = Some(data[0]);
    } else if command == CMD_SF && data.len() > 0 {
        echo.spreadingfactor = Some(data[0]);
    } else if command == CMD_CR && data.len() > 0 {
        echo.codingrate = Some(data[0]);
    } else if command == CMD_RADIO_STATE && data.len() > 0 {
        echo.radio_state = Some(data[0]);
    } else if command == CMD_ST_ALOCK && data.len() >= 2 {
        echo.st_alock = Some(read_half_word(data));
    } else if command == CMD_LT_ALOCK && data.len() >= 2 {
        echo.lt_alock = Some(read_half_word(data));
    } else {
        return None;
    }
    Some(echo)
}

/// The status that a frame reports.
fn parse_status(command: u8, data: &[u8]) -> (r: Option<RnodeStatus>)
    ensures
        r == status_of(command, data@),
{
    let mut status: RnodeStatus = RnodeStatus::default();
    if command == CMD_STAT_RSSI && data.len() > 0 {
        status.rssi = Some(data[0] as i16 - RSSI_OFFSET);
    } else if command == CMD_STAT_SNR && data.len() > 0 {
        let snr: i16 = if data[0] < 128 {
            data[0] as i16
        } else {
            data[0] as i16 - 256
        };
        status.snr = Some(snr);
    } else if command == CMD_STAT_RX && data.len() >= 4 {
        status.stat_rx = Some(read_word(data));
    } else if command == CMD_STAT_TX && data.len() >= 4 {
        status.stat_tx = Some(read_word(data));
    } else {
        return None;
    }
    Some(status)
}

/// An optional event, as a mathematical value.
pub open spec fn event_view(event: Option<RnodeEvent>) -> Option<EventView> {
    match event {
        Some(event) => Some(event@),
        None => None,
    }
}

/// What a frame other than a packet or a port selection reports.
fn parse_report(command: u8, data: Vec<u8>) -> (r: Option<RnodeEvent>)
    ensures
        event_view(r) == report_of(command, data@),
{
    match parse_echo(command, &data) {
        Some(echo) => return Some(RnodeEvent::Echo(echo)),
        None => {},
    }
    match parse_status(command, &data) {
        Some(status) => return Some(RnodeEvent::Status(status)),
        None => {},
    }
    if command == CMD_RANDOM {
        return Some(RnodeEvent::Random(data));
    }
    if data.len() == 0 {
        return None;
    }
    if command == CMD_DETECT && data[0] == DETECT_RESP {
        Some(RnodeEvent::Detect)
    } else if command == CMD_FW_VERSION && data.len() >= 2 {
        Some(RnodeEvent::FirmwareVersion { major: data[0], minor: data[1] })
    } else if command == CMD_PLATFORM {
        Some(RnodeEvent::Platform(data[0]))
    } else if command == CMD_MCU {
        Some(RnodeEvent::Mcu(data[0]))
    } else if command == CMD_READY {
        Some(RnodeEvent::Ready(data[0] == 1))
    } else if command == CMD_ERROR {
        Some(RnodeEvent::Error(data[0]))
    } else {
        None
    }
}

impl RnodeParser {
    /// A parser outside of any frame, for a modem with virtual ports or without.
    pub fn new(multi: bool) -> (r: Self)
        ensures
            r@ == new_parser(multi),
    {
        RnodeParser {
            in_frame: false,
            escaped: false,
            command: CMD_DATA,
            data_buffer: Vec::new(),
            multi,
            selected_vport: None,
        }
    }

    /// The port that packets with a command come in on.
    fn vport_of(&self, command: u8) -> (r: Option<u8>)
        ensures
            r == port_of(self@.multi, command),
    {
        if self.multi {
            let mut i: usize = 0;
            while i < 12
                invariant
                    i <= 12,
                    self@.multi,
                    port_from(command, 0) == port_from(command, i as int),
                decreases 12 - i,
            {
                if CMD_INT_DATA[i] == command {
                    return Some(i as u8);
                }
                i += 1;
            }
            None
        } else if command == CMD_DATA {
            Some(0)
        } else {
            None
        }
    }

    /// Ends a frame. Returns what it reports.
    fn emit(&mut self) -> (r: Option<RnodeEvent>)
        ensures
            event_view(r) == event_of(old(self)@.multi, old(self)@.command, old(self)@.data),
            final(self)@ == (ParserView {
                data: Seq::empty(),
                selected: match event_view(r) {
                    Some(EventView::SelectedVport(port)) => Some(port),
                    _ => old(self)@.selected,
                },
                ..old(self)@
            }),
    {
        proof {
            reveal(event_of);
        }
        let command: u8 = self.command;
        let mut data: Vec<u8> = Vec::new();
        std::mem::swap(&mut data, &mut self.data_buffer);
        assert(self.data_buffer@ =~= Seq::<u8>::empty());
        match self.vport_of(command) {
            Some(port) => {
                if data.len() == 0 {
                    return None;
                }
                let vport: Option<u8> = if self.multi {
                    Some(port)
                } else {
                    None
                };
                Some(RnodeEvent::Data { vport, data })
            },
            None => {
                if self.multi && command == CMD_SEL_INT && data.len() == 1 {
                    self.selected_vport = Some(data[0]);
                    Some(RnodeEvent::SelectedVport(data[0]))
                } else {
                    parse_report(command, data)
                }
            },
        }
    }

    /// Takes one byte in. Returns what it completes.
    fn feed_byte(&mut self, byte: u8) -> (r: Option<RnodeEvent>)
        ensures
            final(self)@ == after_byte(old(self)@, byte),
            match r {
                Some(event) => events_of_byte(old(self)@, byte) == seq![event@],
                None => events_of_byte(old(self)@, byte) == Seq::<EventView>::empty(),
            },
    {
        if byte == FEND {
            if self.in_frame {
                let event: Option<RnodeEvent> = self.emit();
                self.in_frame = false;
                self.command = CMD_UNKNOWN;
                return event;
            }
            self.in_frame = true;
            self.command = CMD_UNKNOWN;
            self.data_buffer.clear();
            return None;
        }
        if !self.in_frame {
            return None;
        }
        if self.command == CMD_UNKNOWN && self.data_buffer.len() == 0 {
            self.command = byte;
            return None;
        }
        let mut byte: u8 = byte;
        if self.escaped {
            self.escaped = false;
            if byte == TFEND {
                byte = FEND;
            } else if byte == TFESC {
                byte = FESC;
            }
        } else if byte == FESC {
            self.escaped = true;
            return None;
        }
        if self.data_buffer.len() < MAX_PAYLOAD {
            self.data_buffer.push(byte);
        }
        None
    }

    /// Takes bytes in. Returns what they report, in order.
    pub fn feed(&mut self, data: &[u8]) -> (events: Vec<RnodeEvent>)
        ensures
            final(self)@ == after_bytes(old(self)@, data@),
            event_views(events@) == events_of(old(self)@, data@),
    {
        let mut events: Vec<RnodeEvent> = Vec::new();
        let mut i: usize = 0;
        let ghost p = self@;
        assert(data@.take(0) =~= Seq::<u8>::empty());
        assert(event_views(events@) =~= Seq::<EventView>::empty());
        while i < data.len()
            invariant
                i <= data@.len(),
                p == old(self)@,
                self@ == after_bytes(p, data@.take(i as int)),
                event_views(events@) == events_of(p, data@.take(i as int)),
            decreases data@.len() - i,
        {
            let ghost before = event_views(events@);
            proof {
                assert(data@.take(i + 1).drop_last() =~= data@.take(i as int));
            }
            match self.feed_byte(data[i]) {
                Some(event) => {
                    let ghost view = event@;
                    events.push(event);
                    assert(event_views(events@) =~= before + seq![view]);
                },
                None => {
                    assert(before + Seq::<EventView>::empty() =~= before);
                },
            }
            i += 1;
        }
        assert(data@.take(i as int) =~= data@);
        events
    }
}

/// Taking bytes in one go or in two is the same.
pub proof fn feeding_in_pieces(p: ParserView, a: Seq<u8>, b: Seq<u8>)
    ensures
        after_bytes(p, a + b) == after_bytes(after_bytes(p, a), b),
        events_of(p, a + b) == events_of(p, a) + events_of(after_bytes(p, a), b),
    decreases b.len(),
{
    if b.len() == 0 {
        assert(a + b =~= a);
        assert(events_of(p, a) + events_of(after_bytes(p, a), b) =~= events_of(p, a));
    } else {
        assert((a + b).drop_last() =~= a + b.drop_last());
        feeding_in_pieces(p, a, b.drop_last());
        assert(events_of(p, a + b) =~= events_of(p, a) + events_of(after_bytes(p, a), b));
    }
}

/// The first bytes of a payload that are kept.
pub open spec fn kept(data: Seq<u8>) -> Seq<u8> {
    if data.len() <= MAX_PAYLOAD {
        data
    } else {
        data.take(MAX_PAYLOAD as int)
    }
}

/// An escaped payload inside a frame fills the frame with the payload.
proof fn escaped_fills_frame(p: ParserView, data: Seq<u8>)
    requires
        p.in_frame,
        !p.escaped,
        p.command != CMD_UNKNOWN,
        p.data.len() == 0,
    ensures
        after_bytes(p, kiss::escaped(data)) == (ParserView { data: kept(data), ..p }),
        events_of(p, kiss::escaped(data)) == Seq::<EventView>::empty(),
    decreases data.len(),
{
    if data.len() == 0 {
        assert(kept(data) =~= p.data);
    } else {
        let head = data.drop_last();
        let b = data.last();
        escaped_fills_frame(p, head);
        feeding_in_pieces(p, kiss::escaped(head), kiss::escaped_byte(b));
        let mid = after_bytes(p, kiss::escaped(head));
        let e = kiss::escaped_byte(b);
        reveal_with_fuel(after_bytes, 3);
        reveal_with_fuel(events_of, 3);
        if e.len() == 2 {
            assert(e.drop_last() =~= seq![e[0]]);
            assert(e.drop_last().drop_last() =~= Seq::<u8>::empty());
        } else {
            assert(e.drop_last() =~= Seq::<u8>::empty());
        }
        if head.len() < MAX_PAYLOAD {
            assert(kept(data) =~= head.push(b));
        } else {
            assert(kept(data) =~= kept(head));
        }
        assert(events_of(mid, e) =~= Seq::<EventView>::empty());
        assert(events_of(p, kiss::escaped(data)) =~= Seq::<EventView>::empty());
    }
}

/// A parser between frames that takes in a command frame reports exactly what the frame says.
pub proof fn frame_round_trip(p: ParserView, command: u8, data: Seq<u8>)
    requires
        !p.in_frame,
        !p.escaped,
        command != FEND,
        command != CMD_UNKNOWN,
    ensures
        events_of(p, rnode::command_frame(command, data)) == (match event_of(
            p.multi,
            command,
            kept(data),
        ) {
            Some(event) => seq![event],
            None => Seq::empty(),
        }),
        !after_bytes(p, rnode::command_frame(command, data)).in_frame,
        !after_bytes(p, rnode::command_frame(command, data)).escaped,
{
    let start = seq![FEND, command];
    let end = seq![FEND];
    let opened = ParserView { in_frame: true, command, data: Seq::empty(), ..p };
    reveal_with_fuel(after_bytes, 3);
    reveal_with_fuel(events_of, 3);
    assert(start.drop_last() =~= seq![FEND]);
    assert(start.drop_last().drop_last() =~= Seq::<u8>::empty());
    assert(end.drop_last() =~= Seq::<u8>::empty());
    assert(after_bytes(p, start) =~= opened);
    assert(events_of(p, start) =~= Seq::<EventView>::empty());
    escaped_fills_frame(opened, data);
    feeding_in_pieces(p, start, kiss::escaped(data));
    feeding_in_pieces(p, start + kiss::escaped(data), end);
    let full = ParserView { data: kept(data), ..opened };
    assert(after_bytes(p, start + kiss::escaped(data)) == full);
    let expected: Seq<EventView> = match event_of(p.multi, command, kept(data)) {
        Some(event) => seq![event],
        None => Seq::empty(),
    };
    assert(events_of(full, end) =~= expected);
    assert(events_of(p, rnode::command_frame(command, data)) =~= expected);
}

} // verus!
