//! Sending on a KISS interface: flow control, the queue behind it, and the identification beacon.
//!
//! A round starts with a packet to send, or with the news that the terminal is ready. It asks for
//! at most three writes, one after the other: a queued frame, the beacon when it is due, and the
//! packet. The result of each write goes back in before the next is asked for.

use std::collections::VecDeque;

use vstd::prelude::*;
use vstd::string::*;

use crate::bytes;
use crate::error::RnsError;
use crate::iface::ax25;
use crate::iface::kiss;
use crate::iface::kiss::CsmaParams;
use crate::iface::kiss::KissBeacon;
use crate::iface::kiss::KissMode;
use crate::iface::kiss::ModeView;
use crate::iface::kiss::SerialPortConfig;
use crate::iface::kiss::BEACON_MIN_LEN;
use crate::iface::kiss::HW_MTU;
use crate::iface::lifecycle;
use crate::iface::lifecycle::{Lifecycle, Medium};
use crate::iface::Interface;
use crate::text;

verus! {

/// What a transmitter waits for.
pub enum Stage {
    /// The next round.
    Idle,
    /// The result of writing a queued frame.
    Queued,
    /// The result of writing the beacon; the packet of the round comes after it.
    Beacon(Option<Vec<u8>>),
    /// The result of writing this packet.
    Data(Vec<u8>),
}

/// What a transmitter waits for, as a mathematical value.
#[verifier::ext_equal]
pub enum StageView {
    Idle,
    Queued,
    Beacon(Option<Seq<u8>>),
    Data(Seq<u8>),
}

/// The bytes of an optional packet.
pub open spec fn packet_view(packet: Option<Vec<u8>>) -> Option<Seq<u8>> {
    match packet {
        Some(packet) => Some(packet@),
        None => None,
    }
}

impl View for Stage {
    type V = StageView;

    open spec fn view(&self) -> StageView {
        match self {
            Stage::Idle => StageView::Idle,
            Stage::Queued => StageView::Queued,
            Stage::Beacon(pending) => StageView::Beacon(packet_view(*pending)),
            Stage::Data(packet) => StageView::Data(packet@),
        }
    }
}

/// Bytes to write, and the payload length that counts as sent.
#[derive(Debug)]
pub struct Write {
    pub frame: Vec<u8>,
    pub payload_len: usize,
}

/// A write, as a mathematical value.
#[verifier::ext_equal]
pub struct WriteView {
    pub frame: Seq<u8>,
    pub payload_len: nat,
}

impl View for Write {
    type V = WriteView;

    open spec fn view(&self) -> WriteView {
        WriteView { frame: self.frame@, payload_len: self.payload_len as nat }
    }
}

/// An optional write, as a mathematical value.
pub open spec fn write_view(write: Option<Write>) -> Option<WriteView> {
    match write {
        Some(write) => Some(write@),
        None => None,
    }
}

/// A beacon, as a mathematical value.
#[verifier::ext_equal]
pub struct BeaconView {
    pub interval: u64,
    pub data: Seq<u8>,
}

/// The state of a transmitter.
#[verifier::ext_equal]
pub struct TxView {
    pub mode: ModeView,
    pub flow_control: bool,
    pub beacon: Option<BeaconView>,
    pub ready: bool,
    pub queue: Seq<Seq<u8>>,
    /// When traffic began that no beacon has followed yet.
    pub first_tx: Option<u64>,
    pub stage: StageView,
}

/// Whether frames are held back.
pub open spec fn held(t: TxView) -> bool {
    t.flow_control && !t.ready
}

/// A beacon padded to its least length.
pub open spec fn padded(data: Seq<u8>) -> Seq<u8> {
    if data.len() < BEACON_MIN_LEN {
        data + Seq::new((BEACON_MIN_LEN - data.len()) as nat, |i: int| 0u8)
    } else {
        data
    }
}

/// Whether the beacon is due.
pub open spec fn beacon_due(t: TxView, now: u64) -> bool {
    &&& t.beacon is Some
    &&& t.first_tx is Some
    &&& now > t.first_tx->0 + t.beacon->0.interval * 1_000_000_000
}

/// The frame of the beacon.
pub open spec fn beacon_frame(t: TxView) -> Seq<u8> {
    kiss::encoded(t.mode, padded(t.beacon->0.data))
}

/// Sends the packet of the round, or queues it.
pub open spec fn at_data(t: TxView, packet: Option<Seq<u8>>) -> (TxView, Option<WriteView>) {
    match packet {
        None => (TxView { stage: StageView::Idle, ..t }, None),
        Some(packet) => {
            let frame = kiss::encoded(t.mode, packet);
            if held(t) {
                (TxView { queue: t.queue.push(frame), stage: StageView::Idle, ..t }, None)
            } else {
                (
                    TxView { stage: StageView::Data(packet), ..t },
                    Some(WriteView { frame, payload_len: packet.len() }),
                )
            }
        },
    }
}

/// Sends the beacon when it is due, or queues it, and goes on.
pub open spec fn at_beacon(t: TxView, packet: Option<Seq<u8>>, now: u64) -> (
    TxView,
    Option<WriteView>,
) {
    if beacon_due(t, now) {
        if held(t) {
            at_data(TxView { queue: t.queue.push(beacon_frame(t)), ..t }, packet)
        } else {
            (
                TxView { stage: StageView::Beacon(packet), ..t },
                Some(
                    WriteView {
                        frame: beacon_frame(t),
                        payload_len: padded(t.beacon->0.data).len(),
                    },
                ),
            )
        }
    } else {
        at_data(t, packet)
    }
}

/// Starts a round: with a packet, or with the oldest queued frame.
pub open spec fn after_begin(t: TxView, packet: Option<Seq<u8>>, now: u64) -> (
    TxView,
    Option<WriteView>,
) {
    match packet {
        Some(_) => at_beacon(t, packet, now),
        None => if t.queue.len() == 0 {
            at_beacon(t, None, now)
        } else {
            let frame = t.queue[0];
            let rest = TxView { queue: t.queue.skip(1), ..t };
            if held(t) {
                at_beacon(TxView { queue: rest.queue.push(frame), ..rest }, None, now)
            } else {
                (
                    TxView { stage: StageView::Queued, ..rest },
                    Some(WriteView { frame, payload_len: 0 }),
                )
            }
        },
    }
}

/// What a write that went through changes: with flow control, the next frame has to wait.
pub open spec fn after_write(t: TxView, ok: bool) -> TxView {
    TxView { ready: t.ready && !(ok && t.flow_control), ..t }
}

/// Goes on after a write.
pub open spec fn after_wrote(t: TxView, ok: bool, now: u64) -> (TxView, Option<WriteView>) {
    let next = after_write(t, ok);
    match t.stage {
        StageView::Idle => (t, None),
        StageView::Queued => at_beacon(next, None, now),
        StageView::Beacon(packet) => at_data(
            TxView {
                first_tx: if ok {
                    None
                } else {
                    t.first_tx
                },
                ..next
            },
            packet,
        ),
        StageView::Data(packet) => (
            TxView {
                first_tx: if ok && t.beacon is Some && packet != t.beacon->0.data
                    && t.first_tx is None {
                    Some(now)
                } else {
                    t.first_tx
                },
                stage: StageView::Idle,
                ..next
            },
            None,
        ),
    }
}

/// Decides what a KISS interface writes.
pub struct KissTransmitter {
    mode: KissMode,
    flow_control: bool,
    beacon: Option<KissBeacon>,
    ready: bool,
    queue: VecDeque<Vec<u8>>,
    first_tx: Option<u64>,
    stage: Stage,
}

/// The view of an optional beacon.
pub open spec fn beacon_view(beacon: Option<KissBeacon>) -> Option<BeaconView> {
    match beacon {
        Some(beacon) => Some(BeaconView { interval: beacon.interval, data: beacon.data@ }),
        None => None,
    }
}

/// Frames as mathematical values.
pub open spec fn frame_views(frames: Seq<Vec<u8>>) -> Seq<Seq<u8>> {
    frames.map_values(|f: Vec<u8>| f@)
}

impl View for KissTransmitter {
    type V = TxView;

    closed spec fn view(&self) -> TxView {
        TxView {
            mode: self.mode@,
            flow_control: self.flow_control,
            beacon: beacon_view(self.beacon),
            ready: self.ready,
            queue: frame_views(self.queue@),
            first_tx: self.first_tx,
            stage: self.stage@,
        }
    }
}

impl KissTransmitter {
    /// A transmitter with nothing queued, for a terminal that is ready.
    pub fn new(mode: KissMode, flow_control: bool, beacon: Option<KissBeacon>) -> (r: Self)
        ensures
            r@ == (TxView {
                mode: mode@,
                flow_control,
                beacon: beacon_view(beacon),
                ready: true,
                queue: Seq::empty(),
                first_tx: None,
                stage: StageView::Idle,
            }),
    {
        let queue: VecDeque<Vec<u8>> = VecDeque::new();
        assert(frame_views(queue@) =~= Seq::<Seq<u8>>::empty());
        KissTransmitter {
            mode,
            flow_control,
            beacon,
            ready: true,
            queue,
            first_tx: None,
            stage: Stage::Idle,
        }
    }

    /// The terminal has reported that it is ready.
    pub fn on_ready(&mut self)
        ensures
            final(self)@ == (TxView { ready: true, ..old(self)@ }),
    {
        self.ready = true;
    }

    /// The port has been opened anew: a write that was under way is given up, and the time of the
    /// beacon starts anew. What is queued stays, and so does the wait for the terminal.
    pub fn on_reopen(&mut self)
        ensures
            final(self)@ == (TxView { first_tx: None, stage: StageView::Idle, ..old(self)@ }),
    {
        self.first_tx = None;
        self.stage = Stage::Idle;
    }

    /// Queues a frame.
    fn enqueue(&mut self, frame: Vec<u8>)
        ensures
            final(self)@ == (TxView { queue: old(self)@.queue.push(frame@), ..old(self)@ }),
    {
        self.queue.push_back(frame);
        assert(self@.queue =~= old(self)@.queue.push(frame@));
    }

    /// Whether frames are held back.
    fn is_held(&self) -> (r: bool)
        ensures
            r == held(self@),
    {
        self.flow_control && !self.ready
    }

    /// The padded beacon, when it is due.
    fn due_beacon(&self, now: u64) -> (r: Option<Vec<u8>>)
        ensures
            r is Some <==> beacon_due(self@, now),
            r is Some ==> r->0@ == padded(self@.beacon->0.data),
    {
        match (&self.beacon, self.first_tx) {
            (Some(beacon), Some(started)) => {
                let due: u128 = started as u128 + beacon.interval as u128 * 1_000_000_000;
                if now as u128 <= due {
                    return None;
                }
                let mut data: Vec<u8> = bytes::to_vec(&beacon.data);
                while data.len() < BEACON_MIN_LEN
                    invariant
                        data@.len() >= beacon.data@.len(),
                        data@.len() <= BEACON_MIN_LEN || data@ == beacon.data@,
                        data@ == beacon.data@ + Seq::new(
                            (data@.len() - beacon.data@.len()) as nat,
                            |i: int| 0u8,
                        ),
                    decreases BEACON_MIN_LEN - data@.len(),
                {
                    data.push(0x00);
                    assert(data@ =~= beacon.data@ + Seq::new(
                        (data@.len() - beacon.data@.len()) as nat,
                        |i: int| 0u8,
                    ));
                }
                assert(data@ =~= padded(beacon.data@));
                Some(data)
            },
            _ => None,
        }
    }

    /// Sends the packet of the round, or queues it.
    fn go_data(&mut self, packet: Option<Vec<u8>>) -> (r: Option<Write>)
        ensures
            (final(self)@, write_view(r)) == at_data(old(self)@, packet_view(packet)),
    {
        match packet {
            None => {
                self.stage = Stage::Idle;
                None
            },
            Some(packet) => {
                let frame: Vec<u8> = self.mode.encode(&packet);
                if self.is_held() {
                    self.enqueue(frame);
                    self.stage = Stage::Idle;
                    None
                } else {
                    let payload_len: usize = packet.len();
                    self.stage = Stage::Data(packet);
                    Some(Write { frame, payload_len })
                }
            },
        }
    }

    /// Sends the beacon when it is due, or queues it, and goes on.
    fn go_beacon(&mut self, packet: Option<Vec<u8>>, now: u64) -> (r: Option<Write>)
        ensures
            (final(self)@, write_view(r)) == at_beacon(old(self)@, packet_view(packet), now),
    {
        match self.due_beacon(now) {
            Some(beacon) => {
                let frame: Vec<u8> = self.mode.encode(&beacon);
                if self.is_held() {
                    self.enqueue(frame);
                    self.go_data(packet)
                } else {
                    self.stage = Stage::Beacon(packet);
                    Some(Write { frame, payload_len: beacon.len() })
                }
            },
            None => self.go_data(packet),
        }
    }

    /// Starts a round: with the wire bytes of a packet, or, when the terminal has become ready,
    /// with `None`. Returns what to write first.
    pub fn begin(&mut self, packet: Option<Vec<u8>>, now: u64) -> (r: Option<Write>)
        ensures
            (final(self)@, write_view(r)) == after_begin(old(self)@, packet_view(packet), now),
    {
        if packet.is_some() {
            return self.go_beacon(packet, now);
        }
        let ghost before = self@;
        match self.queue.pop_front() {
            Some(frame) => {
                assert(self@.queue =~= before.queue.skip(1));
                assert(frame@ == before.queue[0]);
                if self.is_held() {
                    self.enqueue(frame);
                    self.go_beacon(None, now)
                } else {
                    self.stage = Stage::Queued;
                    Some(Write { frame, payload_len: 0 })
                }
            },
            None => {
                assert(self@.queue =~= before.queue);
                self.go_beacon(None, now)
            },
        }
    }

    /// Takes the result of the last write. Returns what to write next; `None` ends the round.
    pub fn wrote(&mut self, ok: bool, now: u64) -> (r: Option<Write>)
        ensures
            (final(self)@, write_view(r)) == after_wrote(old(self)@, ok, now),
    {
        let mut stage: Stage = Stage::Idle;
        std::mem::swap(&mut stage, &mut self.stage);
        match stage {
            Stage::Idle => None,
            Stage::Queued => {
                self.ready = self.ready && !(ok && self.flow_control);
                self.go_beacon(None, now)
            },
            Stage::Beacon(packet) => {
                self.ready = self.ready && !(ok && self.flow_control);
                if ok {
                    self.first_tx = None;
                }
                self.go_data(packet)
            },
            Stage::Data(packet) => {
                self.ready = self.ready && !(ok && self.flow_control);
                if ok && self.first_tx.is_none() {
                    if let Some(beacon) = &self.beacon {
                        if !bytes::equal(&packet, &beacon.data) {
                            self.first_tx = Some(now);
                        }
                    }
                }
                None
            },
        }
    }
}

/// While frames are held back nothing is written: a packet goes to the end of the queue, behind
/// the beacon if that is due, and nothing queued is lost.
pub proof fn held_back_is_queued(t: TxView, packet: Seq<u8>, now: u64)
    requires
        held(t),
    ensures
        after_begin(t, Some(packet), now).1 is None,
        after_begin(t, Some(packet), now).0.queue == (if beacon_due(t, now) {
            t.queue.push(beacon_frame(t)).push(kiss::encoded(t.mode, packet))
        } else {
            t.queue.push(kiss::encoded(t.mode, packet))
        }),
{
}

/// With flow control each frame that is sent closes the way for the next: nothing more is written
/// in its round, and nothing in later rounds until the terminal is ready.
pub proof fn one_frame_per_ready(t: TxView, now: u64)
    requires
        t.flow_control,
        t.stage !is Idle,
    ensures
        after_wrote(t, true, now).1 is None,
        held(after_wrote(t, true, now).0),
{
}

/// When the terminal becomes ready the oldest queued frame goes out, and the others keep their
/// order.
pub proof fn queue_is_first_in_first_out(t: TxView, now: u64)
    requires
        t.queue.len() > 0,
    ensures
        ({
            let ready = TxView { ready: true, ..t };
            let (next, write) = after_begin(ready, None, now);
            write is Some && write->0.frame == t.queue[0] && next.queue == t.queue.skip(1)
        }),
{
}

/// Without flow control nothing is ever queued.
pub proof fn no_queue_without_flow_control(t: TxView, packet: Option<Seq<u8>>, ok: bool, now: u64)
    requires
        !t.flow_control,
        t.queue.len() == 0,
    ensures
        after_begin(t, packet, now).0.queue.len() == 0,
        after_wrote(t, ok, now).0.queue.len() == 0,
        packet is Some && !beacon_due(t, now) ==> after_begin(t, packet, now).1 == Some(
            WriteView { frame: kiss::encoded(t.mode, packet->0), payload_len: packet->0.len() },
        ),
{
}

/// Beacons follow traffic: once one has been sent, the next is due only after another packet.
pub proof fn beacon_follows_traffic(t: TxView, packet: Option<Seq<u8>>, now: u64, later: u64)
    requires
        t.stage == StageView::Beacon(packet),
    ensures
        !beacon_due(after_wrote(t, true, now).0, later),
{
}

/// A KISS interface on a serial port.
pub struct KissInterface {
    pub mode: KissMode,
    pub serial: SerialPortConfig,
    pub csma: CsmaParams,
    pub flow_control: bool,
    pub beacon: Option<KissBeacon>,
    /// Whether it runs on a stream that was opened elsewhere, and so cannot be opened again.
    pub attached: bool,
}

impl KissInterface {
    /// A plain interface.
    pub fn new(serial: SerialPortConfig, csma: CsmaParams, flow_control: bool) -> (r: Self)
        ensures
            r == (KissInterface {
                mode: KissMode::Kiss,
                serial,
                csma,
                flow_control,
                beacon: None,
                attached: false,
            }),
    {
        KissInterface {
            mode: KissMode::Kiss,
            serial,
            csma,
            flow_control,
            beacon: None,
            attached: false,
        }
    }

    /// An interface with AX.25 headers from the upper-cased callsign, which has to be valid.
    pub fn new_ax25(
        callsign: &str,
        ssid: u8,
        serial: SerialPortConfig,
        csma: CsmaParams,
        flow_control: bool,
    ) -> (r: Result<Self, RnsError>)
        ensures
            r is Ok <==> {
                let upper = text::uppercased(callsign@);
                let length = vstd::utf8::encode_utf8(upper).len();
                3 <= length <= 6 && vstd::utf8::is_ascii_chars(upper) && ssid <= 15
            },
            r is Err ==> r->Err_0 == RnsError::InvalidArgument,
            r is Ok ==> r->Ok_0.mode@ == (ModeView::Ax25 {
                callsign: text::uppercased(callsign@),
                ssid,
            }) && r->Ok_0 == (KissInterface {
                mode: r->Ok_0.mode,
                serial,
                csma,
                flow_control,
                beacon: None,
                attached: false,
            }),
            callsign.is_ascii() ==> (r is Ok <==> 3 <= callsign@.len() <= 6 && ssid <= 15),
            callsign.is_ascii() && r is Ok ==> r->Ok_0.mode@ == (ModeView::Ax25 {
                callsign: text::ascii_uppered(callsign@),
                ssid,
            }),
    {
        let ghost given = callsign@;
        let callsign: String = text::to_uppercase(callsign);
        proof {
            if vstd::utf8::is_ascii_chars(given) {
                assert forall|i: int| 0 <= i < given.len() implies '\0' <= #[trigger] callsign@[i]
                    <= '\u{7f}' by {
                    assert('\0' <= given[i] <= '\u{7f}');
                }
                vstd::utf8::is_ascii_chars_encode_utf8(callsign@);
            }
        }
        match ax25::validate_callsign(callsign.as_str(), ssid) {
            Ok(_) => {},
            Err(err) => return Err(err),
        }
        Ok(
            KissInterface {
                mode: KissMode::Ax25 { callsign, ssid },
                serial,
                csma,
                flow_control,
                beacon: None,
                attached: false,
            },
        )
    }

    /// The same interface with an identification beacon.
    pub fn with_beacon(self, interval_secs: u64, data: Vec<u8>) -> (r: Self)
        ensures
            r == (KissInterface {
                beacon: Some(KissBeacon { interval: interval_secs, data }),
                ..self
            }),
    {
        KissInterface { beacon: Some(KissBeacon { interval: interval_secs, data }), ..self }
    }

    /// An interface on a stream that was opened elsewhere.
    pub fn from_stream(mode: KissMode, csma: CsmaParams, flow_control: bool) -> (r: Self)
        ensures
            r == (KissInterface {
                mode,
                serial: r.serial,
                csma,
                flow_control,
                beacon: None,
                attached: true,
            }),
            r.serial.port@ == ""@,
            r.serial.speed == 9600,
    {
        KissInterface {
            mode,
            serial: SerialPortConfig::new("", 9600),
            csma,
            flow_control,
            beacon: None,
            attached: true,
        }
    }

    /// A transmitter for this interface.
    pub fn transmitter(&self) -> (r: KissTransmitter)
        ensures
            r@ == (TxView {
                mode: self.mode@,
                flow_control: self.flow_control,
                beacon: beacon_view(self.beacon),
                ready: true,
                queue: Seq::empty(),
                first_tx: None,
                stage: StageView::Idle,
            }),
    {
        let beacon: Option<KissBeacon> = match &self.beacon {
            Some(beacon) => Some(beacon.clone()),
            None => None,
        };
        KissTransmitter::new(self.mode.clone(), self.flow_control, beacon)
    }

    /// The life of the interface.
    pub fn lifecycle(&self) -> (r: Lifecycle)
        ensures
            r == lifecycle::started(Medium::Controller, !self.attached),
    {
        Lifecycle::new(Medium::Controller, !self.attached)
    }
}

impl Interface for KissInterface {
    fn mtu() -> (r: usize)
        ensures
            r == HW_MTU,
    {
        HW_MTU
    }
}

} // verus!
