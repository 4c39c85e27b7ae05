//! Sessions with radio modems: finding out what a modem is, configuring its radio, and what its
//! reports change.

use vstd::prelude::*;
use vstd::string::*;

use crate::bytes;
use crate::error::RnsError;
use crate::iface::control;
use crate::iface::lifecycle;
use crate::iface::lifecycle::{Lifecycle, Medium};
use crate::iface::rnode;
use crate::iface::rnode::{
    kiss_frame, RnodeEchoState, RnodeRadioConfig, RnodeStatus, CMD_DATA, CMD_SEL_INT,
    RADIO_STATE_ON, REQUIRED_FW_VER_MAJ, REQUIRED_FW_VER_MIN,
};
use crate::iface::rnode_parser;
use crate::iface::rnode_parser::{EventView, ParserView, RnodeEvent, RnodeParser};
use crate::iface::Interface;

verus! {

/// How long a modem may take to say what it is, in nanoseconds.
pub const DETECT_TIME: u64 = 10_000_000_000;

/// How long a modem may take to report its settings.
pub const VALIDATE_TIME: u64 = 5_000_000_000;

/// How long to wait for bytes while a modem says what it is.
pub const DETECT_READ_TIME: u64 = 2_000_000_000;

/// How long to wait for bytes while a modem reports its settings.
pub const VALIDATE_READ_TIME: u64 = 1_000_000_000;

/// How long a modem gets to take its configuration in.
pub const SETTLE_TIME: u64 = 300_000_000;

/// Wait before a link is opened again.
pub const RECONNECT_WAIT: u64 = 10_000_000_000;

/// The longest packet.
pub const HW_MTU: usize = 500;

/// What is known of a modem.
#[derive(Debug, Clone, Copy)]
pub struct RnodeShared {
    pub echo: RnodeEchoState,
    pub status: RnodeStatus,
    pub firmware: Option<(u8, u8)>,
    pub platform: Option<u8>,
    pub mcu: Option<u8>,
    pub detected: bool,
    /// Whether the modem takes the next packet.
    pub interface_ready: bool,
}

impl Default for RnodeShared {
    fn default() -> (r: Self)
        ensures
            r == (RnodeShared {
                echo: rnode::no_echo(),
                status: rnode::no_status(),
                firmware: None,
                platform: None,
                mcu: None,
                detected: false,
                interface_ready: false,
            }),
    {
        RnodeShared {
            echo: RnodeEchoState::default(),
            status: RnodeStatus::default(),
            firmware: None,
            platform: None,
            mcu: None,
            detected: false,
            interface_ready: false,
        }
    }
}

/// What is known after an answer to the question what a modem is.
pub open spec fn after_detect(s: RnodeShared, e: EventView) -> RnodeShared {
    match e {
        EventView::Detect => RnodeShared { detected: true, ..s },
        EventView::FirmwareVersion { major, minor } => RnodeShared {
            firmware: Some((major, minor)),
            ..s
        },
        EventView::Platform(platform) => RnodeShared { platform: Some(platform), ..s },
        EventView::Mcu(mcu) => RnodeShared { mcu: Some(mcu), ..s },
        _ => s,
    }
}

/// What is known after the first `n` answers, and whether the firmware was among them.
pub open spec fn after_detects(s: RnodeShared, events: Seq<EventView>, n: int) -> (
    RnodeShared,
    bool,
)
    decreases n,
{
    if n <= 0 {
        (s, false)
    } else {
        let (before, seen) = after_detects(s, events, n - 1);
        (after_detect(before, events[n - 1]), seen || events[n - 1] is FirmwareVersion)
    }
}

/// The settings reported by the first `n` events, over those reported before.
pub open spec fn collected_from(c: RnodeEchoState, events: Seq<EventView>, n: int) -> RnodeEchoState
    decreases n,
{
    if n <= 0 {
        c
    } else {
        let before = collected_from(c, events, n - 1);
        match events[n - 1] {
            EventView::Echo(echo) => rnode::merged(before, echo),
            _ => before,
        }
    }
}

/// Takes in answers to the question what a modem is. Returns whether the firmware was among them.
fn take_detects(shared: &mut RnodeShared, events: &Vec<RnodeEvent>) -> (seen: bool)
    ensures
        (*final(shared), seen) == after_detects(
            *old(shared),
            rnode_parser::event_views(events@),
            events@.len() as int,
        ),
{
    let mut seen: bool = false;
    let mut i: usize = 0;
    let ghost views = rnode_parser::event_views(events@);
    while i < events.len()
        invariant
            i <= events@.len(),
            views == rnode_parser::event_views(events@),
            (*shared, seen) == after_detects(*old(shared), views, i as int),
        decreases events@.len() - i,
    {
        assert(views[i as int] == events@[i as int]@);
        match &events[i] {
            RnodeEvent::Detect => {
                shared.detected = true;
            },
            RnodeEvent::FirmwareVersion { major, minor } => {
                shared.firmware = Some((*major, *minor));
                seen = true;
            },
            RnodeEvent::Platform(platform) => {
                shared.platform = Some(*platform);
            },
            RnodeEvent::Mcu(mcu) => {
                shared.mcu = Some(*mcu);
            },
            _ => {},
        }
        i += 1;
    }
    seen
}

/// Takes in reported settings.
fn take_echoes(collected: &mut RnodeEchoState, events: &Vec<RnodeEvent>)
    ensures
        *final(collected) == collected_from(
            *old(collected),
            rnode_parser::event_views(events@),
            events@.len() as int,
        ),
{
    let mut i: usize = 0;
    let ghost views = rnode_parser::event_views(events@);
    while i < events.len()
        invariant
            i <= events@.len(),
            views == rnode_parser::event_views(events@),
            *collected == collected_from(*old(collected), views, i as int),
        decreases events@.len() - i,
    {
        assert(views[i as int] == events@[i as int]@);
        match &events[i] {
            RnodeEvent::Echo(echo) => {
                collected.merge(*echo);
            },
            _ => {},
        }
        i += 1;
    }
}

/// Whether a firmware is supported.
pub open spec fn supported(firmware: Option<(u8, u8)>) -> bool {
    match firmware {
        Some((major, minor)) => major > REQUIRED_FW_VER_MAJ || (major == REQUIRED_FW_VER_MAJ
            && minor >= REQUIRED_FW_VER_MIN),
        None => false,
    }
}

/// Whether a firmware is supported.
pub fn firmware_supported(firmware: Option<(u8, u8)>) -> (r: bool)
    ensures
        r == supported(firmware),
{
    match firmware {
        Some((major, minor)) => major > REQUIRED_FW_VER_MAJ || (major >= REQUIRED_FW_VER_MAJ
            && minor >= REQUIRED_FW_VER_MIN),
        None => false,
    }
}

/// How far a handshake has come.
#[derive(Debug, Clone, Copy, PartialEq, Eq, Structural)]
pub enum Phase {
    /// The modem is asked what it is.
    Detect,
    /// The configuration is being written.
    Configure,
    /// The modem reports its settings.
    Collect,
    Finished,
}

/// What has happened on the link of a handshake.
#[derive(Debug)]
pub enum LinkInput {
    /// What was asked for has been done.
    Done,
    /// Bytes have come in.
    Bytes(Vec<u8>),
    /// The link has closed or failed, or no bytes came in time.
    Closed,
}

/// What has happened on the link of a handshake, as a mathematical value.
pub enum InputView {
    Done,
    Bytes(Seq<u8>),
    Closed,
}

impl View for LinkInput {
    type V = InputView;

    open spec fn view(&self) -> InputView {
        match self {
            LinkInput::Done => InputView::Done,
            LinkInput::Bytes(data) => InputView::Bytes(data@),
            LinkInput::Closed => InputView::Closed,
        }
    }
}

/// What a handshake asks for next.
#[derive(Debug)]
pub enum HandshakeStep {
    /// Reading, with so much time.
    Read(u64),
    /// Writing these frames and waiting for the modem to settle.
    Configure(Vec<Vec<u8>>),
    /// The modem is configured.
    Accepted,
    /// The modem cannot be used.
    Failed(RnsError),
}

/// What a handshake asks for next, as a mathematical value.
#[verifier::ext_equal]
pub enum StepView {
    Read(u64),
    Configure(Seq<Seq<u8>>),
    Accepted,
    Failed(RnsError),
}

impl View for HandshakeStep {
    type V = StepView;

    open spec fn view(&self) -> StepView {
        match self {
            HandshakeStep::Read(time) => StepView::Read(*time),
            HandshakeStep::Configure(frames) => StepView::Configure(rnode::frame_views(frames@)),
            HandshakeStep::Accepted => StepView::Accepted,
            HandshakeStep::Failed(error) => StepView::Failed(*error),
        }
    }
}

/// The state of a handshake.
#[verifier::ext_equal]
pub struct HandshakeView {
    pub config: RnodeRadioConfig,
    pub shared: RnodeShared,
    pub parser: ParserView,
    pub phase: Phase,
    pub deadline: u64,
    pub collected: RnodeEchoState,
}

/// A handshake that has failed.
pub open spec fn failed(h: HandshakeView, error: RnsError) -> (HandshakeView, StepView) {
    (HandshakeView { phase: Phase::Finished, ..h }, StepView::Failed(error))
}

/// A handshake at its end: the settings that were collected decide.
pub open spec fn verdict(h: HandshakeView) -> (HandshakeView, StepView) {
    if rnode::mismatch(h.config, h.collected) is None {
        (
            HandshakeView {
                phase: Phase::Finished,
                shared: RnodeShared { echo: h.collected, interface_ready: true, ..h.shared },
                ..h
            },
            StepView::Accepted,
        )
    } else {
        failed(h, RnsError::ConnectionError)
    }
}

/// A handshake that goes on asking what the modem is, while there is time.
pub open spec fn detect_on(h: HandshakeView, now: u64) -> (HandshakeView, StepView) {
    if now > h.deadline {
        failed(h, RnsError::ConnectionError)
    } else {
        (h, StepView::Read(DETECT_READ_TIME))
    }
}

/// A handshake that goes on collecting settings, while there is time.
pub open spec fn collect_on(h: HandshakeView, now: u64) -> (HandshakeView, StepView) {
    if now > h.deadline {
        verdict(h)
    } else {
        (h, StepView::Read(VALIDATE_READ_TIME))
    }
}

/// A handshake after bytes that say what the modem is.
pub open spec fn detect_bytes(h: HandshakeView, data: Seq<u8>, now: u64) -> (
    HandshakeView,
    StepView,
) {
    let events = rnode_parser::events_of(h.parser, data);
    let (shared, seen) = after_detects(h.shared, events, events.len() as int);
    let next = HandshakeView {
        shared,
        parser: rnode_parser::after_bytes(h.parser, data),
        ..h
    };
    if !seen {
        detect_on(next, now)
    } else if supported(shared.firmware) {
        (
            HandshakeView { phase: Phase::Configure, ..next },
            StepView::Configure(rnode::frames_for(h.config, RADIO_STATE_ON)),
        )
    } else {
        failed(next, RnsError::Unsupported)
    }
}

/// A handshake after bytes that report settings.
pub open spec fn collect_bytes(h: HandshakeView, data: Seq<u8>, now: u64) -> (
    HandshakeView,
    StepView,
) {
    let events = rnode_parser::events_of(h.parser, data);
    let next = HandshakeView {
        collected: collected_from(h.collected, events, events.len() as int),
        parser: rnode_parser::after_bytes(h.parser, data),
        ..h
    };
    if rnode::mismatch(h.config, next.collected) is None {
        verdict(next)
    } else {
        collect_on(next, now)
    }
}

/// A handshake after something has happened on its link.
pub open spec fn after_poll(h: HandshakeView, input: InputView, now: u64) -> (
    HandshakeView,
    StepView,
) {
    match (h.phase, input) {
        (Phase::Detect, InputView::Done) => detect_on(h, now),
        (Phase::Detect, InputView::Bytes(data)) => if data.len() > 0 {
            detect_bytes(h, data, now)
        } else {
            failed(h, RnsError::ConnectionError)
        },
        (Phase::Configure, InputView::Done) => (
            HandshakeView {
                phase: Phase::Collect,
                deadline: control::later(now, VALIDATE_TIME),
                ..h
            },
            StepView::Read(VALIDATE_READ_TIME),
        ),
        (Phase::Collect, InputView::Done) => collect_on(h, now),
        (Phase::Collect, InputView::Bytes(data)) => if data.len() > 0 {
            collect_bytes(h, data, now)
        } else {
            verdict(h)
        },
        (Phase::Collect, InputView::Closed) => verdict(h),
        _ => failed(h, RnsError::ConnectionError),
    }
}

/// Finds out what a modem is, checks its firmware, configures its radio and checks the settings
/// that it reports.
pub struct RnodeHandshake {
    config: RnodeRadioConfig,
    shared: RnodeShared,
    parser: RnodeParser,
    phase: Phase,
    deadline: u64,
    collected: RnodeEchoState,
}

impl View for RnodeHandshake {
    type V = HandshakeView;

    closed spec fn view(&self) -> HandshakeView {
        HandshakeView {
            config: self.config,
            shared: self.shared,
            parser: self.parser@,
            phase: self.phase,
            deadline: self.deadline,
            collected: self.collected,
        }
    }
}

impl RnodeHandshake {
    /// A handshake that begins now; the modem is to be asked what it is.
    pub fn new(config: RnodeRadioConfig, shared: RnodeShared, now: u64) -> (r: Self)
        ensures
            r@ == (HandshakeView {
                config,
                shared,
                parser: rnode_parser::new_parser(false),
                phase: Phase::Detect,
                deadline: control::later(now, DETECT_TIME),
                collected: rnode::no_echo(),
            }),
    {
        RnodeHandshake {
            config,
            shared,
            parser: RnodeParser::new(false),
            phase: Phase::Detect,
            deadline: now.saturating_add(DETECT_TIME),
            collected: RnodeEchoState::default(),
        }
    }

    /// What is known of the modem.
    pub fn shared(&self) -> (r: RnodeShared)
        ensures
            r == self@.shared,
    {
        self.shared
    }

    fn fail(&mut self, error: RnsError) -> (r: HandshakeStep)
        ensures
            (final(self)@, r@) == failed(old(self)@, error),
    {
        self.phase = Phase::Finished;
        HandshakeStep::Failed(error)
    }

    fn decide(&mut self) -> (r: HandshakeStep)
        ensures
            (final(self)@, r@) == verdict(old(self)@),
    {
        match self.config.validate(&self.collected) {
            Ok(_) => {
                self.phase = Phase::Finished;
                self.shared.echo = self.collected;
                self.shared.interface_ready = true;
                HandshakeStep::Accepted
            },
            Err(_) => self.fail(RnsError::ConnectionError),
        }
    }

    fn go_on_detecting(&mut self, now: u64) -> (r: HandshakeStep)
        ensures
            (final(self)@, r@) == detect_on(old(self)@, now),
    {
        if now > self.deadline {
            self.fail(RnsError::ConnectionError)
        } else {
            HandshakeStep::Read(DETECT_READ_TIME)
        }
    }

    fn go_on_collecting(&mut self, now: u64) -> (r: HandshakeStep)
        ensures
            (final(self)@, r@) == collect_on(old(self)@, now),
    {
        if now > self.deadline {
            self.decide()
        } else {
            HandshakeStep::Read(VALIDATE_READ_TIME)
        }
    }

    fn take_detect_bytes(&mut self, data: &[u8], now: u64) -> (r: HandshakeStep)
        ensures
            (final(self)@, r@) == detect_bytes(old(self)@, data@, now),
    {
        let events: Vec<RnodeEvent> = self.parser.feed(data);
        assert(rnode_parser::event_views(events@).len() == events@.len());
        let seen: bool = take_detects(&mut self.shared, &events);
        if !seen {
            return self.go_on_detecting(now);
        }
        if firmware_supported(self.shared.firmware) {
            self.phase = Phase::Configure;
            HandshakeStep::Configure(self.config.configuration_frames(RADIO_STATE_ON))
        } else {
            self.fail(RnsError::Unsupported)
        }
    }

    fn take_setting_bytes(&mut self, data: &[u8], now: u64) -> (r: HandshakeStep)
        ensures
            (final(self)@, r@) == collect_bytes(old(self)@, data@, now),
    {
        let events: Vec<RnodeEvent> = self.parser.feed(data);
        assert(rnode_parser::event_views(events@).len() == events@.len());
        take_echoes(&mut self.collected, &events);
        let valid: bool = self.config.validate(&self.collected).is_ok();
        if valid {
            self.decide()
        } else {
            self.go_on_collecting(now)
        }
    }

    /// Takes in what has happened on the link. Returns what to do next.
    pub fn poll(&mut self, input: LinkInput, now: u64) -> (r: HandshakeStep)
        ensures
            (final(self)@, r@) == after_poll(old(self)@, input@, now),
    {
        match self.phase {
            Phase::Detect => match input {
                LinkInput::Done => self.go_on_detecting(now),
                LinkInput::Bytes(data) => if data.len() > 0 {
                    self.take_detect_bytes(&data, now)
                } else {
                    self.fail(RnsError::ConnectionError)
                },
                LinkInput::Closed => self.fail(RnsError::ConnectionError),
            },
            Phase::Configure => match input {
                LinkInput::Done => {
                    self.phase = Phase::Collect;
                    self.deadline = now.saturating_add(VALIDATE_TIME);
                    HandshakeStep::Read(VALIDATE_READ_TIME)
                },
                _ => self.fail(RnsError::ConnectionError),
            },
            Phase::Collect => match input {
                LinkInput::Done => self.go_on_collecting(now),
                LinkInput::Bytes(data) => if data.len() > 0 {
                    self.take_setting_bytes(&data, now)
                } else {
                    self.decide()
                },
                LinkInput::Closed => self.decide(),
            },
            Phase::Finished => self.fail(RnsError::ConnectionError),
        }
    }
}

/// What every step of a handshake keeps: past the question what the modem is, its firmware is
/// supported.
pub open spec fn handshake_wf(h: HandshakeView) -> bool {
    h.phase == Phase::Configure || h.phase == Phase::Collect ==> supported(h.shared.firmware)
}

/// A modem is only accepted with a supported firmware and with settings that are those of the
/// configuration, and is ready then. Once it is accepted or has failed, nothing more is asked of
/// it.
pub proof fn accepted_means_validated(h: HandshakeView, input: InputView, now: u64)
    requires
        handshake_wf(h),
    ensures
        handshake_wf(after_poll(h, input, now).0),
        after_poll(h, input, now).1 is Accepted ==> {
            let shared = after_poll(h, input, now).0.shared;
            supported(shared.firmware) && rnode::mismatch(h.config, shared.echo) is None
                && shared.interface_ready
        },
        after_poll(h, input, now).1 is Accepted || after_poll(h, input, now).1 is Failed
            <==> after_poll(h, input, now).0.phase == Phase::Finished,
        h.phase == Phase::Finished ==> after_poll(h, input, now).1 is Failed,
{
}

/// What a report changes for a single modem. The link quality follows from a signal-to-noise ratio
/// and the spreading factor that the modem has confirmed.
pub open spec fn after_report(s: RnodeShared, e: EventView) -> RnodeShared {
    match e {
        EventView::Ready(ready) => RnodeShared { interface_ready: ready, ..s },
        EventView::Status(status) => RnodeShared {
            status: RnodeStatus {
                rssi: rnode::newer(s.status.rssi, status.rssi),
                snr: rnode::newer(s.status.snr, status.snr),
                quality: match status.snr {
                    Some(snr) => rnode::quality_of(snr, s.echo.spreadingfactor),
                    None => s.status.quality,
                },
                stat_rx: rnode::newer(s.status.stat_rx, status.stat_rx),
                stat_tx: rnode::newer(s.status.stat_tx, status.stat_tx),
                ..s.status
            },
            ..s
        },
        _ => s,
    }
}

/// What the first `n` reports change for a single modem, and the packets among them.
pub open spec fn after_reports(s: RnodeShared, events: Seq<EventView>, n: int) -> (
    RnodeShared,
    Seq<Seq<u8>>,
)
    decreases n,
{
    if n <= 0 {
        (s, Seq::empty())
    } else {
        let (before, packets) = after_reports(s, events, n - 1);
        match events[n - 1] {
            EventView::Data { vport, data } => (before, packets.push(data)),
            e => (after_report(before, e), packets),
        }
    }
}

/// What a report changes for a modem with virtual ports.
pub open spec fn after_port_report(s: RnodeShared, e: EventView) -> RnodeShared {
    match e {
        EventView::Status(status) => RnodeShared {
            status: RnodeStatus {
                rssi: rnode::newer(s.status.rssi, status.rssi),
                snr: rnode::newer(s.status.snr, status.snr),
                ..s.status
            },
            ..s
        },
        _ => s,
    }
}

/// What the first `n` reports change for a modem with virtual ports, and the packets among them
/// with their ports.
pub open spec fn after_port_reports(s: RnodeShared, events: Seq<EventView>, n: int) -> (
    RnodeShared,
    Seq<(u8, Seq<u8>)>,
)
    decreases n,
{
    if n <= 0 {
        (s, Seq::empty())
    } else {
        let (before, packets) = after_port_reports(s, events, n - 1);
        match events[n - 1] {
            EventView::Data { vport: Some(port), data } => (before, packets.push((port, data))),
            e => (after_port_report(before, e), packets),
        }
    }
}

/// Packets with their ports, as mathematical values.
pub open spec fn routed_views(packets: Seq<(u8, Vec<u8>)>) -> Seq<(u8, Seq<u8>)> {
    packets.map_values(|p: (u8, Vec<u8>)| (p.0, p.1@))
}

impl RnodeShared {
    /// Takes in the reports of a single modem. Returns the packets among them.
    pub fn take_reports(&mut self, events: &Vec<RnodeEvent>) -> (packets: Vec<Vec<u8>>)
        ensures
            (*final(self), rnode::frame_views(packets@)) == after_reports(
                *old(self),
                rnode_parser::event_views(events@),
                events@.len() as int,
            ),
    {
        let mut packets: Vec<Vec<u8>> = Vec::new();
        let mut i: usize = 0;
        let ghost views = rnode_parser::event_views(events@);
        assert(rnode::frame_views(packets@) =~= Seq::<Seq<u8>>::empty());
        while i < events.len()
            invariant
                i <= events@.len(),
                views == rnode_parser::event_views(events@),
                (*self, rnode::frame_views(packets@)) == after_reports(
                    *old(self),
                    views,
                    i as int,
                ),
            decreases events@.len() - i,
        {
            let ghost before = rnode::frame_views(packets@);
            assert(views[i as int] == events@[i as int]@);
            match &events[i] {
                RnodeEvent::Data { vport, data } => {
                    packets.push(bytes::to_vec(data));
                    assert(rnode::frame_views(packets@) =~= before.push(data@));
                },
                RnodeEvent::Ready(ready) => {
                    self.interface_ready = *ready;
                },
                RnodeEvent::Status(status) => {
                    if status.rssi.is_some() {
                        self.status.rssi = status.rssi;
                    }
                    if let Some(snr) = status.snr {
                        self.status.snr = Some(snr);
                        self.status.quality = RnodeStatus::quality_for(snr, self.echo.spreadingfactor);
                    }
                    if status.stat_rx.is_some() {
                        self.status.stat_rx = status.stat_rx;
                    }
                    if status.stat_tx.is_some() {
                        self.status.stat_tx = status.stat_tx;
                    }
                },
                _ => {},
            }
            i += 1;
        }
        packets
    }

    /// Takes in the reports of a modem with virtual ports. Returns the packets among them with
    /// their ports.
    pub fn take_port_reports(&mut self, events: &Vec<RnodeEvent>) -> (packets: Vec<(u8, Vec<u8>)>)
        ensures
            (*final(self), routed_views(packets@)) == after_port_reports(
                *old(self),
                rnode_parser::event_views(events@),
                events@.len() as int,
            ),
    {
        let mut packets: Vec<(u8, Vec<u8>)> = Vec::new();
        let mut i: usize = 0;
        let ghost views = rnode_parser::event_views(events@);
        assert(routed_views(packets@) =~= Seq::<(u8, Seq<u8>)>::empty());
        while i < events.len()
            invariant
                i <= events@.len(),
                views == rnode_parser::event_views(events@),
                (*self, routed_views(packets@)) == after_port_reports(
                    *old(self),
                    views,
                    i as int,
                ),
            decreases events@.len() - i,
        {
            let ghost before = routed_views(packets@);
            assert(views[i as int] == events@[i as int]@);
            match &events[i] {
                RnodeEvent::Data { vport, data } => {
                    if let Some(port) = *vport {
                        packets.push((port, bytes::to_vec(data)));
                        assert(routed_views(packets@) =~= before.push((port, data@)));
                    }
                },
                RnodeEvent::Status(status) => {
                    if status.rssi.is_some() {
                        self.status.rssi = status.rssi;
                    }
                    if status.snr.is_some() {
                        self.status.snr = status.snr;
                    }
                },
                _ => {},
            }
            i += 1;
        }
        packets
    }

    /// Whether a packet may be sent: with flow control, when the modem is ready.
    pub fn may_transmit(&self, flow_control: bool) -> (r: bool)
        ensures
            r == (!flow_control || self.interface_ready),
    {
        !flow_control || self.interface_ready
    }

    /// What comes of the wait to send a packet: whether it may be sent, once that is known. While the
    /// modem is not ready the wait goes on, unless it is cancelled.
    pub fn wait_for_interface_ready(&self, flow_control: bool, cancelled: bool) -> (r: Option<bool>)
        ensures
            r == (if !flow_control || self.interface_ready {
                Some(true)
            } else if cancelled {
                Some(false)
            } else {
                None
            }),
    {
        if self.may_transmit(flow_control) {
            Some(true)
        } else if cancelled {
            Some(false)
        } else {
            None
        }
    }

    /// A packet has been sent: with flow control, the modem has to report that it is ready again.
    pub fn transmitted(&mut self, flow_control: bool)
        ensures
            *final(self) == (RnodeShared {
                interface_ready: old(self).interface_ready && !flow_control,
                ..*old(self)
            }),
    {
        if flow_control {
            self.interface_ready = false;
        }
    }
}

/// With flow control each packet takes a report of the modem that it is ready: after one was sent,
/// none may be sent whatever else the modem reports.
pub proof fn one_packet_per_ready(s: RnodeShared, events: Seq<EventView>, n: int)
    requires
        0 <= n <= events.len(),
        !s.interface_ready,
        forall|i: int| 0 <= i < events.len() ==> #[trigger] events[i] != EventView::Ready(true),
    ensures
        !after_reports(s, events, n).0.interface_ready,
    decreases n,
{
    if n > 0 {
        one_packet_per_ready(s, events, n - 1);
        assert(events[n - 1] != EventView::Ready(true));
    }
}

/// The frames that send a packet on a virtual port: the port is selected, and the packet is sent
/// like any other.
pub fn vport_transmit_frames(index: u8, data: &[u8]) -> (r: (Vec<u8>, Vec<u8>))
    ensures
        r.0@ == rnode::command_frame(CMD_SEL_INT, seq![index]),
        r.1@ == rnode::command_frame(CMD_DATA, data@),
{
    let selection: [u8; 1] = [index];
    assert(selection@ =~= seq![index]);
    (kiss_frame(CMD_SEL_INT, &selection), kiss_frame(CMD_DATA, data))
}

/// Where a modem is reached.
#[derive(Debug, Clone, Copy, PartialEq, Eq, Structural)]
pub enum LinkKind {
    Network,
    Serial,
    /// Nothing is configured.
    Missing,
}

/// Where a modem with these settings is reached: a network address goes first.
pub open spec fn link_kind(tcp_addr: Option<String>, serial_port: Option<String>) -> LinkKind {
    if tcp_addr is Some {
        LinkKind::Network
    } else if serial_port is Some {
        LinkKind::Serial
    } else {
        LinkKind::Missing
    }
}

fn choose_link(tcp_addr: &Option<String>, serial_port: &Option<String>) -> (r: LinkKind)
    ensures
        r == link_kind(*tcp_addr, *serial_port),
{
    if tcp_addr.is_some() {
        LinkKind::Network
    } else if serial_port.is_some() {
        LinkKind::Serial
    } else {
        LinkKind::Missing
    }
}

/// How long to wait before an attempt to open a serial port, of which there are five; `None` when
/// there is none left.
pub fn open_wait(attempt: u64) -> (r: Option<u64>)
    ensures
        r == (if attempt < 5 {
            Some((attempt * 200_000_000) as u64)
        } else {
            None
        }),
{
    if attempt < 5 {
        Some(attempt * 200_000_000)
    } else {
        None
    }
}

/// The interface of a single modem.
pub struct RnodeInterface {
    pub tcp_addr: Option<String>,
    pub serial_port: Option<String>,
    pub baudrate: u32,
    pub config: RnodeRadioConfig,
    /// Each packet waits for the modem to be ready.
    pub flow_control: bool,
}

impl RnodeInterface {
    /// The life of the interface.
    pub fn lifecycle(&self) -> (r: Lifecycle)
        ensures
            r == lifecycle::started(Medium::Radio, true),
    {
        Lifecycle::new(Medium::Radio, true)
    }

    /// A modem at a network address.
    pub fn tcp(addr: &str, config: RnodeRadioConfig) -> (r: Self)
        ensures
            r.tcp_addr is Some && r.tcp_addr->0@ == addr@,
            r.serial_port is None,
            r.baudrate == 115200,
            r.config == config,
            !r.flow_control,
    {
        RnodeInterface {
            tcp_addr: Some(addr.to_owned()),
            serial_port: None,
            baudrate: 115200,
            config,
            flow_control: false,
        }
    }

    /// A modem on a serial port.
    pub fn serial(port: &str, baudrate: u32, config: RnodeRadioConfig) -> (r: Self)
        ensures
            r.tcp_addr is None,
            r.serial_port is Some && r.serial_port->0@ == port@,
            r.baudrate == baudrate,
            r.config == config,
            !r.flow_control,
    {
        RnodeInterface {
            tcp_addr: None,
            serial_port: Some(port.to_owned()),
            baudrate,
            config,
            flow_control: false,
        }
    }

    /// The same interface with flow control switched.
    pub fn with_flow_control(self, flow_control: bool) -> (r: Self)
        ensures
            r == (RnodeInterface { flow_control, ..self }),
    {
        RnodeInterface { flow_control, ..self }
    }

    /// Where the modem is reached.
    pub fn link(&self) -> (r: LinkKind)
        ensures
            r == link_kind(self.tcp_addr, self.serial_port),
    {
        choose_link(&self.tcp_addr, &self.serial_port)
    }
}

/// A virtual port and the settings of its radio.
#[derive(Debug, Clone, Copy)]
pub struct RnodeVport {
    pub index: u8,
    pub config: RnodeRadioConfig,
}

/// Frames with the selection of a port in front of each.
pub open spec fn prefixed(index: u8, frames: Seq<Seq<u8>>) -> Seq<Seq<u8>> {
    frames.map_values(
        |f: Seq<u8>| rnode::command_frame(CMD_SEL_INT, seq![index]) + f,
    )
}

impl RnodeVport {
    /// The frames that configure the radio of the port, each with the selection of the port.
    pub fn configuration_frames(&self, radio_state: u8) -> (frames: Vec<Vec<u8>>)
        ensures
            rnode::frame_views(frames@) == prefixed(
                self.index,
                rnode::frames_for(self.config, radio_state),
            ),
    {
        let selection: [u8; 1] = [self.index];
        assert(selection@ =~= seq![self.index]);
        let prefix: Vec<u8> = kiss_frame(CMD_SEL_INT, &selection);
        let plain: Vec<Vec<u8>> = self.config.configuration_frames(radio_state);
        let ghost views = rnode::frame_views(plain@);
        let mut frames: Vec<Vec<u8>> = Vec::new();
        let mut i: usize = 0;
        assert(rnode::frame_views(frames@) =~= prefixed(self.index, views.take(0)));
        while i < plain.len()
            invariant
                i <= plain@.len(),
                views == rnode::frame_views(plain@),
                prefix@ == rnode::command_frame(CMD_SEL_INT, seq![self.index]),
                rnode::frame_views(frames@) == prefixed(self.index, views.take(i as int)),
            decreases plain@.len() - i,
        {
            let ghost before = rnode::frame_views(frames@);
            assert(views[i as int] == plain@[i as int]@);
            let mut frame: Vec<u8> = bytes::to_vec(&prefix);
            bytes::append(&mut frame, &plain[i]);
            let ghost view = frame@;
            frames.push(frame);
            assert(rnode::frame_views(frames@) =~= before.push(view));
            i += 1;
            assert(rnode::frame_views(frames@) =~= prefixed(self.index, views.take(i as int)));
        }
        assert(views.take(i as int) =~= views);
        frames
    }
}

/// The interface of a modem with virtual ports.
pub struct RnodeMultiInterface {
    pub tcp_addr: Option<String>,
    pub serial_port: Option<String>,
    pub baudrate: u32,
    pub vports: Vec<RnodeVport>,
}

/// The settings that a modem with virtual ports is checked with where it has none.
pub open spec fn fallback_config() -> RnodeRadioConfig {
    RnodeRadioConfig {
        frequency: 867_500_000,
        bandwidth: 125_000,
        txpower: 0,
        spreadingfactor: 9,
        codingrate: 5,
        st_alock: None,
        lt_alock: None,
    }
}

impl RnodeMultiInterface {
    /// The life of the interface.
    pub fn lifecycle(&self) -> (r: Lifecycle)
        ensures
            r == lifecycle::started(Medium::Radio, true),
    {
        Lifecycle::new(Medium::Radio, true)
    }

    /// A modem at a network address.
    pub fn tcp(addr: &str, vports: Vec<RnodeVport>) -> (r: Self)
        ensures
            r.tcp_addr is Some && r.tcp_addr->0@ == addr@,
            r.serial_port is None,
            r.baudrate == 115200,
            r.vports == vports,
    {
        RnodeMultiInterface {
            tcp_addr: Some(addr.to_owned()),
            serial_port: None,
            baudrate: 115200,
            vports,
        }
    }

    /// A modem on a serial port.
    pub fn serial(port: &str, baudrate: u32, vports: Vec<RnodeVport>) -> (r: Self)
        ensures
            r.tcp_addr is None,
            r.serial_port is Some && r.serial_port->0@ == port@,
            r.baudrate == baudrate,
            r.vports == vports,
    {
        RnodeMultiInterface {
            tcp_addr: None,
            serial_port: Some(port.to_owned()),
            baudrate,
            vports,
        }
    }

    /// Where the modem is reached.
    pub fn link(&self) -> (r: LinkKind)
        ensures
            r == link_kind(self.tcp_addr, self.serial_port),
    {
        choose_link(&self.tcp_addr, &self.serial_port)
    }

    /// The settings that the modem is checked with: those of its first port.
    pub fn first_config(&self) -> (r: RnodeRadioConfig)
        ensures
            r == (if self.vports@.len() > 0 {
                self.vports@[0].config
            } else {
                fallback_config()
            }),
    {
        if self.vports.len() > 0 {
            self.vports[0].config
        } else {
            RnodeRadioConfig {
                frequency: 867_500_000,
                bandwidth: 125_000,
                txpower: 0,
                spreadingfactor: 9,
                codingrate: 5,
                st_alock: None,
                lt_alock: None,
            }
        }
    }
}

impl Interface for RnodeInterface {
    fn mtu() -> (r: usize)
        ensures
            r == HW_MTU,
    {
        HW_MTU
    }
}

impl Interface for RnodeMultiInterface {
    fn mtu() -> (r: usize)
        ensures
            r == HW_MTU,
    {
        HW_MTU
    }
}

/// A virtual port carries what its device carries.
impl Interface for RnodeVport {
    fn mtu() -> (r: usize)
        ensures
            r == HW_MTU,
    {
        HW_MTU
    }
}

} // verus!
