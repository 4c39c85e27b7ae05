//! Radio modems that speak a KISS command protocol over a serial or a network link.
//!
//! A single modem is one interface. A multi-band modem has up to twelve virtual ports, each an
//! interface of its own: the port is selected before each packet that is sent, and the command of
//! a received packet says which port it came in on.

use vstd::prelude::*;

use crate::bytes;
use crate::iface::kiss;

pub use crate::iface::rnode_parser::{RnodeEvent, RnodeParser};
pub use crate::iface::rnode_session::{
    vport_transmit_frames, RnodeHandshake, RnodeInterface, RnodeMultiInterface, RnodeShared,
    RnodeVport,
};

verus! {

pub const FEND: u8 = 0xC0;

pub const FESC: u8 = 0xDB;

pub const TFEND: u8 = 0xDC;

pub const TFESC: u8 = 0xDD;

pub const CMD_UNKNOWN: u8 = 0xFE;

pub const CMD_DATA: u8 = 0x00;

pub const CMD_FREQUENCY: u8 = 0x01;

pub const CMD_BANDWIDTH: u8 = 0x02;

pub const CMD_TXPOWER: u8 = 0x03;

pub const CMD_SF: u8 = 0x04;

pub const CMD_CR: u8 = 0x05;

pub const CMD_RADIO_STATE: u8 = 0x06;

pub const CMD_RADIO_LOCK: u8 = 0x07;

pub const CMD_DETECT: u8 = 0x08;

pub const CMD_LEAVE: u8 = 0x0A;

pub const CMD_ST_ALOCK: u8 = 0x0B;

pub const CMD_LT_ALOCK: u8 = 0x0C;

pub const CMD_READY: u8 = 0x0F;

pub const CMD_STAT_RX: u8 = 0x21;

pub const CMD_STAT_TX: u8 = 0x22;

pub const CMD_STAT_RSSI: u8 = 0x23;

pub const CMD_STAT_SNR: u8 = 0x24;

pub const CMD_STAT_CHTM: u8 = 0x25;

pub const CMD_STAT_PHYPRM: u8 = 0x26;

pub const CMD_STAT_BAT: u8 = 0x27;

pub const CMD_STAT_CSMA: u8 = 0x28;

pub const CMD_STAT_TEMP: u8 = 0x29;

pub const CMD_BLINK: u8 = 0x30;

pub const CMD_RANDOM: u8 = 0x40;

pub const CMD_FB_EXT: u8 = 0x41;

pub const CMD_FB_READ: u8 = 0x42;

pub const CMD_FB_WRITE: u8 = 0x43;

pub const CMD_PLATFORM: u8 = 0x48;

pub const CMD_MCU: u8 = 0x49;

pub const CMD_FW_VERSION: u8 = 0x50;

pub const CMD_ROM_READ: u8 = 0x51;

pub const CMD_RESET: u8 = 0x55;

pub const CMD_ERROR: u8 = 0x90;

pub const DETECT_REQ: u8 = 0x73;

pub const DETECT_RESP: u8 = 0x46;

pub const RADIO_STATE_ON: u8 = 0x01;

pub const RADIO_STATE_OFF: u8 = 0x00;

/// What is taken off a reported signal strength.
pub const RSSI_OFFSET: i16 = 157;

/// The oldest firmware that is supported.
pub const REQUIRED_FW_VER_MAJ: u8 = 1;

pub const REQUIRED_FW_VER_MIN: u8 = 52;

/// Signal-to-noise ratios in quarters of a decibel: the worst usable one at spreading factor
/// seven, the one of full quality, and by how much the worst falls with each factor above seven.
pub const Q_SNR_MIN_BASE: i32 = -36;

pub const Q_SNR_MAX: i32 = 24;

pub const Q_SNR_STEP: i32 = 8;

/// Selects a virtual port.
pub const CMD_SEL_INT: u8 = 0x1F;

/// The longest payload that is collected.
pub const MAX_PAYLOAD: usize = 2048;

/// The commands of packets that came in on the virtual ports.
pub const CMD_INT_DATA: [u8; 12] = [
    0x00, 0x10, 0x20, 0x70, 0x75, 0x90, 0xA0, 0xB0, 0xC0, 0xD0, 0xE0, 0xF0,
];

/// Appends the escaped form of `data`.
pub fn kiss_escape(data: &[u8], out: &mut Vec<u8>)
    ensures
        final(out)@ == old(out)@ + kiss::escaped(data@),
{
    bytes::append(out, &kiss::escape(data));
}

/// A command frame.
pub open spec fn command_frame(command: u8, payload: Seq<u8>) -> Seq<u8> {
    seq![FEND, command] + kiss::escaped(payload) + seq![FEND]
}

/// A command frame.
pub fn kiss_frame(command: u8, payload: &[u8]) -> (frame: Vec<u8>)
    ensures
        frame@ == command_frame(command, payload@),
{
    let mut frame: Vec<u8> = Vec::new();
    frame.push(FEND);
    frame.push(command);
    kiss_escape(payload, &mut frame);
    frame.push(FEND);
    assert(frame@ =~= command_frame(command, payload@));
    frame
}

/// A command frame with one byte.
fn byte_frame(command: u8, value: u8) -> (frame: Vec<u8>)
    ensures
        frame@ == command_frame(command, seq![value]),
{
    let payload: [u8; 1] = [value];
    assert(payload@ =~= seq![value]);
    kiss_frame(command, &payload)
}

/// Asks what a modem is.
pub open spec fn detect_bytes() -> Seq<u8> {
    command_frame(CMD_DETECT, seq![DETECT_REQ]) + command_frame(CMD_FW_VERSION, seq![0u8])
        + command_frame(CMD_PLATFORM, seq![0u8]) + command_frame(CMD_MCU, seq![0u8])
}

/// Asks what a modem is: whether it is one, its firmware, its platform and its controller.
pub fn detect_request() -> (out: Vec<u8>)
    ensures
        out@ == detect_bytes(),
{
    let mut out: Vec<u8> = byte_frame(CMD_DETECT, DETECT_REQ);
    bytes::append(&mut out, &byte_frame(CMD_FW_VERSION, 0x00));
    bytes::append(&mut out, &byte_frame(CMD_PLATFORM, 0x00));
    bytes::append(&mut out, &byte_frame(CMD_MCU, 0x00));
    out
}

/// Tells a modem that its host leaves.
pub fn leave_request() -> (out: Vec<u8>)
    ensures
        out@ == command_frame(CMD_LEAVE, seq![0xFFu8]),
{
    byte_frame(CMD_LEAVE, 0xFF)
}

/// Resets a modem.
pub fn reset_request() -> (out: Vec<u8>)
    ensures
        out@ == command_frame(CMD_RESET, seq![0xF8u8]),
{
    byte_frame(CMD_RESET, 0xF8)
}

/// The settings of a radio. Airtime locks are in hundredths of a percent.
#[derive(Debug, Clone, Copy, PartialEq, Eq, Structural)]
pub struct RnodeRadioConfig {
    pub frequency: u64,
    pub bandwidth: u32,
    pub txpower: u8,
    pub spreadingfactor: u8,
    pub codingrate: u8,
    /// Short-term airtime lock.
    pub st_alock: Option<u16>,
    /// Long-term airtime lock.
    pub lt_alock: Option<u16>,
}

/// Settings as a radio has reported them.
#[derive(Debug, Clone, Copy, PartialEq, Eq, Structural)]
pub struct RnodeEchoState {
    pub frequency: Option<u64>,
    pub bandwidth: Option<u32>,
    pub txpower: Option<u8>,
    pub spreadingfactor: Option<u8>,
    pub codingrate: Option<u8>,
    pub radio_state: Option<u8>,
    pub st_alock: Option<u16>,
    pub lt_alock: Option<u16>,
}

/// Nothing reported yet.
pub open spec fn no_echo() -> RnodeEchoState {
    RnodeEchoState {
        frequency: None,
        bandwidth: None,
        txpower: None,
        spreadingfactor: None,
        codingrate: None,
        radio_state: None,
        st_alock: None,
        lt_alock: None,
    }
}

impl Default for RnodeEchoState {
    fn default() -> (r: Self)
        ensures
            r == no_echo(),
    {
        RnodeEchoState {
            frequency: None,
            bandwidth: None,
            txpower: None,
            spreadingfactor: None,
            codingrate: None,
            radio_state: None,
            st_alock: None,
            lt_alock: None,
        }
    }
}

/// The newer of two readings, where there is one.
pub open spec fn newer<T>(old_value: Option<T>, value: Option<T>) -> Option<T> {
    if value is Some {
        value
    } else {
        old_value
    }
}

/// Reported settings with newer ones laid over them.
pub open spec fn merged(a: RnodeEchoState, b: RnodeEchoState) -> RnodeEchoState {
    RnodeEchoState {
        frequency: newer(a.frequency, b.frequency),
        bandwidth: newer(a.bandwidth, b.bandwidth),
        txpower: newer(a.txpower, b.txpower),
        spreadingfactor: newer(a.spreadingfactor, b.spreadingfactor),
        codingrate: newer(a.codingrate, b.codingrate),
        radio_state: newer(a.radio_state, b.radio_state),
        st_alock: newer(a.st_alock, b.st_alock),
        lt_alock: newer(a.lt_alock, b.lt_alock),
    }
}

impl RnodeEchoState {
    /// Lays newer settings over these.
    pub fn merge(&mut self, other: RnodeEchoState)
        ensures
            *final(self) == merged(*old(self), other),
    {
        if other.frequency.is_some() {
            self.frequency = other.frequency;
        }
        if other.bandwidth.is_some() {
            self.bandwidth = other.bandwidth;
        }
        if other.txpower.is_some() {
            self.txpower = other.txpower;
        }
        if other.spreadingfactor.is_some() {
            self.spreadingfactor = other.spreadingfactor;
        }
        if other.codingrate.is_some() {
            self.codingrate = other.codingrate;
        }
        if other.radio_state.is_some() {
            self.radio_state = other.radio_state;
        }
        if other.st_alock.is_some() {
            self.st_alock = other.st_alock;
        }
        if other.lt_alock.is_some() {
            self.lt_alock = other.lt_alock;
        }
    }
}

/// The frames that configure a radio, without the airtime locks and the state.
pub open spec fn basic_frames(c: RnodeRadioConfig) -> Seq<Seq<u8>> {
    seq![
        command_frame(CMD_FREQUENCY, bytes::be_bytes((c.frequency % 0x1_0000_0000) as nat, 4)),
        command_frame(CMD_BANDWIDTH, bytes::be_bytes(c.bandwidth as nat, 4)),
        command_frame(CMD_TXPOWER, seq![c.txpower]),
        command_frame(CMD_SF, seq![c.spreadingfactor]),
        command_frame(CMD_CR, seq![c.codingrate]),
    ]
}

/// The frame that sets an airtime lock, where there is one.
pub open spec fn lock_frames(command: u8, lock: Option<u16>) -> Seq<Seq<u8>> {
    match lock {
        Some(lock) => seq![command_frame(command, bytes::be_bytes(lock as nat, 2))],
        None => Seq::empty(),
    }
}

/// The frames that configure a radio, in the order in which they are sent.
pub open spec fn frames_for(c: RnodeRadioConfig, radio_state: u8) -> Seq<Seq<u8>> {
    basic_frames(c) + lock_frames(CMD_ST_ALOCK, c.st_alock) + lock_frames(
        CMD_LT_ALOCK,
        c.lt_alock,
    ) + seq![command_frame(CMD_RADIO_STATE, seq![radio_state])]
}

/// Frames as mathematical values.
pub open spec fn frame_views(frames: Seq<Vec<u8>>) -> Seq<Seq<u8>> {
    frames.map_values(|f: Vec<u8>| f@)
}

/// What keeps reported settings from being those of a configuration; `None` when they are.
pub open spec fn mismatch(c: RnodeRadioConfig, echoed: RnodeEchoState) -> Option<Seq<char>> {
    if echoed.frequency is None {
        Some("device did not report frequency"@)
    } else if c.frequency > echoed.frequency->0 + 100 || echoed.frequency->0 > c.frequency + 100 {
        Some("frequency mismatch"@)
    } else if echoed.bandwidth != Some(c.bandwidth) {
        Some("bandwidth mismatch"@)
    } else if echoed.txpower != Some(c.txpower) {
        Some("TX power mismatch"@)
    } else if echoed.spreadingfactor != Some(c.spreadingfactor) {
        Some("spreading factor mismatch"@)
    } else if echoed.codingrate != Some(c.codingrate) {
        Some("coding rate mismatch"@)
    } else if echoed.radio_state != Some(RADIO_STATE_ON) {
        Some("radio state mismatch"@)
    } else {
        None
    }
}

/// Whether a byte was reported.
fn is_byte(reported: Option<u8>, value: u8) -> (r: bool)
    ensures
        r == (reported == Some(value)),
{
    match reported {
        Some(reported) => reported == value,
        None => false,
    }
}

/// Appends a command frame of two big-endian bytes.
fn push_lock(frames: &mut Vec<Vec<u8>>, command: u8, lock: Option<u16>)
    ensures
        frame_views(final(frames)@) == frame_views(old(frames)@) + lock_frames(command, lock),
{
    let ghost before = frame_views(frames@);
    match lock {
        Some(lock) => {
            let mut payload: Vec<u8> = Vec::new();
            bytes::append_be16(&mut payload, lock);
            assert(payload@ =~= bytes::be_bytes(lock as nat, 2));
            frames.push(kiss_frame(command, &payload));
            assert(frame_views(frames@) =~= before + lock_frames(command, Some(lock)));
        },
        None => {
            assert(frame_views(frames@) =~= before + lock_frames(command, None));
        },
    }
}

/// A command frame of four big-endian bytes.
fn word_frame(command: u8, value: u32) -> (frame: Vec<u8>)
    ensures
        frame@ == command_frame(command, bytes::be_bytes(value as nat, 4)),
{
    let mut payload: Vec<u8> = Vec::new();
    bytes::append_be32(&mut payload, value);
    assert(payload@ =~= bytes::be_bytes(value as nat, 4));
    kiss_frame(command, &payload)
}

impl RnodeRadioConfig {
    /// The frames that configure a radio. Of the frequency the low 32 bits are sent.
    pub fn configuration_frames(&self, radio_state: u8) -> (frames: Vec<Vec<u8>>)
        ensures
            frame_views(frames@) == frames_for(*self, radio_state),
    {
        let mut frames: Vec<Vec<u8>> = Vec::new();
        frames.push(word_frame(CMD_FREQUENCY, (self.frequency % 0x1_0000_0000) as u32));
        frames.push(word_frame(CMD_BANDWIDTH, self.bandwidth));
        frames.push(byte_frame(CMD_TXPOWER, self.txpower));
        frames.push(byte_frame(CMD_SF, self.spreadingfactor));
        frames.push(byte_frame(CMD_CR, self.codingrate));
        assert(frame_views(frames@) =~= basic_frames(*self));
        push_lock(&mut frames, CMD_ST_ALOCK, self.st_alock);
        push_lock(&mut frames, CMD_LT_ALOCK, self.lt_alock);
        let ghost before = frame_views(frames@);
        frames.push(byte_frame(CMD_RADIO_STATE, radio_state));
        assert(frame_views(frames@) =~= before + seq![
            command_frame(CMD_RADIO_STATE, seq![radio_state]),
        ]);
        frames
    }

    /// Whether reported settings are those of this configuration, on the air: the frequency up to
    /// a hundred hertz, the others exactly.
    pub fn validate(&self, echoed: &RnodeEchoState) -> (r: Result<(), &'static str>)
        ensures
            match mismatch(*self, *echoed) {
                Some(reason) => r is Err && r->Err_0@ == reason,
                None => r is Ok,
            },
    {
        let frequency: u64 = match echoed.frequency {
            Some(frequency) => frequency,
            None => return Err("device did not report frequency"),
        };
        let apart: u64 = if self.frequency > frequency {
            self.frequency - frequency
        } else {
            frequency - self.frequency
        };
        if apart > 100 {
            return Err("frequency mismatch");
        }
        let same_bandwidth: bool = match echoed.bandwidth {
            Some(bandwidth) => bandwidth == self.bandwidth,
            None => false,
        };
        if !same_bandwidth {
            return Err("bandwidth mismatch");
        }
        if !is_byte(echoed.txpower, self.txpower) {
            return Err("TX power mismatch");
        }
        if !is_byte(echoed.spreadingfactor, self.spreadingfactor) {
            return Err("spreading factor mismatch");
        }
        if !is_byte(echoed.codingrate, self.codingrate) {
            return Err("coding rate mismatch");
        }
        if !is_byte(echoed.radio_state, RADIO_STATE_ON) {
            return Err("radio state mismatch");
        }
        Ok(())
    }
}

/// A link quality: `num / den` percent.
#[derive(Debug, Clone, Copy, PartialEq, Eq, Structural)]
pub struct Quality {
    pub num: u32,
    pub den: u32,
}

/// What a radio reports of itself. The signal-to-noise ratio is in quarters of a decibel.
#[derive(Debug, Clone, Copy, PartialEq, Eq, Structural)]
pub struct RnodeStatus {
    pub stat_rx: Option<u32>,
    pub stat_tx: Option<u32>,
    pub rssi: Option<i16>,
    pub snr: Option<i16>,
    pub quality: Option<Quality>,
    pub battery: Option<u16>,
    pub temperature: Option<i16>,
}

/// Nothing reported yet.
pub open spec fn no_status() -> RnodeStatus {
    RnodeStatus {
        stat_rx: None,
        stat_tx: None,
        rssi: None,
        snr: None,
        quality: None,
        battery: None,
        temperature: None,
    }
}

impl Default for RnodeStatus {
    fn default() -> (r: Self)
        ensures
            r == no_status(),
    {
        RnodeStatus {
            stat_rx: None,
            stat_tx: None,
            rssi: None,
            snr: None,
            quality: None,
            battery: None,
            temperature: None,
        }
    }
}

/// The worst usable signal-to-noise ratio at a spreading factor.
pub open spec fn worst_snr(spreadingfactor: u8) -> int {
    Q_SNR_MIN_BASE - (if spreadingfactor > 7 {
        spreadingfactor - 7
    } else {
        0
    }) * 8
}

/// How far a signal-to-noise ratio is above the worst usable one, within what counts.
pub open spec fn snr_above(snr: int, spreadingfactor: u8) -> int {
    if snr < worst_snr(spreadingfactor) {
        0
    } else if snr > Q_SNR_MAX {
        Q_SNR_MAX - worst_snr(spreadingfactor)
    } else {
        snr - worst_snr(spreadingfactor)
    }
}

/// The link quality of a signal-to-noise ratio, where the spreading factor is known.
pub open spec fn quality_of(snr: i16, spreadingfactor: Option<u8>) -> Option<Quality> {
    match spreadingfactor {
        Some(factor) => Some(
            Quality {
                num: (100 * snr_above(snr as int, factor)) as u32,
                den: (Q_SNR_MAX - worst_snr(factor)) as u32,
            },
        ),
        None => None,
    }
}

impl RnodeStatus {
    /// The link quality of a signal-to-noise ratio: nothing at the worst usable ratio, a hundred
    /// percent at the best, in proportion between. It takes the spreading factor to say.
    pub fn quality_for(snr: i16, spreadingfactor: Option<u8>) -> (r: Option<Quality>)
        ensures
            r is Some <==> spreadingfactor is Some,
            r is Some ==> r->0.num == 100 * snr_above(snr as int, spreadingfactor->0)
                && r->0.den == Q_SNR_MAX - worst_snr(spreadingfactor->0),
            r == quality_of(snr, spreadingfactor),
    {
        match spreadingfactor {
            Some(factor) => {
                let above: i32 = if factor > 7 {
                    factor as i32 - 7
                } else {
                    0
                };
                let worst: i32 = Q_SNR_MIN_BASE - above * 8;
                let span: i32 = Q_SNR_MAX - worst;
                let snr: i32 = snr as i32;
                let level: i32 = if snr < worst {
                    0
                } else if snr > Q_SNR_MAX {
                    span
                } else {
                    snr - worst
                };
                Some(Quality { num: (100 * level) as u32, den: span as u32 })
            },
            None => None,
        }
    }
}

/// A link quality is a percentage.
pub proof fn quality_is_a_percentage(snr: int, spreadingfactor: u8)
    ensures
        0 <= 100 * snr_above(snr, spreadingfactor) <= 100 * (Q_SNR_MAX - worst_snr(
            spreadingfactor,
        )),
        Q_SNR_MAX - worst_snr(spreadingfactor) > 0,
{
}

} // verus!
