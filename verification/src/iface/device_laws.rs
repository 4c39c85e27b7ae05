//! What holds of the devices behind interfaces: which bytes frames are made of, when a radio is
//! accepted, and what its reports mean.

use vstd::prelude::*;

use crate::bytes;
use crate::error::RnsError;
use crate::iface::ax25;
use crate::iface::hdlc;
use crate::iface::kiss;
use crate::iface::kiss::{CsmaParams, ModeView};
use crate::iface::rnode;
use crate::iface::rnode::{RnodeEchoState, RnodeRadioConfig, RnodeStatus};
use crate::iface::rnode_parser;
use crate::iface::rnode_parser::EventView;
use crate::iface::rnode_session::{
    after_detect, after_detects, after_poll, after_port_report, after_report, after_reports,
    collected_from, link_kind, supported, HandshakeView, InputView, LinkKind, Phase, RnodeShared,
    StepView,
};

verus! {

/// In an HDLC frame the bytes 0x7e and 0x7d travel as 0x7d 0x5e and 0x7d 0x5d, and all others as they
/// are; frames begin and end with 0x7e.
pub proof fn hdlc_bytes(b: u8, data: Seq<u8>)
    ensures
        hdlc::escaped_byte(0x7e) == seq![0x7du8, 0x5e],
        hdlc::escaped_byte(0x7d) == seq![0x7du8, 0x5d],
        b != 0x7e && b != 0x7d ==> hdlc::escaped_byte(b) == seq![b],
        hdlc::escaped(data.push(b)) == hdlc::escaped(data) + hdlc::escaped_byte(b),
        hdlc::escaped(Seq::<u8>::empty()).len() == 0,
        hdlc::framed(data) == seq![0x7eu8] + hdlc::escaped(data) + seq![0x7eu8],
{
    assert(0x7eu8 ^ 0x20 == 0x5e && 0x7du8 ^ 0x20 == 0x5d) by (bit_vector);
    assert(data.push(b).drop_last() =~= data);
}

/// In a KISS frame the bytes 0xc0 and 0xdb travel as 0xdb 0xdc and 0xdb 0xdd, and all others as they
/// are; data frames begin with 0xc0 0x00 and end with 0xc0.
pub proof fn kiss_bytes(b: u8, data: Seq<u8>)
    ensures
        kiss::escaped_byte(0xc0) == seq![0xdbu8, 0xdc],
        kiss::escaped_byte(0xdb) == seq![0xdbu8, 0xdd],
        b != 0xc0 && b != 0xdb ==> kiss::escaped_byte(b) == seq![b],
        kiss::escaped(data.push(b)) == kiss::escaped(data) + kiss::escaped_byte(b),
        kiss::escaped(Seq::<u8>::empty()).len() == 0,
        kiss::framed(data) == seq![0xc0u8, 0x00] + kiss::escaped(data) + seq![0xc0u8],
        kiss::unescaped(0xdc) == 0xc0,
        kiss::unescaped(0xdd) == 0xdb,
        rnode::command_frame(b, data) == seq![0xc0u8, b] + kiss::escaped(data) + seq![0xc0u8],
{
    assert(data.push(b).drop_last() =~= data);
}

/// A terminal is configured with its times in hundredths of a second, its persistence and flow
/// control, each in one byte and no more than 255.
pub proof fn terminals_are_configured(c: CsmaParams)
    ensures
        c.command_views().len() == 5,
        c.preamble < 2560 ==> c.command_views()[0] == seq![
            0xc0u8,
            0x01,
            (c.preamble / 10) as u8,
            0xc0,
        ],
        c.txtail < 2560 ==> c.command_views()[1] == seq![0xc0u8, 0x04, (c.txtail / 10) as u8, 0xc0],
        c.persistence < 256 ==> c.command_views()[2] == seq![
            0xc0u8,
            0x02,
            c.persistence as u8,
            0xc0,
        ],
        c.slottime < 2560 ==> c.command_views()[3] == seq![
            0xc0u8,
            0x03,
            (c.slottime / 10) as u8,
            0xc0,
        ],
        c.command_views()[4] == seq![0xc0u8, 0x0f, 0x01, 0xc0],
        c.preamble >= 2560 ==> c.command_views()[0][2] == 255,
        c.txtail >= 2560 ==> c.command_views()[1][2] == 255,
        c.persistence >= 256 ==> c.command_views()[2][2] == 255,
        c.slottime >= 2560 ==> c.command_views()[3][2] == 255,
{
}

/// A ready frame is reported at its value byte, once, and opens the way only then.
pub proof fn ready_is_reported_once(d: kiss::DecoderView, value: u8, more: u8)
    requires
        d.in_frame,
        d.frame.len() == 0,
        d.mtu > 0,
        d.command == 0x0f,
        value != 0xc0,
        more != 0xc0,
    ensures
        kiss::events_of_byte(d, value) == seq![kiss::EventView::Ready],
        kiss::events_of_byte(kiss::after_byte(d, value), more).len() == 0,
        kiss::events_of_byte(kiss::after_byte(d, value), 0xc0).len() == 0,
{
}

/// The frame of a packet: bare, or behind sixteen bytes of addresses and control.
pub proof fn packets_are_framed_by_mode(data: Seq<u8>, callsign: Seq<char>, ssid: u8)
    ensures
        kiss::encoded(ModeView::Kiss, data) == kiss::framed(data),
        ({
            let frame = ax25::packed_frame(
                data,
                vstd::utf8::encode_utf8(callsign),
                ssid,
                ax25::default_destination(),
                0,
            );
            &&& kiss::encoded((ModeView::Ax25 { callsign, ssid }), data) == kiss::framed(frame)
            &&& frame.len() == 16 + data.len()
            &&& frame[14] == 0x03
            &&& frame[15] == 0xf0
            &&& kiss::packet_in((ModeView::Ax25 { callsign, ssid }), frame) == (if data.len() > 0 {
                Some(data)
            } else {
                None
            })
        }),
        kiss::packet_in(ModeView::Kiss, data) == Some(data),
        kiss::frame_limit(ModeView::Kiss) == 564,
        kiss::frame_limit((ModeView::Ax25 { callsign, ssid })) == 580,
{
    ax25::strip_inverts_pack(
        data,
        vstd::utf8::encode_utf8(callsign),
        ssid,
        ax25::default_destination(),
        0,
    );
}

/// An address is six shifted characters, padded, and the station number with its mark: the last
/// address of a header has its lowest bit set.
pub proof fn addresses_are_shifted(callsign: Seq<u8>, ssid: u8, last: bool, i: int)
    requires
        0 <= i < 6,
    ensures
        ax25::address(callsign, ssid, last).len() == 7,
        i < callsign.len() ==> ax25::address(callsign, ssid, last)[i] == callsign[i] << 1,
        i >= callsign.len() ==> ax25::address(callsign, ssid, last)[i] == 0x20,
        ax25::address(callsign, ssid, true)[6] == 0x60u8 | (ssid << 1) | 0x01u8,
        ax25::address(callsign, ssid, false)[6] == 0x60u8 | (ssid << 1),
{
}

/// A frame is the address of its destination, that of its source, which is the last, two bytes of
/// control, and the data.
pub proof fn frames_name_destination_and_source(
    data: Seq<u8>,
    source: Seq<u8>,
    source_ssid: u8,
    destination: Seq<u8>,
    destination_ssid: u8,
)
    ensures
        ax25::packed_frame(data, source, source_ssid, destination, destination_ssid)
            == ax25::address(destination, destination_ssid, false) + ax25::address(
            source,
            source_ssid,
            true,
        ) + seq![0x03u8, 0xf0] + data,
        ax25::default_destination() == seq![0x41u8, 0x50, 0x5a, 0x52, 0x4e, 0x53],
{
}

/// Reported settings are those of a configuration exactly when the frequency is no more than a
/// hundred hertz off, all others are the same, and the radio is on.
pub proof fn settings_are_checked(c: RnodeRadioConfig, e: RnodeEchoState)
    ensures
        rnode::mismatch(c, e) is None <==> {
            &&& e.frequency is Some
            &&& c.frequency - 100 <= e.frequency->0 <= c.frequency + 100
            &&& e.bandwidth == Some(c.bandwidth)
            &&& e.txpower == Some(c.txpower)
            &&& e.spreadingfactor == Some(c.spreadingfactor)
            &&& e.codingrate == Some(c.codingrate)
            &&& e.radio_state == Some(1u8)
        },
{
}

/// The frames that configure a radio: each setting in its own, the airtime locks only where they are
/// set, and the state last.
pub proof fn radios_are_configured(c: RnodeRadioConfig, state: u8)
    requires
        c.frequency < 0x1_0000_0000,
    ensures
        ({
            let frames = rnode::frames_for(c, state);
            let locks = (if c.st_alock is Some {
                1int
            } else {
                0
            }) + (if c.lt_alock is Some {
                1int
            } else {
                0
            });
            &&& frames.len() == 6 + locks
            &&& frames[0] == rnode::command_frame(0x01, bytes::be_bytes(c.frequency as nat, 4))
            &&& frames[1] == rnode::command_frame(0x02, bytes::be_bytes(c.bandwidth as nat, 4))
            &&& frames[2] == rnode::command_frame(0x03, seq![c.txpower])
            &&& frames[3] == rnode::command_frame(0x04, seq![c.spreadingfactor])
            &&& frames[4] == rnode::command_frame(0x05, seq![c.codingrate])
            &&& c.st_alock is Some ==> frames[5] == rnode::command_frame(
                0x0b,
                bytes::be_bytes(c.st_alock->0 as nat, 2),
            )
            &&& c.lt_alock is Some ==> frames[4 + locks] == rnode::command_frame(
                0x0c,
                bytes::be_bytes(c.lt_alock->0 as nat, 2),
            )
            &&& frames.last() == rnode::command_frame(0x06, seq![state])
        }),
{
}

/// A newer report goes over an older one, setting by setting; what it does not speak of stays.
pub proof fn newer_reports_win(a: RnodeEchoState, b: RnodeEchoState)
    ensures
        ({
            let m = rnode::merged(a, b);
            &&& m.frequency == (if b.frequency is Some { b.frequency } else { a.frequency })
            &&& m.bandwidth == (if b.bandwidth is Some { b.bandwidth } else { a.bandwidth })
            &&& m.txpower == (if b.txpower is Some { b.txpower } else { a.txpower })
            &&& m.spreadingfactor == (if b.spreadingfactor is Some {
                b.spreadingfactor
            } else {
                a.spreadingfactor
            })
            &&& m.codingrate == (if b.codingrate is Some { b.codingrate } else { a.codingrate })
            &&& m.radio_state == (if b.radio_state is Some { b.radio_state } else { a.radio_state })
            &&& m.st_alock == (if b.st_alock is Some { b.st_alock } else { a.st_alock })
            &&& m.lt_alock == (if b.lt_alock is Some { b.lt_alock } else { a.lt_alock })
        }),
{
}

/// The link quality is nothing at or below the worst usable ratio, which is nine decibels below zero
/// and two more for each spreading factor above seven; it is a hundred percent from six decibels
/// on, and rises in proportion between. (Ratios are in quarters of a decibel.)
pub proof fn quality_follows_the_ratio(snr: i16, factor: u8)
    ensures
        ({
            let worst = -36 - (if factor > 7 {
                8 * (factor - 7)
            } else {
                0
            });
            let q = rnode::quality_of(snr, Some(factor));
            &&& q is Some
            &&& (q->0).den == 24 - worst
            &&& snr <= worst ==> (q->0).num == 0
            &&& worst <= snr <= 24 ==> (q->0).num == 100 * (snr - worst)
            &&& snr >= 24 ==> (q->0).num == 100 * (24 - worst)
        }),
        rnode::quality_of(snr, None) is None,
{
}

/// Firmware from 1.52 on is supported, and none before.
pub proof fn firmware_from_a_version_on(major: u8, minor: u8)
    ensures
        supported(Some((major, minor))) <==> major * 256 + minor >= 1 * 256 + 52,
        !supported(None),
{
}

/// A modem whose firmware is supported is configured next; one whose firmware is not has failed.
/// Until it has said so it is asked for ten seconds, two at a time.
pub proof fn modems_are_asked_first(h: HandshakeView, data: Seq<u8>, now: u64)
    requires
        h.phase == Phase::Detect,
        data.len() > 0,
    ensures
        ({
            let events = rnode_parser::events_of(h.parser, data);
            let (known, seen) = after_detects(h.shared, events, events.len() as int);
            let (next, step) = after_poll(h, InputView::Bytes(data), now);
            &&& next.shared == known
            &&& seen && supported(known.firmware) ==> next.phase == Phase::Configure && step
                == StepView::Configure(rnode::frames_for(h.config, 1))
            &&& seen && !supported(known.firmware) ==> next.phase == Phase::Finished && step
                == StepView::Failed(RnsError::Unsupported)
            &&& !seen && now > h.deadline ==> next.phase == Phase::Finished && step
                == StepView::Failed(RnsError::ConnectionError)
            &&& !seen && now <= h.deadline ==> next.phase == Phase::Detect && step
                == StepView::Read(2_000_000_000)
        }),
{
}

/// A modem that has taken its configuration in has five seconds to report it, one at a time. It is
/// accepted as soon as it has reported the settings of the configuration, and fails when the time is
/// over or the link closes before.
pub proof fn modems_report_their_settings(h: HandshakeView, data: Seq<u8>, now: u64)
    ensures
        h.phase == Phase::Configure && now + 5_000_000_000 <= u64::MAX ==> {
            let (next, step) = after_poll(h, InputView::Done, now);
            &&& next.phase == Phase::Collect
            &&& next.deadline == now + 5_000_000_000
            &&& step == StepView::Read(1_000_000_000)
        },
        h.phase == Phase::Collect && data.len() > 0 ==> {
            let events = rnode_parser::events_of(h.parser, data);
            let collected = collected_from(h.collected, events, events.len() as int);
            let (next, step) = after_poll(h, InputView::Bytes(data), now);
            let right = rnode::mismatch(h.config, collected) is None;
            &&& right ==> step == StepView::Accepted && next.shared.echo == collected
                && next.shared.interface_ready
            &&& !right && now > h.deadline ==> step == StepView::Failed(RnsError::ConnectionError)
            &&& !right && now <= h.deadline ==> step == StepView::Read(1_000_000_000)
                && next.phase == Phase::Collect
        },
        h.phase == Phase::Collect && rnode::mismatch(h.config, h.collected) is Some ==> after_poll(
            h,
            InputView::Closed,
            now,
        ).1 == StepView::Failed(RnsError::ConnectionError),
        h.phase == Phase::Collect && rnode::mismatch(h.config, h.collected) is Some ==> after_poll(
            h,
            InputView::Bytes(Seq::empty()),
            now,
        ).1 == StepView::Failed(RnsError::ConnectionError),
        h.phase == Phase::Collect && rnode::mismatch(h.config, h.collected) is None ==> after_poll(
            h,
            InputView::Closed,
            now,
        ).1 == StepView::Accepted,
        h.phase == Phase::Detect ==> after_poll(h, InputView::Bytes(Seq::empty()), now).1
            == StepView::Failed(RnsError::ConnectionError),
        h.phase == Phase::Detect ==> after_poll(h, InputView::Closed, now).1 == StepView::Failed(
            RnsError::ConnectionError,
        ),
        h.phase == Phase::Finished ==> after_poll(h, InputView::Done, now).1 == StepView::Failed(
            RnsError::ConnectionError,
        ),
{
}

/// What a modem says of itself is noted, each under its own head.
pub proof fn answers_are_noted(s: RnodeShared, major: u8, minor: u8, b: u8)
    ensures
        after_detect(s, EventView::Detect) == (RnodeShared { detected: true, ..s }),
        after_detect(s, (EventView::FirmwareVersion { major, minor })) == (RnodeShared {
            firmware: Some((major, minor)),
            ..s
        }),
        after_detect(s, EventView::Platform(b)) == (RnodeShared { platform: Some(b), ..s }),
        after_detect(s, EventView::Mcu(b)) == (RnodeShared { mcu: Some(b), ..s }),
{
}

/// A modem is ready when it says so and not when it says the contrary. A signal-to-noise ratio gives
/// the link quality by the spreading factor that the modem has confirmed.
pub proof fn reports_are_noted(s: RnodeShared, ready: bool, status: RnodeStatus)
    ensures
        after_report(s, EventView::Ready(ready)) == (RnodeShared { interface_ready: ready, ..s }),
        ({
            let after = after_report(s, EventView::Status(status)).status;
            &&& status.rssi is Some ==> after.rssi == status.rssi
            &&& status.rssi is None ==> after.rssi == s.status.rssi
            &&& status.snr is Some ==> after.snr == status.snr && after.quality
                == rnode::quality_of(status.snr->0, s.echo.spreadingfactor)
            &&& status.snr is None ==> after.snr == s.status.snr && after.quality
                == s.status.quality
            &&& status.stat_rx is Some ==> after.stat_rx == status.stat_rx
            &&& status.stat_rx is None ==> after.stat_rx == s.status.stat_rx
            &&& status.stat_tx is Some ==> after.stat_tx == status.stat_tx
            &&& status.stat_tx is None ==> after.stat_tx == s.status.stat_tx
        }),
        ({
            let after = after_port_report(s, EventView::Status(status)).status;
            &&& status.rssi is Some ==> after.rssi == status.rssi
            &&& status.snr is Some ==> after.snr == status.snr
            &&& after.quality == s.status.quality
        }),
{
}

/// The packets among reports come out in their order, and all of them.
pub proof fn packets_come_out(s: RnodeShared, events: Seq<EventView>, n: int, data: Seq<u8>)
    requires
        0 <= n < events.len(),
    ensures
        events[n] == (EventView::Data { vport: None, data }) ==> after_reports(s, events, n + 1) == (
            after_reports(s, events, n).0,
            after_reports(s, events, n).1.push(data),
        ),
        !(events[n] is Data) ==> after_reports(s, events, n + 1).1 == after_reports(s, events, n).1,
{
}

/// A network address goes before a serial port.
pub proof fn network_goes_first(tcp_addr: Option<String>, serial_port: Option<String>)
    ensures
        tcp_addr is Some ==> link_kind(tcp_addr, serial_port) == LinkKind::Network,
        tcp_addr is None && serial_port is Some ==> link_kind(tcp_addr, serial_port)
            == LinkKind::Serial,
        tcp_addr is None && serial_port is None ==> link_kind(tcp_addr, serial_port)
            == LinkKind::Missing,
{
}

/// What the frames of a modem with one radio mean: packets, what it is, whether it is ready, and its
/// settings.
pub proof fn frames_have_their_meaning(data: Seq<u8>)
    ensures
        data.len() > 0 ==> rnode_parser::event_of(false, 0x00, data) == Some(
            EventView::Data { vport: None, data },
        ),
        data.len() > 0 && data[0] == 0x46 ==> rnode_parser::event_of(false, 0x08, data) == Some(
            EventView::Detect,
        ),
        data.len() > 0 && data[0] != 0x46 ==> rnode_parser::event_of(false, 0x08, data) is None,
        data.len() >= 2 ==> rnode_parser::event_of(false, 0x50, data) == Some(
            EventView::FirmwareVersion { major: data[0], minor: data[1] },
        ),
        data.len() > 0 ==> rnode_parser::event_of(false, 0x48, data) == Some(
            EventView::Platform(data[0]),
        ),
        data.len() > 0 ==> rnode_parser::event_of(false, 0x49, data) == Some(
            EventView::Mcu(data[0]),
        ),
        data.len() > 0 ==> rnode_parser::event_of(false, 0x0f, data) == Some(
            EventView::Ready(data[0] == 1),
        ),
        data.len() > 0 ==> rnode_parser::event_of(false, 0x90, data) == Some(
            EventView::Error(data[0]),
        ),
        data.len() >= 4 ==> rnode_parser::event_of(false, 0x01, data) == Some(
            EventView::Echo(
                RnodeEchoState {
                    frequency: Some(bytes::be_value(data.subrange(0, 4)) as u64),
                    ..rnode::no_echo()
                },
            ),
        ),
        data.len() >= 4 ==> rnode_parser::event_of(false, 0x02, data) == Some(
            EventView::Echo(
                RnodeEchoState {
                    bandwidth: Some(bytes::be_value(data.subrange(0, 4)) as u32),
                    ..rnode::no_echo()
                },
            ),
        ),
        data.len() > 0 ==> rnode_parser::event_of(false, 0x03, data) == Some(
            EventView::Echo(RnodeEchoState { txpower: Some(data[0]), ..rnode::no_echo() }),
        ),
        data.len() > 0 ==> rnode_parser::event_of(false, 0x04, data) == Some(
            EventView::Echo(RnodeEchoState { spreadingfactor: Some(data[0]), ..rnode::no_echo() }),
        ),
        data.len() > 0 ==> rnode_parser::event_of(false, 0x05, data) == Some(
            EventView::Echo(RnodeEchoState { codingrate: Some(data[0]), ..rnode::no_echo() }),
        ),
        data.len() > 0 ==> rnode_parser::event_of(false, 0x06, data) == Some(
            EventView::Echo(RnodeEchoState { radio_state: Some(data[0]), ..rnode::no_echo() }),
        ),
{
    reveal(rnode_parser::event_of);
}

/// What a modem measures: the signal strength is 157 below the byte, and the ratio is the byte as a
/// signed number.
pub proof fn measurements_have_their_meaning(data: Seq<u8>)
    requires
        data.len() > 0,
    ensures
        rnode_parser::event_of(false, 0x23, data) == Some(
            EventView::Status(
                RnodeStatus { rssi: Some((data[0] - 157) as i16), ..rnode::no_status() },
            ),
        ),
        data[0] < 128 ==> rnode_parser::event_of(false, 0x24, data) == Some(
            EventView::Status(RnodeStatus { snr: Some(data[0] as i16), ..rnode::no_status() }),
        ),
        data[0] >= 128 ==> rnode_parser::event_of(false, 0x24, data) == Some(
            EventView::Status(
                RnodeStatus { snr: Some((data[0] - 256) as i16), ..rnode::no_status() },
            ),
        ),
{
    reveal(rnode_parser::event_of);
}

/// A modem with virtual ports says with the command which port a packet came in on.
pub proof fn ports_have_their_commands(data: Seq<u8>)
    requires
        data.len() > 0,
    ensures
        rnode_parser::event_of(true, 0x00, data) == Some(EventView::Data { vport: Some(0), data }),
        rnode_parser::event_of(true, 0x10, data) == Some(EventView::Data { vport: Some(1), data }),
        rnode_parser::event_of(true, 0x20, data) == Some(EventView::Data { vport: Some(2), data }),
        rnode_parser::event_of(true, 0x70, data) == Some(EventView::Data { vport: Some(3), data }),
        rnode_parser::event_of(true, 0x75, data) == Some(EventView::Data { vport: Some(4), data }),
        rnode_parser::event_of(true, 0x90, data) == Some(EventView::Data { vport: Some(5), data }),
        rnode_parser::event_of(true, 0xa0, data) == Some(EventView::Data { vport: Some(6), data }),
        rnode_parser::event_of(true, 0xb0, data) == Some(EventView::Data { vport: Some(7), data }),
        rnode_parser::event_of(true, 0xc0, data) == Some(EventView::Data { vport: Some(8), data }),
        rnode_parser::event_of(true, 0xd0, data) == Some(EventView::Data { vport: Some(9), data }),
        rnode_parser::event_of(true, 0xe0, data) == Some(
            EventView::Data { vport: Some(10), data },
        ),
        rnode_parser::event_of(true, 0xf0, data) == Some(
            EventView::Data { vport: Some(11), data },
        ),
        data.len() == 1 ==> rnode_parser::event_of(true, 0x1f, data) == Some(
            EventView::SelectedVport(data[0]),
        ),
{
    reveal(rnode_parser::event_of);
    reveal_with_fuel(rnode_parser::port_from, 13);
}

} // verus!
