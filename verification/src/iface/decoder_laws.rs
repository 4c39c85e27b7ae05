//! What holds of decoders byte by byte, and of the settings and names of interfaces.

use vstd::prelude::*;

use crate::bytes;
use crate::error::RnsError;
use crate::iface::control::{default_params, mode_name, mode_named, mode_number, InterfaceMode};
use crate::iface::dispatch::{last_part, last_separator};
use crate::iface::hdlc;
use crate::iface::i2p;
use crate::iface::i2p::{LineStep, ReplyView};
use crate::iface::kiss;
use crate::iface::local;
use crate::iface::local::AddressView;
use crate::iface::rnode;
use crate::iface::rnode::{RnodeEchoState, RnodeStatus};
use crate::iface::rnode_parser;
use crate::iface::rnode_parser::{EventView, ParserView};
use crate::iface::rnode_session::{
    after_detect, after_detects, after_port_reports, collected_from, fallback_config, prefixed,
    RnodeShared,
};
use crate::link::{raw_packet, sealed_len, sealed_packet};
use crate::packet::{wire_len, HeaderType, PacketContext, PacketType, PacketView};

verus! {

/// An HDLC flag ends the frame that is open and hands it on, or opens one. What comes outside of
/// frames is lost, and so is what a frame has no room for.
pub proof fn flags_open_and_end_frames(d: hdlc::DecoderView, b: u8)
    ensures
        d.in_frame ==> hdlc::frames_of_byte(d, 0x7e) == seq![d.frame] && !hdlc::after_byte(
            d,
            0x7e,
        ).in_frame,
        !d.in_frame ==> hdlc::frames_of_byte(d, 0x7e).len() == 0 && hdlc::after_byte(
            d,
            0x7e,
        ).in_frame,
        hdlc::after_byte(d, 0x7e).frame.len() == 0,
        !hdlc::after_byte(d, 0x7e).escape,
        b != 0x7e ==> hdlc::frames_of_byte(d, b).len() == 0,
        b != 0x7e && !d.in_frame ==> hdlc::after_byte(d, b) == d,
        b != 0x7e && d.frame.len() >= d.mtu ==> hdlc::after_byte(d, b) == d,
{
}

/// Inside a frame a byte is taken as it is, but behind an escape byte with its sixth bit flipped.
pub proof fn frames_take_bytes(d: hdlc::DecoderView, b: u8)
    requires
        d.in_frame,
        d.frame.len() < d.mtu,
        b != 0x7e,
    ensures
        !d.escape && b != 0x7d ==> hdlc::after_byte(d, b) == (hdlc::DecoderView {
            frame: d.frame.push(b),
            ..d
        }),
        !d.escape && b == 0x7d ==> hdlc::after_byte(d, b) == (hdlc::DecoderView {
            escape: true,
            ..d
        }),
        d.escape ==> hdlc::after_byte(d, b) == (hdlc::DecoderView {
            frame: d.frame.push(b ^ 0x20),
            escape: false,
            ..d
        }),
{
}

/// Decoding goes byte by byte: a flag opens the frame or ends it, an escape byte flips the next, and
/// all others are taken as they are. A frame without its end is none, though what came is put out.
pub proof fn frames_are_decoded_byte_by_byte(b: u8, rest: Seq<u8>, started: bool)
    ensures
        ({
            let data = seq![b] + rest;
            &&& hdlc::put_out(data, started, true) == seq![b ^ 0x20] + hdlc::put_out(
                rest,
                started,
                false,
            )
            &&& b == 0x7e && started ==> hdlc::put_out(data, started, false).len() == 0
                && hdlc::decoded(data, started, false) == Some(Seq::<u8>::empty())
            &&& b == 0x7e && !started ==> hdlc::put_out(data, started, false) == hdlc::put_out(
                rest,
                true,
                false,
            ) && hdlc::decoded(data, started, false) == hdlc::decoded(rest, true, false)
            &&& b == 0x7d ==> hdlc::put_out(data, started, false) == hdlc::put_out(
                rest,
                started,
                true,
            ) && hdlc::decoded(data, started, false) == hdlc::decoded(rest, started, true)
            &&& b != 0x7e && b != 0x7d ==> hdlc::put_out(data, started, false) == seq![b]
                + hdlc::put_out(rest, started, false)
            &&& b != 0x7e && b != 0x7d && hdlc::decoded(rest, started, false) is Some
                ==> hdlc::decoded(data, started, false) == Some(
                seq![b] + hdlc::decoded(rest, started, false)->0,
            )
            &&& b != 0x7e && b != 0x7d && hdlc::decoded(rest, started, false) is None
                ==> hdlc::decoded(data, started, false) is None
        }),
        hdlc::put_out(Seq::empty(), started, false).len() == 0,
        hdlc::decoded(Seq::empty(), started, false) is None,
{
    let data = seq![b] + rest;
    assert(data.skip(1) =~= rest);
}

/// A frame that does not fit is cut after the last byte that fits whole.
pub proof fn long_frames_are_cut(data: Seq<u8>, room: int)
    requires
        room >= 0,
    ensures
        ({
            let n = hdlc::longest_fitting(data, room);
            &&& 0 <= n <= data.len()
            &&& hdlc::escaped(data.take(n)).len() <= room
            &&& n < data.len() ==> hdlc::escaped(data.take(n + 1)).len() > room
        }),
        room >= 1 ==> hdlc::cut_frame(data, room) == seq![0x7eu8] + hdlc::escaped(
            data.take(hdlc::longest_fitting(data, room - 1)),
        ),
        hdlc::cut_frame(data, 0).len() == 0,
    decreases data.len(),
{
    let n = hdlc::longest_fitting(data, room);
    if data.len() > 0 && hdlc::escaped(data).len() > room {
        long_frames_are_cut(data.drop_last(), room);
        assert(data.drop_last().take(n) =~= data.take(n));
        if n + 1 < data.len() {
            assert(data.drop_last().take(n + 1) =~= data.take(n + 1));
        } else {
            assert(data.take(n + 1) =~= data);
        }
    } else {
        assert(data.take(n) =~= data);
    }
}

/// A KISS frame begins with its command, of which the low half counts; the bytes of data frames are
/// taken up to the limit, and the frame is handed on at its end.
pub proof fn commands_begin_frames(d: kiss::DecoderView, b: u8)
    requires
        d.in_frame,
        d.frame.len() < d.mtu,
        b != 0xc0,
    ensures
        d.frame.len() == 0 && d.command == 0xfe ==> kiss::after_byte(d, b) == (kiss::DecoderView {
            command: b & 0x0f,
            ..d
        }),
        d.command == 0x00 && b != 0xdb && !d.escape ==> kiss::after_byte(d, b) == (
        kiss::DecoderView { frame: d.frame.push(b), ..d }),
        d.command == 0x00 && b == 0xdb ==> kiss::after_byte(d, b) == (kiss::DecoderView {
            escape: true,
            ..d
        }),
        d.command == 0x00 && d.escape && b == 0xdc ==> kiss::after_byte(d, b) == (
        kiss::DecoderView { frame: d.frame.push(0xc0), escape: false, ..d }),
        d.command == 0x00 && d.escape && b == 0xdd ==> kiss::after_byte(d, b) == (
        kiss::DecoderView { frame: d.frame.push(0xdb), escape: false, ..d }),
        !kiss::after_byte(d, 0xc0).escape,
        kiss::after_byte(d, 0xc0).frame.len() == 0,
        kiss::after_byte(d, 0xc0).command == 0xfe,
        kiss::after_byte(d, 0xc0).in_frame == (d.command != 0x00),
        d.command == 0x00 ==> kiss::events_of_byte(d, 0xc0) == seq![kiss::EventView::Data(d.frame)],
        d.command == 0x00 ==> kiss::events_of_byte(d, b).len() == 0,
        d.command != 0x00 ==> kiss::events_of_byte(d, 0xc0).len() == 0,
{
}

/// A modem's frame ends where the next frame mark is, and says what its command means; the first byte
/// behind a mark is the command, and up to 2048 bytes follow.
pub proof fn marks_end_reports(p: ParserView, b: u8)
    ensures
        p.in_frame ==> rnode_parser::events_of_byte(p, 0xc0) == (match rnode_parser::event_of(
            p.multi,
            p.command,
            p.data,
        ) {
            Some(event) => seq![event],
            None => Seq::empty(),
        }),
        !p.in_frame ==> rnode_parser::events_of_byte(p, 0xc0).len() == 0,
        rnode_parser::after_byte(p, 0xc0).in_frame == !p.in_frame,
        rnode_parser::after_byte(p, 0xc0).data.len() == 0,
        b != 0xc0 ==> rnode_parser::events_of_byte(p, b).len() == 0,
        b != 0xc0 && !p.in_frame ==> rnode_parser::after_byte(p, b) == p,
        b != 0xc0 && p.in_frame && p.command == 0xfe && p.data.len() == 0
            ==> rnode_parser::after_byte(p, b).command == b,
        b != 0xc0 && b != 0xdb && p.in_frame && p.command != 0xfe && !p.escaped && p.data.len()
            < 2048 ==> rnode_parser::after_byte(p, b).data == p.data.push(b),
        b != 0xc0 && p.in_frame && p.command != 0xfe && p.data.len() >= 2048
            ==> rnode_parser::after_byte(p, b).data == p.data,
{
}

/// The other settings and counters that a modem reports.
pub proof fn further_reports_have_their_meaning(data: Seq<u8>)
    ensures
        data.len() >= 2 ==> rnode_parser::event_of(false, 0x0b, data) == Some(
            EventView::Echo(
                RnodeEchoState {
                    st_alock: Some(bytes::be_value(data.subrange(0, 2)) as u16),
                    ..rnode::no_echo()
                },
            ),
        ),
        data.len() >= 2 ==> rnode_parser::event_of(false, 0x0c, data) == Some(
            EventView::Echo(
                RnodeEchoState {
                    lt_alock: Some(bytes::be_value(data.subrange(0, 2)) as u16),
                    ..rnode::no_echo()
                },
            ),
        ),
        data.len() >= 4 ==> rnode_parser::event_of(false, 0x21, data) == Some(
            EventView::Status(
                RnodeStatus {
                    stat_rx: Some(bytes::be_value(data.subrange(0, 4)) as u32),
                    ..rnode::no_status()
                },
            ),
        ),
        data.len() >= 4 ==> rnode_parser::event_of(false, 0x22, data) == Some(
            EventView::Status(
                RnodeStatus {
                    stat_tx: Some(bytes::be_value(data.subrange(0, 4)) as u32),
                    ..rnode::no_status()
                },
            ),
        ),
        rnode_parser::event_of(false, 0x40, data) == Some(EventView::Random(data)),
        data.len() == 0 ==> rnode_parser::event_of(false, 0x00, data) is None,
        data.len() == 0 ==> rnode_parser::event_of(false, 0x03, data) is None,
        data.len() == 0 ==> rnode_parser::event_of(false, 0x04, data) is None,
        data.len() == 0 ==> rnode_parser::event_of(false, 0x05, data) is None,
        data.len() == 0 ==> rnode_parser::event_of(false, 0x06, data) is None,
        data.len() == 0 ==> rnode_parser::event_of(false, 0x23, data) is None,
        data.len() == 0 ==> rnode_parser::event_of(false, 0x24, data) is None,
        data.len() < 2 ==> rnode_parser::event_of(false, 0x50, data) is None,
        data.len() < 4 ==> rnode_parser::event_of(false, 0x01, data) is None,
        data.len() < 4 ==> rnode_parser::event_of(false, 0x02, data) is None,
{
    reveal(rnode_parser::event_of);
}

/// A modem is asked for itself, its firmware, its platform and its controller; a port is selected in
/// front of each of its frames.
pub proof fn modems_are_asked_what_they_are(index: u8, frames: Seq<Seq<u8>>, i: int)
    requires
        0 <= i < frames.len(),
    ensures
        rnode::detect_bytes() == rnode::command_frame(0x08, seq![0x73u8]) + rnode::command_frame(
            0x50,
            seq![0u8],
        ) + rnode::command_frame(0x48, seq![0u8]) + rnode::command_frame(0x49, seq![0u8]),
        prefixed(index, frames).len() == frames.len(),
        prefixed(index, frames)[i] == rnode::command_frame(0x1f, seq![index]) + frames[i],
        fallback_config().frequency == 867_500_000,
        fallback_config().bandwidth == 125_000,
        fallback_config().spreadingfactor == 9,
        fallback_config().codingrate == 5,
        fallback_config().txpower == 0,
{
}

/// A modem has said its firmware when one of its answers was that, and then it is the last one it
/// said.
pub proof fn firmware_is_seen(s: RnodeShared, events: Seq<EventView>, n: int)
    requires
        0 <= n <= events.len(),
    ensures
        after_detects(s, events, n).1 <==> exists|i: int|
            0 <= i < n && (#[trigger] events[i]) is FirmwareVersion,
        n > 0 ==> after_detects(s, events, n).0 == after_detect(
            after_detects(s, events, n - 1).0,
            events[n - 1],
        ),
        after_detects(s, events, 0).0 == s,
    decreases n,
{
    if n > 0 {
        firmware_is_seen(s, events, n - 1);
        if events[n - 1] is FirmwareVersion {
            assert(events[n - 1] is FirmwareVersion);
        }
    }
}

/// Reported settings come together, report by report.
pub proof fn settings_come_together(c: RnodeEchoState, events: Seq<EventView>, n: int)
    requires
        0 <= n < events.len(),
    ensures
        collected_from(c, events, 0) == c,
        events[n] is Echo ==> collected_from(c, events, n + 1) == rnode::merged(
            collected_from(c, events, n),
            events[n]->Echo_0,
        ),
        !(events[n] is Echo) ==> collected_from(c, events, n + 1) == collected_from(c, events, n),
{
}

/// Packets of ports come out in their order, each with its port.
pub proof fn port_packets_come_out(
    s: RnodeShared,
    events: Seq<EventView>,
    n: int,
    port: u8,
    data: Seq<u8>,
)
    requires
        0 <= n < events.len(),
    ensures
        events[n] == (EventView::Data { vport: Some(port), data }) ==> after_port_reports(
            s,
            events,
            n + 1,
        ) == (
            after_port_reports(s, events, n).0,
            after_port_reports(s, events, n).1.push((port, data)),
        ),
        !(events[n] is Data) ==> after_port_reports(s, events, n + 1).1 == after_port_reports(
            s,
            events,
            n,
        ).1,
{
}

/// A reply is good when its last result is OK.
pub proof fn good_replies_say_ok(reply: ReplyView)
    ensures
        i2p::is_ok(reply) <==> i2p::option_of(reply, seq!['R', 'E', 'S', 'U', 'L', 'T']) == Some(
            seq!['O', 'K'],
        ),
{
    reveal_strlit("RESULT");
    reveal_strlit("OK");
    assert("RESULT"@ =~= seq!['R', 'E', 'S', 'U', 'L', 'T']);
    assert("OK"@ =~= seq!['O', 'K']);
}

/// A line goes on until its line feed, for 8192 bytes at most.
pub proof fn lines_go_on_until_line_feeds(line: Seq<u8>, byte: u8, step: LineStep)
    requires
        i2p::after_byte(line, byte, step),
    ensures
        byte != 10 && line.len() < 8192 ==> step is More,
        byte != 10 && line.len() >= 8192 ==> step == LineStep::Failed(RnsError::OutOfMemory),
        byte == 10 ==> !(step is More),
        byte == 10 && i2p::reply_in(crate::text::trimmed(crate::text::lossy_text(line))) is None
            ==> step == LineStep::Failed(RnsError::PacketError),
{
}

/// Base 64 is read up to its padding, all of it or nothing.
pub proof fn base_64_is_read_up_to_its_padding(data: Seq<u8>, n: int)
    requires
        0 <= n <= data.len(),
        n < data.len() ==> data[n] == '=' as u8,
        forall|i: int| 0 <= i < n ==> (#[trigger] data[i]) != '=' as u8,
    ensures
        (forall|i: int| 0 <= i < n ==> i2p::b64_value(#[trigger] data[i]) is Some)
            ==> i2p::b64_decoded(data) is Some && i2p::b64_decoded(data)->0.len() == n * 3 / 4,
        (exists|i: int| 0 <= i < n && i2p::b64_value(#[trigger] data[i]) is None)
            ==> i2p::b64_decoded(data) is None,
{
    padding_is_at(data, n, 0);
}

proof fn padding_is_at(data: Seq<u8>, n: int, from: int)
    requires
        0 <= from <= n <= data.len(),
        n < data.len() ==> data[n] == 61,
        forall|i: int| 0 <= i < n ==> (#[trigger] data[i]) != 61,
    ensures
        i2p::b64_len(data, from) == n,
    decreases n - from,
{
    if from < n {
        padding_is_at(data, n, from + 1);
    }
}

/// A shared instance is named by its port on the loopback address, or by its name.
pub proof fn shared_instances_are_named(port: u16, name: Seq<char>)
    ensures
        local::described((AddressView::Tcp { port })) == seq![
            '1',
            '2',
            '7',
            '.',
            '0',
            '.',
            '0',
            '.',
            '1',
            ':',
        ] + local::decimal_digits(port as nat),
        local::described((AddressView::UnixAbstract { instance_name: name })) == seq![
            '\0',
            'r',
            'n',
            's',
            '/',
        ] + name,
{
    reveal_strlit("127.0.0.1:");
    reveal_strlit("\0rns/");
    assert("127.0.0.1:"@ =~= seq!['1', '2', '7', '.', '0', '.', '0', '.', '1', ':']);
    assert("\0rns/"@ =~= seq!['\0', 'r', 'n', 's', '/']);
}

/// Numbers are written in decimal digits and read back from them.
pub proof fn written_numbers_are_read_back(v: nat)
    ensures
        crate::text::decimal_value(local::decimal_digits(v)) == v,
        local::decimal_digits(v).len() >= 1,
        v > 0 ==> local::decimal_digits(v)[0] != '0',
    decreases v,
{
    reveal_with_fuel(crate::text::decimal_value, 2);
    if v >= 10 {
        written_numbers_are_read_back(v / 10);
        let all = local::decimal_digits(v);
        assert(all.drop_last() =~= local::decimal_digits(v / 10));
    } else {
        let all = local::decimal_digits(v);
        assert(all.drop_last() =~= Seq::empty());
    }
}

/// The numbers of the interface modes.
pub proof fn modes_have_numbers(mode: InterfaceMode)
    ensures
        mode_number(InterfaceMode::Full) == 1,
        mode_number(InterfaceMode::PointToPoint) == 2,
        mode_number(InterfaceMode::AccessPoint) == 3,
        mode_number(InterfaceMode::Roaming) == 4,
        mode_number(InterfaceMode::Boundary) == 5,
        mode_number(InterfaceMode::Gateway) == 6,
        mode_number(InterfaceMode::Internal) == 7,
        mode_named(mode_name(mode)) == Some(mode),
{
    crate::iface::control::mode_names_round_trip(mode);
}

/// The names of the interface modes; no other name is one.
pub proof fn modes_have_names(name: Seq<char>)
    ensures
        mode_name(InterfaceMode::Full) == "full"@,
        mode_name(InterfaceMode::PointToPoint) == "point_to_point"@,
        mode_name(InterfaceMode::AccessPoint) == "access_point"@,
        mode_name(InterfaceMode::Roaming) == "roaming"@,
        mode_name(InterfaceMode::Boundary) == "boundary"@,
        mode_name(InterfaceMode::Gateway) == "gateway"@,
        mode_name(InterfaceMode::Internal) == "internal"@,
        mode_named(name) == Some(InterfaceMode::Full) ==> name == "full"@ || name == "default"@,
        mode_named(name) == Some(InterfaceMode::PointToPoint) ==> name == "pointtopoint"@ || name
            == "point_to_point"@ || name == "point-to-point"@,
        mode_named(name) == Some(InterfaceMode::AccessPoint) ==> name == "accesspoint"@ || name
            == "access_point"@ || name == "access-point"@,
        mode_named(name) == Some(InterfaceMode::Roaming) ==> name == "roaming"@,
        mode_named(name) == Some(InterfaceMode::Boundary) ==> name == "boundary"@,
        mode_named(name) == Some(InterfaceMode::Gateway) ==> name == "gateway"@,
        mode_named(name) == Some(InterfaceMode::Internal) ==> name == "internal"@,
        mode_named(name) is None ==> name != "full"@ && name != "default"@ && name
            != "pointtopoint"@ && name != "point_to_point"@ && name != "point-to-point"@ && name
            != "accesspoint"@ && name != "access_point"@ && name != "access-point"@ && name
            != "roaming"@ && name != "boundary"@ && name != "gateway"@ && name != "internal"@,
{
}

/// Where nothing else is set, an interface holds 256 announces back, a burst is three a second on
/// new interfaces and ten on others, of path requests three and eight, an interface is new for two
/// hours, and bursts are held for fifteen seconds and released every five.
pub proof fn interfaces_have_default_limits()
    ensures
        ({
            let p = default_params();
            &&& p.ic_max_held_announces == 256
            &&& p.ic_burst_hold == 15_000_000_000
            &&& p.ic_burst_freq_new == 3000
            &&& p.ic_burst_freq == 10_000
            &&& p.ic_pr_burst_freq_new == 3000
            &&& p.ic_pr_burst_freq == 8000
            &&& p.ic_new_time == 7_200_000_000_000
            &&& p.ic_burst_penalty == 15_000_000_000
            &&& p.ic_held_release_interval == 5_000_000_000
            &&& p.ec_pr_freq == 5000
        }),
{
}

/// The last part of a path is what follows its last double colon, or all of it.
pub proof fn last_parts_follow_double_colons(front: Seq<char>, part: Seq<char>)
    requires
        forall|i: int|
            0 <= i < part.len() - 1 ==> !((#[trigger] part[i]) == ':' && part[i + 1] == ':'),
        part.len() > 0 ==> part[0] != ':',
    ensures
        last_part(front + seq![':', ':'] + part) == part,
        last_part(part) == part,
{
    let name = front + seq![':', ':'] + part;
    separator_is_at(name, front.len() as int, name.len() as int);
    assert(name.skip(front.len() as int + 2) =~= part);
    no_separator(part, part.len() as int);
}

proof fn separator_is_at(name: Seq<char>, at: int, n: int)
    requires
        0 <= at,
        at + 2 <= n <= name.len(),
        name[at] == ':',
        name[at + 1] == ':',
        forall|i: int|
            at < i < name.len() - 1 ==> !((#[trigger] name[i]) == ':' && name[i + 1] == ':'),
    ensures
        last_separator(name, n) == at,
    decreases n,
{
    if n > at + 2 {
        assert(!(name[n - 2] == ':' && name[n - 2 + 1] == ':'));
        separator_is_at(name, at, n - 1);
    }
}

proof fn no_separator(name: Seq<char>, n: int)
    requires
        n <= name.len(),
        forall|i: int|
            0 <= i < name.len() - 1 ==> !((#[trigger] name[i]) == ':' && name[i + 1] == ':'),
    ensures
        last_separator(name, n) == -1,
    decreases n,
{
    if n >= 2 {
        assert(!(name[n - 2] == ':' && name[n - 2 + 1] == ':'));
        no_separator(name, n - 1);
    }
}

/// A packet takes nineteen bytes and its data on the wire, and sixteen more where it is in
/// transport.
pub proof fn packets_have_their_length(packet: PacketView)
    ensures
        packet.header.header_type == HeaderType::Type2 && packet.transport is Some ==> wire_len(
            packet,
        ) == 35 + packet.data.len(),
        packet.header.header_type == HeaderType::Type1 || packet.transport is None ==> wire_len(
            packet,
        ) == 19 + packet.data.len(),
{
}

/// Packets of a link are sealed or not, as they say.
pub proof fn link_packets_are_sealed(t: PacketType, context: PacketContext, data: Seq<u8>)
    ensures
        sealed_packet(context, data).sealed,
        sealed_packet(context, data).packet_type == PacketType::Data,
        sealed_packet(context, data).context == context,
        sealed_packet(context, data).data == data,
        !raw_packet(t, context, data).sealed,
        raw_packet(t, context, data).packet_type == t,
        raw_packet(t, context, data).context == context,
        raw_packet(t, context, data).data == data,
{
}

/// Sealing pads to whole blocks of sixteen bytes, by one byte at least, and adds 48.
pub proof fn sealing_pads(n: nat)
    ensures
        sealed_len(n) % 16 == 0,
        n + 48 < sealed_len(n) <= n + 64,
{
}

/// A decoder that has seen nothing is outside of frames.
pub proof fn new_decoders_are_outside_of_frames(mtu: nat, multi: bool, b: u8)
    ensures
        !kiss::idle_decoder(mtu).in_frame,
        !kiss::idle_decoder(mtu).escape,
        kiss::idle_decoder(mtu).frame.len() == 0,
        kiss::idle_decoder(mtu).mtu == mtu,
        b != 0xc0 ==> kiss::after_byte(kiss::idle_decoder(mtu), b) == kiss::idle_decoder(mtu),
        !rnode_parser::new_parser(multi).in_frame,
        !rnode_parser::new_parser(multi).escaped,
        rnode_parser::new_parser(multi).data.len() == 0,
        rnode_parser::new_parser(multi).multi == multi,
        rnode_parser::new_parser(multi).selected is None,
{
}

} // verus!
