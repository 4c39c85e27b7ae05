//! Traffic control of one interface: its mode, the detection of announce and path request bursts,
//! announces held back during a burst, and the airtime budget of forwarded announces.
//!
//! Times are nanoseconds on one clock. Frequency limits are in thousandths of a hertz and the
//! announce budget in thousandths of the airtime.

use std::collections::VecDeque;

use vstd::prelude::*;
use vstd::string::*;

use crate::bytes;
use crate::packet;
use crate::packet::{HeaderType, Packet, PacketView, HEADER_LEN, PACKET_MDU};
use crate::text;

pub use crate::iface::control_state::IfaceControlState;

verus! {

/// Offset of the ten-byte random blob in announce data: behind two keys and the name hash.
pub const RANDOM_BLOB_OFFSET: usize = 74;

/// Samples that a frequency is measured over.
pub const FREQ_SAMPLES: usize = 48;

/// Samples that a frequency has to exceed to be trusted.
pub const DEQUE_MIN_SAMPLE: usize = 2;

/// Samples from which outgoing path requests are limited.
pub const BURST_MIN_SAMPLES: usize = 6;

/// Time after which announce samples decay.
pub const AR_FREQ_DECAY: u64 = 10_000_000_000;

/// Time after which path request samples decay.
pub const PR_FREQ_DECAY: u64 = 10_000_000_000;

/// Airtime budget of announces, in thousandths.
pub const ANNOUNCE_CAP: u64 = 2000;

/// Announces that an interface queues at most.
pub const MAX_QUEUED_ANNOUNCES: usize = 16384;

/// Time that a queued announce is kept.
pub const QUEUED_ANNOUNCE_LIFE: u64 = 86_400_000_000_000;

/// Announces that an interface holds back at most.
pub const MAX_HELD_ANNOUNCES: usize = 256;

/// Capacity of the buffer that wire lengths are measured in.
pub const WIRE_SCRATCH: usize = 2176;

/// Modes of an interface.
#[derive(Debug, Clone, Copy, PartialEq, Eq, Structural)]
pub enum InterfaceMode {
    Full,
    PointToPoint,
    AccessPoint,
    Roaming,
    Boundary,
    Gateway,
    Internal,
}

impl Default for InterfaceMode {
    fn default() -> (r: Self)
        ensures
            r == InterfaceMode::Full,
    {
        InterfaceMode::Full
    }
}

/// The number of a mode.
pub open spec fn mode_number(mode: InterfaceMode) -> u8 {
    match mode {
        InterfaceMode::Full => 1,
        InterfaceMode::PointToPoint => 2,
        InterfaceMode::AccessPoint => 3,
        InterfaceMode::Roaming => 4,
        InterfaceMode::Boundary => 5,
        InterfaceMode::Gateway => 6,
        InterfaceMode::Internal => 7,
    }
}

/// The name of a mode.
pub open spec fn mode_name(mode: InterfaceMode) -> Seq<char> {
    match mode {
        InterfaceMode::Full => "full"@,
        InterfaceMode::PointToPoint => "point_to_point"@,
        InterfaceMode::AccessPoint => "access_point"@,
        InterfaceMode::Roaming => "roaming"@,
        InterfaceMode::Boundary => "boundary"@,
        InterfaceMode::Gateway => "gateway"@,
        InterfaceMode::Internal => "internal"@,
    }
}

/// The mode that a lower-case name stands for.
pub open spec fn mode_named(name: Seq<char>) -> Option<InterfaceMode> {
    if name == "full"@ || name == "default"@ {
        Some(InterfaceMode::Full)
    } else if name == "pointtopoint"@ || name == "point_to_point"@ || name == "point-to-point"@ {
        Some(InterfaceMode::PointToPoint)
    } else if name == "accesspoint"@ || name == "access_point"@ || name == "access-point"@ {
        Some(InterfaceMode::AccessPoint)
    } else if name == "roaming"@ {
        Some(InterfaceMode::Roaming)
    } else if name == "boundary"@ {
        Some(InterfaceMode::Boundary)
    } else if name == "gateway"@ {
        Some(InterfaceMode::Gateway)
    } else if name == "internal"@ {
        Some(InterfaceMode::Internal)
    } else {
        None
    }
}

impl InterfaceMode {
    /// Modes of interfaces that paths are actively searched for.
    pub const DISCOVER_PATHS_FOR: [InterfaceMode; 4] = [
        InterfaceMode::AccessPoint,
        InterfaceMode::Gateway,
        InterfaceMode::Roaming,
        InterfaceMode::Internal,
    ];

    /// Modes of interfaces that take part in a search across a boundary.
    pub const BOUNDARY_SEARCH_MODES: [InterfaceMode; 2] = [
        InterfaceMode::Boundary,
        InterfaceMode::Gateway,
    ];

    /// The mode with a number.
    pub fn from_u8(value: u8) -> (r: Option<Self>)
        ensures
            r is Some <==> 1 <= value <= 7,
            r is Some ==> mode_number(r->0) == value,
    {
        if value == 1 {
            Some(InterfaceMode::Full)
        } else if value == 2 {
            Some(InterfaceMode::PointToPoint)
        } else if value == 3 {
            Some(InterfaceMode::AccessPoint)
        } else if value == 4 {
            Some(InterfaceMode::Roaming)
        } else if value == 5 {
            Some(InterfaceMode::Boundary)
        } else if value == 6 {
            Some(InterfaceMode::Gateway)
        } else if value == 7 {
            Some(InterfaceMode::Internal)
        } else {
            None
        }
    }

    /// The mode with a name, in any case.
    pub fn from_name(name: &str) -> (r: Option<Self>)
        ensures
            r == mode_named(text::lowercased(name@)),
            name.is_ascii() ==> r == mode_named(text::ascii_lowered(name@)),
    {
        let lower: String = text::to_lowercase(name);
        InterfaceMode::from_lower(lower.as_str())
    }

    /// The mode with a lower-case name.
    pub fn from_lower(name: &str) -> (r: Option<Self>)
        ensures
            r == mode_named(name@),
    {
        if text::same_text(name, "full") || text::same_text(name, "default") {
            Some(InterfaceMode::Full)
        } else if text::same_text(name, "pointtopoint") || text::same_text(name, "point_to_point")
            || text::same_text(name, "point-to-point") {
            Some(InterfaceMode::PointToPoint)
        } else if text::same_text(name, "accesspoint") || text::same_text(name, "access_point")
            || text::same_text(name, "access-point") {
            Some(InterfaceMode::AccessPoint)
        } else if text::same_text(name, "roaming") {
            Some(InterfaceMode::Roaming)
        } else if text::same_text(name, "boundary") {
            Some(InterfaceMode::Boundary)
        } else if text::same_text(name, "gateway") {
            Some(InterfaceMode::Gateway)
        } else if text::same_text(name, "internal") {
            Some(InterfaceMode::Internal)
        } else {
            None
        }
    }

    /// The name of the mode.
    pub fn name(&self) -> (r: &'static str)
        ensures
            r@ == mode_name(*self),
    {
        match self {
            InterfaceMode::Full => "full",
            InterfaceMode::PointToPoint => "point_to_point",
            InterfaceMode::AccessPoint => "access_point",
            InterfaceMode::Roaming => "roaming",
            InterfaceMode::Boundary => "boundary",
            InterfaceMode::Gateway => "gateway",
            InterfaceMode::Internal => "internal",
        }
    }
}

/// Each mode is found again by its name and by its number.
pub proof fn mode_names_round_trip(mode: InterfaceMode)
    ensures
        mode_named(mode_name(mode)) == Some(mode),
        1 <= mode_number(mode) <= 7,
{
    reveal_strlit("full");
    reveal_strlit("default");
    reveal_strlit("pointtopoint");
    reveal_strlit("point_to_point");
    reveal_strlit("point-to-point");
    reveal_strlit("accesspoint");
    reveal_strlit("access_point");
    reveal_strlit("access-point");
    reveal_strlit("roaming");
    reveal_strlit("boundary");
    reveal_strlit("gateway");
    reveal_strlit("internal");
    assert("access_point"@[0] == 'a');
    assert("accesspoint"@[0] == 'a');
    assert("access-point"@[0] == 'a');
    assert("point_to_point"@[0] == 'p');
    assert("pointtopoint"@[0] == 'p');
    assert("point-to-point"@[0] == 'p');
    assert("full"@[0] == 'f');
    assert("default"@[0] == 'd');
    assert("roaming"@[0] == 'r');
    assert("boundary"@[0] == 'b');
    assert("gateway"@[0] == 'g');
    assert("internal"@[0] == 'i');
}

/// Limits of the traffic control.
#[derive(Debug, Clone, Copy, PartialEq, Eq, Structural)]
pub struct IfaceControlParams {
    pub ic_max_held_announces: usize,
    pub ic_burst_hold: u64,
    pub ic_burst_freq_new: u64,
    pub ic_burst_freq: u64,
    pub ic_pr_burst_freq_new: u64,
    pub ic_pr_burst_freq: u64,
    pub ic_new_time: u64,
    pub ic_burst_penalty: u64,
    pub ic_held_release_interval: u64,
    pub ec_pr_freq: u64,
}

/// The limits that apply unless configured otherwise.
pub open spec fn default_params() -> IfaceControlParams {
    IfaceControlParams {
        ic_max_held_announces: MAX_HELD_ANNOUNCES,
        ic_burst_hold: 15_000_000_000,
        ic_burst_freq_new: 3000,
        ic_burst_freq: 10_000,
        ic_pr_burst_freq_new: 3000,
        ic_pr_burst_freq: 8000,
        ic_new_time: 7_200_000_000_000,
        ic_burst_penalty: 15_000_000_000,
        ic_held_release_interval: 5_000_000_000,
        ec_pr_freq: 5000,
    }
}

impl Default for IfaceControlParams {
    fn default() -> (r: Self)
        ensures
            r == default_params(),
    {
        IfaceControlParams {
            ic_max_held_announces: MAX_HELD_ANNOUNCES,
            ic_burst_hold: 15_000_000_000,
            ic_burst_freq_new: 3000,
            ic_burst_freq: 10_000,
            ic_pr_burst_freq_new: 3000,
            ic_pr_burst_freq: 8000,
            ic_new_time: 7_200_000_000_000,
            ic_burst_penalty: 15_000_000_000,
            ic_held_release_interval: 5_000_000_000,
            ec_pr_freq: 5000,
        }
    }
}

/// When an announce was emitted: the last five bytes of its random blob.
pub open spec fn emitted_at(data: Seq<u8>) -> nat {
    if data.len() >= RANDOM_BLOB_OFFSET + 10 {
        bytes::be_value(data.subrange(RANDOM_BLOB_OFFSET + 5, RANDOM_BLOB_OFFSET + 10))
    } else {
        0
    }
}

/// When an announce was emitted; zero where its data is too short to say.
pub fn announce_emitted(packet: &Packet) -> (r: u64)
    ensures
        r == emitted_at(packet@.data),
{
    if packet.data.len() >= RANDOM_BLOB_OFFSET + 10 {
        let stamp: &[u8] = &packet.data[RANDOM_BLOB_OFFSET + 5..RANDOM_BLOB_OFFSET + 10];
        proof {
            bytes::be_value_bound(stamp@);
            reveal_with_fuel(bytes::byte_span, 6);
        }
        bytes::be_number(stamp) as u64
    } else {
        0
    }
}

/// The wire length that a packet is accounted with.
pub open spec fn accounted_len(packet: PacketView) -> nat {
    if packet::wire_len(packet) <= WIRE_SCRATCH {
        packet::wire_len(packet)
    } else {
        PACKET_MDU as nat
    }
}

/// The wire length that a packet is accounted with.
pub fn packet_wire_len(packet: &Packet) -> (r: usize)
    ensures
        r == accounted_len(packet@),
{
    if packet.data.len() > WIRE_SCRATCH {
        return PACKET_MDU;
    }
    let mut len: usize = HEADER_LEN + packet.data.len();
    if packet.header.header_type == HeaderType::Type2 && packet.transport.is_some() {
        len += 16;
    }
    if len <= WIRE_SCRATCH {
        len
    } else {
        PACKET_MDU
    }
}

/// An announce that waits for airtime.
#[derive(Debug)]
pub struct QueuedAnnounce {
    pub packet: Packet,
    pub queued_at: u64,
    pub emitted: u64,
}

/// An announce that waits for airtime, as a mathematical value.
#[verifier::ext_equal]
pub struct QueuedView {
    pub packet: PacketView,
    pub queued_at: u64,
    pub emitted: u64,
}

impl View for QueuedAnnounce {
    type V = QueuedView;

    open spec fn view(&self) -> QueuedView {
        QueuedView { packet: self.packet@, queued_at: self.queued_at, emitted: self.emitted }
    }
}

/// Whether a queued announce is too old to be sent.
pub open spec fn is_stale(entry: QueuedView, now: u64) -> bool {
    now > entry.queued_at + QUEUED_ANNOUNCE_LIFE
}

pub(crate) fn queued_is_stale(entry: &QueuedAnnounce, now: u64) -> (r: bool)
    ensures
        r == is_stale(entry@, now),
{
    now as u128 > entry.queued_at as u128 + QUEUED_ANNOUNCE_LIFE as u128
}

/// How often something happens: `count` times in `span` nanoseconds.
#[derive(Debug, Clone, Copy, PartialEq, Eq, Structural)]
pub struct Frequency {
    pub count: u64,
    pub span: u64,
}

impl Frequency {
    /// Whether the frequency is above a limit in thousandths of a hertz.
    pub open spec fn exceeds(self, limit: u64) -> bool {
        self.count * 1_000_000_000_000 > limit * self.span
    }

    /// Whether the frequency is below a limit in thousandths of a hertz.
    pub open spec fn falls_below(self, limit: u64) -> bool {
        self.count * 1_000_000_000_000 < limit * self.span
    }

    /// Whether the frequency is above a limit in thousandths of a hertz.
    pub fn is_above(&self, limit: u64) -> (r: bool)
        ensures
            r == self.exceeds(limit),
    {
        self.count as u128 * 1_000_000_000_000 > product(limit, self.span)
    }

    /// Whether the frequency is below a limit in thousandths of a hertz.
    pub fn is_below(&self, limit: u64) -> (r: bool)
        ensures
            r == self.falls_below(limit),
    {
        (self.count as u128 * 1_000_000_000_000) < product(limit, self.span)
    }
}

/// The product of two numbers.
pub(crate) fn product(a: u64, b: u64) -> (r: u128)
    ensures
        r == a * b,
{
    assert(a * b <= 0xffff_ffff_ffff_ffff * 0xffff_ffff_ffff_ffff) by (nonlinear_arith)
        requires
            a <= 0xffff_ffff_ffff_ffff,
            b <= 0xffff_ffff_ffff_ffff,
    ;
    a as u128 * b as u128
}

/// The time between two instants; zero when the first is later.
pub open spec fn elapsed(from: u64, now: u64) -> u64 {
    if now >= from {
        (now - from) as u64
    } else {
        0
    }
}

pub(crate) fn since(from: u64, now: u64) -> (r: u64)
    ensures
        r == elapsed(from, now),
{
    if now >= from {
        now - from
    } else {
        0
    }
}

/// An instant later by a span, as far as the clock reaches.
pub open spec fn later(now: u64, span: u64) -> u64 {
    if now + span <= u64::MAX {
        (now + span) as u64
    } else {
        u64::MAX
    }
}

/// Samples with one more, without the oldest when there are enough.
pub open spec fn sampled(samples: Seq<u64>, now: u64) -> Seq<u64> {
    if samples.len() == FREQ_SAMPLES {
        samples.skip(1).push(now)
    } else {
        samples.push(now)
    }
}

/// The frequency of samples; nothing is said of so few of them.
pub open spec fn frequency_of(samples: Seq<u64>, min_samples: nat, now: u64) -> Frequency {
    if samples.len() > min_samples && elapsed(samples[0], now) > 0 {
        Frequency { count: samples.len() as u64, span: elapsed(samples[0], now) }
    } else {
        Frequency { count: 0, span: 1 }
    }
}

/// Samples after they were measured: the oldest decays.
pub open spec fn measured(samples: Seq<u64>, decay: u64, min_samples: nat, now: u64) -> Seq<u64> {
    if samples.len() > min_samples && elapsed(samples[0], now) > decay {
        samples.skip(1)
    } else {
        samples
    }
}

/// Takes one more sample.
pub(crate) fn push_sample(samples: &mut VecDeque<u64>, now: u64)
    requires
        old(samples)@.len() <= FREQ_SAMPLES,
    ensures
        final(samples)@ == sampled(old(samples)@, now),
        final(samples)@.len() <= FREQ_SAMPLES,
{
    if samples.len() == FREQ_SAMPLES {
        let _ = samples.pop_front();
        assert(samples@ =~= old(samples)@.skip(1));
    }
    samples.push_back(now);
}

/// Measures the frequency of samples.
pub(crate) fn frequency(samples: &mut VecDeque<u64>, decay: u64, min_samples: usize, now: u64) -> (r:
    Frequency)
    requires
        old(samples)@.len() <= FREQ_SAMPLES,
    ensures
        r == frequency_of(old(samples)@, min_samples as nat, now),
        final(samples)@ == measured(old(samples)@, decay, min_samples as nat, now),
{
    let n: usize = samples.len();
    if n <= min_samples {
        return Frequency { count: 0, span: 1 };
    }
    let oldest: u64 = samples[0];
    let span: u64 = since(oldest, now);
    if span > decay {
        let _ = samples.pop_front();
        assert(samples@ =~= old(samples)@.skip(1));
    }
    if span == 0 {
        Frequency { count: 0, span: 1 }
    } else {
        Frequency { count: n as u64, span }
    }
}

} // verus!
