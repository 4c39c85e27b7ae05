//! Counters of one interface.
//!
//! Counters wrap around. The last radio readings are kept as reported: the signal-to-noise ratio
//! and the link quality as the bits of single precision numbers.

use vstd::prelude::*;

verus! {

/// The bits that stand for a reading that was never reported.
pub const UNREPORTED: u32 = 0xffff_ffff;

/// Counters of one interface.
#[derive(Debug, Clone, Copy, PartialEq, Eq, Structural)]
pub struct InterfaceCounters {
    /// Packets sent.
    pub sent: u64,
    /// Packets received.
    pub received: u64,
    /// Payload bytes sent.
    pub tx_bytes: u64,
    /// Payload bytes received.
    pub rx_bytes: u64,
    /// Whether the interface is up.
    pub online: bool,
    /// Announces received.
    pub announces_received: u64,
    /// Announces sent.
    pub announces_sent: u64,
    /// Bytes of announces received.
    pub announce_bytes_received: u64,
    /// Bytes of announces sent.
    pub announce_bytes_sent: u64,
    /// Path requests received.
    pub path_requests_received: u64,
    /// Path requests sent.
    pub path_requests_sent: u64,
    /// Violations of the protocol.
    pub protocol_violations: u64,
    /// Packets with wrong access codes.
    pub ifac_violations: u64,
    /// Packets that were filtered out.
    pub packet_filter_hits: u64,
    /// Last reported signal strength in decibel-milliwatts.
    pub rssi: Option<i16>,
    /// Bits of the last reported signal-to-noise ratio in decibels.
    pub snr_bits: u32,
    /// Bits of the last reported link quality in percent.
    pub quality_bits: u32,
}

/// The counters of a new interface.
pub open spec fn new_counters() -> InterfaceCounters {
    InterfaceCounters {
        sent: 0,
        received: 0,
        tx_bytes: 0,
        rx_bytes: 0,
        online: false,
        announces_received: 0,
        announces_sent: 0,
        announce_bytes_received: 0,
        announce_bytes_sent: 0,
        path_requests_received: 0,
        path_requests_sent: 0,
        protocol_violations: 0,
        ifac_violations: 0,
        packet_filter_hits: 0,
        rssi: None,
        snr_bits: UNREPORTED,
        quality_bits: UNREPORTED,
    }
}

/// A reading, where one was reported.
pub open spec fn reported(bits: u32) -> Option<u32> {
    if bits == UNREPORTED {
        None
    } else {
        Some(bits)
    }
}

fn reading(bits: u32) -> (r: Option<u32>)
    ensures
        r == reported(bits),
{
    if bits == UNREPORTED {
        None
    } else {
        Some(bits)
    }
}

impl Default for InterfaceCounters {
    fn default() -> (r: Self)
        ensures
            r == new_counters(),
    {
        InterfaceCounters {
            sent: 0,
            received: 0,
            tx_bytes: 0,
            rx_bytes: 0,
            online: false,
            announces_received: 0,
            announces_sent: 0,
            announce_bytes_received: 0,
            announce_bytes_sent: 0,
            path_requests_received: 0,
            path_requests_sent: 0,
            protocol_violations: 0,
            ifac_violations: 0,
            packet_filter_hits: 0,
            rssi: None,
            snr_bits: UNREPORTED,
            quality_bits: UNREPORTED,
        }
    }
}

impl InterfaceCounters {
    /// A packet of so many payload bytes was sent.
    pub fn count_tx(&mut self, bytes: usize)
        ensures
            *final(self) == (InterfaceCounters {
                sent: old(self).sent.wrapping_add(1),
                tx_bytes: old(self).tx_bytes.wrapping_add(bytes as u64),
                ..*old(self)
            }),
    {
        self.sent = self.sent.wrapping_add(1);
        self.tx_bytes = self.tx_bytes.wrapping_add(bytes as u64);
    }

    /// A packet of so many payload bytes was received.
    pub fn count_rx(&mut self, bytes: usize)
        ensures
            *final(self) == (InterfaceCounters {
                received: old(self).received.wrapping_add(1),
                rx_bytes: old(self).rx_bytes.wrapping_add(bytes as u64),
                ..*old(self)
            }),
    {
        self.received = self.received.wrapping_add(1);
        self.rx_bytes = self.rx_bytes.wrapping_add(bytes as u64);
    }

    /// Sets whether the interface is up.
    pub fn set_online(&mut self, online: bool)
        ensures
            *final(self) == (InterfaceCounters { online, ..*old(self) }),
    {
        self.online = online;
    }

    /// An announce of so many bytes was received.
    pub fn count_announce_rx(&mut self, bytes: usize)
        ensures
            *final(self) == (InterfaceCounters {
                announces_received: old(self).announces_received.wrapping_add(1),
                announce_bytes_received: old(self).announce_bytes_received.wrapping_add(bytes as u64),
                ..*old(self)
            }),
    {
        self.announces_received = self.announces_received.wrapping_add(1);
        self.announce_bytes_received = self.announce_bytes_received.wrapping_add(bytes as u64);
    }

    /// An announce of so many bytes was sent.
    pub fn count_announce_tx(&mut self, bytes: usize)
        ensures
            *final(self) == (InterfaceCounters {
                announces_sent: old(self).announces_sent.wrapping_add(1),
                announce_bytes_sent: old(self).announce_bytes_sent.wrapping_add(bytes as u64),
                ..*old(self)
            }),
    {
        self.announces_sent = self.announces_sent.wrapping_add(1);
        self.announce_bytes_sent = self.announce_bytes_sent.wrapping_add(bytes as u64);
    }

    /// A path request was received; its length does not count.
    pub fn count_path_request_rx(&mut self, _bytes: usize)
        ensures
            *final(self) == (InterfaceCounters {
                path_requests_received: old(self).path_requests_received.wrapping_add(1),
                ..*old(self)
            }),
    {
        self.path_requests_received = self.path_requests_received.wrapping_add(1);
    }

    /// A path request was sent; its length does not count.
    pub fn count_path_request_tx(&mut self, _bytes: usize)
        ensures
            *final(self) == (InterfaceCounters {
                path_requests_sent: old(self).path_requests_sent.wrapping_add(1),
                ..*old(self)
            }),
    {
        self.path_requests_sent = self.path_requests_sent.wrapping_add(1);
    }

    /// The protocol was violated.
    pub fn count_protocol_violation(&mut self)
        ensures
            *final(self) == (InterfaceCounters {
                protocol_violations: old(self).protocol_violations.wrapping_add(1),
                ..*old(self)
            }),
    {
        self.protocol_violations = self.protocol_violations.wrapping_add(1);
    }

    /// An access code was wrong.
    pub fn count_ifac_violation(&mut self)
        ensures
            *final(self) == (InterfaceCounters {
                ifac_violations: old(self).ifac_violations.wrapping_add(1),
                ..*old(self)
            }),
    {
        self.ifac_violations = self.ifac_violations.wrapping_add(1);
    }

    /// A packet was filtered out.
    pub fn count_packet_filter_hit(&mut self)
        ensures
            *final(self) == (InterfaceCounters {
                packet_filter_hits: old(self).packet_filter_hits.wrapping_add(1),
                ..*old(self)
            }),
    {
        self.packet_filter_hits = self.packet_filter_hits.wrapping_add(1);
    }

    /// Packets sent.
    pub fn sent(&self) -> (r: u64)
        ensures
            r == self.sent,
    {
        self.sent
    }

    /// Packets received.
    pub fn received(&self) -> (r: u64)
        ensures
            r == self.received,
    {
        self.received
    }

    /// Payload bytes sent.
    pub fn tx_bytes(&self) -> (r: u64)
        ensures
            r == self.tx_bytes,
    {
        self.tx_bytes
    }

    /// Payload bytes received.
    pub fn rx_bytes(&self) -> (r: u64)
        ensures
            r == self.rx_bytes,
    {
        self.rx_bytes
    }

    /// Whether the interface is up.
    pub fn online(&self) -> (r: bool)
        ensures
            r == self.online,
    {
        self.online
    }

    /// Announces received.
    pub fn announces_received(&self) -> (r: u64)
        ensures
            r == self.announces_received,
    {
        self.announces_received
    }

    /// Announces sent.
    pub fn announces_sent(&self) -> (r: u64)
        ensures
            r == self.announces_sent,
    {
        self.announces_sent
    }

    /// Bytes of announces received.
    pub fn announce_bytes_received(&self) -> (r: u64)
        ensures
            r == self.announce_bytes_received,
    {
        self.announce_bytes_received
    }

    /// Bytes of announces sent.
    pub fn announce_bytes_sent(&self) -> (r: u64)
        ensures
            r == self.announce_bytes_sent,
    {
        self.announce_bytes_sent
    }

    /// Path requests received.
    pub fn path_requests_received(&self) -> (r: u64)
        ensures
            r == self.path_requests_received,
    {
        self.path_requests_received
    }

    /// Path requests sent.
    pub fn path_requests_sent(&self) -> (r: u64)
        ensures
            r == self.path_requests_sent,
    {
        self.path_requests_sent
    }

    /// Violations of the protocol.
    pub fn protocol_violations(&self) -> (r: u64)
        ensures
            r == self.protocol_violations,
    {
        self.protocol_violations
    }

    /// Packets with wrong access codes.
    pub fn ifac_violations(&self) -> (r: u64)
        ensures
            r == self.ifac_violations,
    {
        self.ifac_violations
    }

    /// Packets that were filtered out.
    pub fn packet_filter_hits(&self) -> (r: u64)
        ensures
            r == self.packet_filter_hits,
    {
        self.packet_filter_hits
    }

    /// Takes new radio readings; what is not reported stays as it was.
    pub fn set_radio_quality(
        &mut self,
        rssi: Option<i16>,
        snr_bits: Option<u32>,
        quality_bits: Option<u32>,
    )
        ensures
            *final(self) == (InterfaceCounters {
                rssi: if rssi is Some {
                    rssi
                } else {
                    old(self).rssi
                },
                snr_bits: match snr_bits {
                    Some(bits) => bits,
                    None => old(self).snr_bits,
                },
                quality_bits: match quality_bits {
                    Some(bits) => bits,
                    None => old(self).quality_bits,
                },
                ..*old(self)
            }),
    {
        if rssi.is_some() {
            self.rssi = rssi;
        }
        if let Some(bits) = snr_bits {
            self.snr_bits = bits;
        }
        if let Some(bits) = quality_bits {
            self.quality_bits = bits;
        }
    }

    /// Last reported signal strength.
    pub fn rssi(&self) -> (r: Option<i16>)
        ensures
            r == self.rssi,
    {
        self.rssi
    }

    /// Bits of the last reported signal-to-noise ratio.
    pub fn snr(&self) -> (r: Option<u32>)
        ensures
            r == reported(self.snr_bits),
    {
        reading(self.snr_bits)
    }

    /// Bits of the last reported link quality.
    pub fn quality(&self) -> (r: Option<u32>)
        ensures
            r == reported(self.quality_bits),
    {
        reading(self.quality_bits)
    }
}

} // verus!
