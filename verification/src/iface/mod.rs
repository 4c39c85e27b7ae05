//! Interfaces: framing, access codes, traffic control and the protocols of the devices behind
//! them.

pub mod access_laws;
pub mod auto;
pub mod auto_peers;
pub mod ax25;
pub mod backbone;
pub mod connection_laws;
pub mod control;
pub mod control_laws;
pub mod control_state;
pub mod counters;
pub mod decoder_laws;
pub mod device_laws;
pub mod dispatch;
pub mod dispatch_laws;
pub mod hdlc;
pub mod i2p;
pub mod ifac;
pub mod kiss;
pub mod lifecycle;
pub mod local;
pub mod manager;
pub mod pipe;
pub mod rnode;
pub mod rnode_parser;
pub mod rnode_session;
pub mod serial;
pub mod stream;
pub mod transmit;

pub use control::{IfaceControlParams, InterfaceMode};
pub use control_state::IfaceControlState;
pub use counters::InterfaceCounters;
pub use manager::{
    IfaceStats, InterfaceEntry, InterfaceManager, InterfaceStats, RxMessage, TxMessage,
    TxMessageType,
};

use vstd::prelude::*;

verus! {

/// A kind of interface.
pub trait Interface {
    /// The longest packet that it carries.
    fn mtu() -> usize;
}

} // verus!
