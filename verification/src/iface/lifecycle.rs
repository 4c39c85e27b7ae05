//! The life of an interface on a connection: opening it, serving it in both directions, losing
//! it, waiting and opening it again.

use vstd::prelude::*;

use crate::iface::backbone;
use crate::iface::i2p;
use crate::iface::kiss;
use crate::iface::local;
use crate::iface::rnode_session;
use crate::iface::serial;

verus! {

/// What a failed write does to a connection.
#[derive(Clone, Copy, Debug, PartialEq, Eq, Structural)]
pub enum WriteFailure {
    /// The packet is lost; the connection goes on.
    Ignored,
    /// Nothing more is written; what comes in is still read.
    EndsWriting,
    /// The connection is over.
    EndsConnection,
}

/// How an interface treats its connection. Times are in nanoseconds.
#[derive(Clone, Copy, Debug, PartialEq, Eq, Structural)]
pub struct Policy {
    /// Whether the interface can open the connection itself.
    pub opens: bool,
    /// How long a connection that was opened is left alone at first.
    pub settle_wait: u64,
    /// How long to wait when the connection could not be opened.
    pub retry_wait: u64,
    /// How long to wait when the connection was lost.
    pub lost_wait: u64,
    /// Whether packets to send are dropped while there is no connection.
    pub drops_while_closed: bool,
    /// Whether the connection is over once nothing more comes in.
    pub ends_with_reader: bool,
    pub write_failure: WriteFailure,
}

/// Where an interface is in its life.
#[derive(Clone, Copy, Debug, PartialEq, Eq, Structural)]
pub enum Stage {
    /// It is about to open a connection.
    Opening,
    /// It has a connection, of which it uses these directions.
    Serving { reading: bool, writing: bool },
    /// It waits for this long before it opens a connection.
    Waiting(u64),
    /// It is done.
    Finished,
}

/// The life of an interface.
#[derive(Clone, Copy, Debug, PartialEq, Eq, Structural)]
pub struct Lifecycle {
    pub policy: Policy,
    pub stage: Stage,
}

/// What follows the end of a connection.
pub open spec fn after_loss(policy: Policy) -> Stage {
    if !policy.opens {
        Stage::Finished
    } else if policy.lost_wait == 0 {
        Stage::Opening
    } else {
        Stage::Waiting(policy.lost_wait)
    }
}

/// What follows when these directions of a connection are left.
pub open spec fn left_with(policy: Policy, reading: bool, writing: bool) -> Stage {
    if reading || writing {
        Stage::Serving { reading, writing }
    } else {
        after_loss(policy)
    }
}

/// After an attempt to open a connection.
pub open spec fn after_open(life: Lifecycle, opened: bool) -> Lifecycle {
    if life.stage != Stage::Opening {
        life
    } else if opened {
        Lifecycle { stage: Stage::Serving { reading: true, writing: true }, ..life }
    } else {
        Lifecycle { stage: Stage::Waiting(life.policy.retry_wait), ..life }
    }
}

/// After a wait.
pub open spec fn after_wait(life: Lifecycle) -> Lifecycle {
    if life.stage is Waiting {
        Lifecycle { stage: Stage::Opening, ..life }
    } else {
        life
    }
}

/// After nothing more comes in.
pub open spec fn after_reader_end(life: Lifecycle) -> Lifecycle {
    match life.stage {
        Stage::Serving { reading, writing } => Lifecycle {
            stage: left_with(life.policy, false, writing && !life.policy.ends_with_reader),
            ..life
        },
        _ => life,
    }
}

/// After a write failed.
pub open spec fn after_write_failure(life: Lifecycle) -> Lifecycle {
    match life.stage {
        Stage::Serving { reading, writing } => match life.policy.write_failure {
            WriteFailure::Ignored => life,
            WriteFailure::EndsWriting => Lifecycle {
                stage: left_with(life.policy, reading, false),
                ..life
            },
            WriteFailure::EndsConnection => Lifecycle { stage: after_loss(life.policy), ..life },
        },
        _ => life,
    }
}

/// What an interface is connected by.
#[derive(Clone, Copy, Debug, PartialEq, Eq, Structural)]
pub enum Medium {
    /// A serial port.
    Serial,
    /// A terminal node controller on a serial port.
    Controller,
    /// A child process, which is started again after this delay.
    Process(u64),
    /// A backbone connection.
    Backbone,
    /// A stream over I2P.
    I2p,
    /// A connection to or from a shared instance.
    Shared,
    /// A radio.
    Radio,
}

/// How an interface treats its connection.
pub open spec fn policy_of(medium: Medium, opens: bool) -> Policy {
    match medium {
        Medium::Serial => Policy {
            opens,
            settle_wait: serial::SETTLE_WAIT,
            retry_wait: serial::RECONNECT_WAIT,
            lost_wait: serial::RECONNECT_WAIT,
            drops_while_closed: false,
            ends_with_reader: true,
            write_failure: WriteFailure::Ignored,
        },
        Medium::Controller => Policy {
            opens,
            settle_wait: kiss::SETTLE_WAIT,
            retry_wait: kiss::RECONNECT_WAIT,
            lost_wait: kiss::RECONNECT_WAIT,
            drops_while_closed: false,
            ends_with_reader: true,
            write_failure: WriteFailure::Ignored,
        },
        Medium::Process(delay) => Policy {
            opens,
            settle_wait: 0,
            retry_wait: delay,
            lost_wait: delay,
            drops_while_closed: false,
            ends_with_reader: true,
            write_failure: WriteFailure::EndsConnection,
        },
        Medium::Backbone => Policy {
            opens,
            settle_wait: 0,
            retry_wait: backbone::RECONNECT_WAIT,
            lost_wait: backbone::RECONNECT_WAIT,
            drops_while_closed: false,
            ends_with_reader: false,
            write_failure: WriteFailure::EndsWriting,
        },
        Medium::I2p => Policy {
            opens,
            settle_wait: 0,
            retry_wait: i2p::RECONNECT_WAIT,
            lost_wait: i2p::RECONNECT_WAIT,
            drops_while_closed: false,
            ends_with_reader: false,
            write_failure: WriteFailure::EndsWriting,
        },
        Medium::Shared => Policy {
            opens,
            settle_wait: 0,
            retry_wait: local::RECONNECT_WAIT,
            lost_wait: 0,
            drops_while_closed: true,
            ends_with_reader: true,
            write_failure: WriteFailure::Ignored,
        },
        Medium::Radio => Policy {
            opens,
            settle_wait: 0,
            retry_wait: rnode_session::RECONNECT_WAIT,
            lost_wait: rnode_session::RECONNECT_WAIT,
            drops_while_closed: false,
            ends_with_reader: true,
            write_failure: WriteFailure::EndsConnection,
        },
    }
}

/// The life of an interface at its start: it opens its connection, or was given it.
pub open spec fn started(medium: Medium, opens: bool) -> Lifecycle {
    Lifecycle {
        policy: policy_of(medium, opens),
        stage: if opens {
            Stage::Opening
        } else {
            Stage::Serving { reading: true, writing: true }
        },
    }
}

impl Policy {
    /// How an interface treats its connection.
    pub fn new(medium: Medium, opens: bool) -> (r: Self)
        ensures
            r == policy_of(medium, opens),
    {
        let (settle_wait, retry_wait, lost_wait): (u64, u64, u64) = match medium {
            Medium::Serial => (serial::SETTLE_WAIT, serial::RECONNECT_WAIT, serial::RECONNECT_WAIT),
            Medium::Controller => (kiss::SETTLE_WAIT, kiss::RECONNECT_WAIT, kiss::RECONNECT_WAIT),
            Medium::Process(delay) => (0, delay, delay),
            Medium::Backbone => (0, backbone::RECONNECT_WAIT, backbone::RECONNECT_WAIT),
            Medium::I2p => (0, i2p::RECONNECT_WAIT, i2p::RECONNECT_WAIT),
            Medium::Shared => (0, local::RECONNECT_WAIT, 0),
            Medium::Radio => (0, rnode_session::RECONNECT_WAIT, rnode_session::RECONNECT_WAIT),
        };
        let write_failure: WriteFailure = match medium {
            Medium::Serial => WriteFailure::Ignored,
            Medium::Controller => WriteFailure::Ignored,
            Medium::Process(_) => WriteFailure::EndsConnection,
            Medium::Backbone => WriteFailure::EndsWriting,
            Medium::I2p => WriteFailure::EndsWriting,
            Medium::Shared => WriteFailure::Ignored,
            Medium::Radio => WriteFailure::EndsConnection,
        };
        Policy {
            opens,
            settle_wait,
            retry_wait,
            lost_wait,
            drops_while_closed: match medium {
                Medium::Shared => true,
                _ => false,
            },
            ends_with_reader: match medium {
                Medium::Backbone => false,
                Medium::I2p => false,
                _ => true,
            },
            write_failure,
        }
    }

    /// What follows the end of a connection.
    fn lost(&self) -> (r: Stage)
        ensures
            r == after_loss(*self),
    {
        if !self.opens {
            Stage::Finished
        } else if self.lost_wait == 0 {
            Stage::Opening
        } else {
            Stage::Waiting(self.lost_wait)
        }
    }

    /// What follows when these directions of a connection are left.
    fn left(&self, reading: bool, writing: bool) -> (r: Stage)
        ensures
            r == left_with(*self, reading, writing),
    {
        if reading || writing {
            Stage::Serving { reading, writing }
        } else {
            self.lost()
        }
    }
}

impl Lifecycle {
    /// The life of an interface that opens its connection, or was given it.
    pub fn new(medium: Medium, opens: bool) -> (r: Self)
        ensures
            r == started(medium, opens),
    {
        Lifecycle {
            policy: Policy::new(medium, opens),
            stage: if opens {
                Stage::Opening
            } else {
                Stage::Serving { reading: true, writing: true }
            },
        }
    }

    /// Whether the interface counts as online.
    pub fn online(&self) -> (r: bool)
        ensures
            r == self.stage is Serving,
    {
        match self.stage {
            Stage::Serving { .. } => true,
            _ => false,
        }
    }

    /// Whether a packet to send is dropped now.
    pub fn drops(&self) -> (r: bool)
        ensures
            r == (!(self.stage is Serving) && self.policy.drops_while_closed),
    {
        !self.online() && self.policy.drops_while_closed
    }

    /// Takes note of an attempt to open the connection.
    pub fn on_open(&mut self, opened: bool)
        ensures
            *final(self) == after_open(*old(self), opened),
    {
        if let Stage::Opening = self.stage {
            self.stage = if opened {
                Stage::Serving { reading: true, writing: true }
            } else {
                Stage::Waiting(self.policy.retry_wait)
            };
        }
    }

    /// Takes note of the end of a wait.
    pub fn on_waited(&mut self)
        ensures
            *final(self) == after_wait(*old(self)),
    {
        if let Stage::Waiting(_) = self.stage {
            self.stage = Stage::Opening;
        }
    }

    /// Takes note that nothing more comes in.
    pub fn on_reader_end(&mut self)
        ensures
            *final(self) == after_reader_end(*old(self)),
    {
        if let Stage::Serving { reading: _, writing } = self.stage {
            self.stage = self.policy.left(false, writing && !self.policy.ends_with_reader);
        }
    }

    /// Takes note of a failed write.
    pub fn on_write_failure(&mut self)
        ensures
            *final(self) == after_write_failure(*old(self)),
    {
        if let Stage::Serving { reading, writing: _ } = self.stage {
            match self.policy.write_failure {
                WriteFailure::Ignored => {},
                WriteFailure::EndsWriting => {
                    self.stage = self.policy.left(reading, false);
                },
                WriteFailure::EndsConnection => {
                    self.stage = self.policy.lost();
                },
            }
        }
    }

    /// Takes note that the interface is to stop.
    pub fn on_cancel(&mut self)
        ensures
            *final(self) == (Lifecycle { stage: Stage::Finished, ..*old(self) }),
    {
        self.stage = Stage::Finished;
    }
}

/// An interface that is done stays done.
pub proof fn finished_stays_finished(life: Lifecycle, opened: bool)
    requires
        life.stage == Stage::Finished,
    ensures
        after_open(life, opened) == life,
        after_wait(life) == life,
        after_reader_end(life) == life,
        after_write_failure(life) == life,
{
}

/// An interface that was given its connection is done when the connection is over, and never opens
/// another.
pub proof fn given_connections_are_not_opened(life: Lifecycle)
    requires
        !life.policy.opens,
        life.stage is Serving || life.stage is Finished,
    ensures
        after_reader_end(life).stage is Serving || after_reader_end(life).stage is Finished,
        after_write_failure(life).stage is Serving || after_write_failure(life).stage is Finished,
        after_write_failure(after_reader_end(life)).stage is Finished
            || life.policy.write_failure == WriteFailure::Ignored,
{
}

/// An interface that opens its connection itself never ends by itself: it opens another one, after
/// at most one wait.
pub proof fn lost_connections_are_opened_again(life: Lifecycle)
    requires
        life.policy.opens,
        !(life.stage is Finished),
    ensures
        !(after_reader_end(life).stage is Finished),
        !(after_write_failure(life).stage is Finished),
        !(after_open(life, false).stage is Finished),
        after_loss(life.policy) is Opening || after_wait(
            (Lifecycle { stage: after_loss(life.policy), ..life }),
        ).stage is Opening,
{
}

/// A connection that ends with its reader is not used once nothing more comes in.
pub proof fn closed_connections_are_left(life: Lifecycle)
    requires
        life.policy.ends_with_reader,
        life.stage is Serving,
    ensures
        after_reader_end(life).stage == after_loss(life.policy),
{
}

} // verus!
