//! The decisions of the cooperative network loops: the caller moves the
//! bytes and waits, and asks here what to do next.

pub mod e1000;

use vstd::prelude::*;

verus! {

/// The port on which the node listens for the administrator.
pub const LISTEN_PORT: u16 = 1234;

/// What the driving loop does next.
#[derive(Clone, Copy, Debug, PartialEq, Eq, Structural)]
pub enum Next {
    /// The work is complete.
    Done,
    /// Progress was made: try again at once.
    Retry,
    /// No progress can be made now: let the network stack work, halt the
    /// processor until the next interrupt, then try again.
    Halt,
}

/// The progress of moving a fixed number of bytes over the connection, piece
/// by piece.
#[derive(Clone, Copy, Debug, PartialEq, Eq, Structural)]
pub struct Transfer {
    pub total: usize,
    pub moved: usize,
}

impl Transfer {
    /// No more was moved than there is to move.
    pub open spec fn wf(&self) -> bool {
        self.moved <= self.total
    }

    /// A transfer of `total` bytes of which none was moved yet.
    pub fn new(total: usize) -> (transfer: Transfer)
        ensures
            transfer.wf(),
            transfer == (Transfer { total, moved: 0 }),
    {
        Transfer { total, moved: 0 }
    }

    /// The number of bytes that are still to move.
    pub fn remaining(&self) -> (r: usize)
        requires
            self.wf(),
        ensures
            r == self.total - self.moved,
    {
        self.total - self.moved
    }

    /// What the sending loop does after the connection has taken `amount`
    /// bytes of what was left of a transfer of `total` bytes of which `moved`
    /// were sent before: nothing more if all is sent now; halt if the
    /// connection took nothing, so that it can drain; try again at once if it
    /// took a part.
    pub open spec fn after_send(total: usize, moved: usize, amount: usize) -> Next {
        if moved + amount == total {
            Next::Done
        } else if amount == 0 {
            Next::Halt
        } else {
            Next::Retry
        }
    }

    /// Records that the connection has taken `amount` more bytes of an
    /// outgoing transfer. The loop never spins on a connection that takes
    /// nothing: it halts until the next interrupt and tries again then.
    pub fn send(&mut self, amount: usize) -> (next: Next)
        requires
            old(self).wf(),
            amount <= old(self).total - old(self).moved,
        ensures
            final(self).wf(),
            *final(self) == (Transfer { moved: (old(self).moved + amount) as usize, ..*old(self) }),
            next == Self::after_send(old(self).total, old(self).moved, amount),
    {
        self.moved += amount;
        if self.moved == self.total {
            Next::Done
        } else if amount == 0 {
            Next::Halt
        } else {
            Next::Retry
        }
    }

    /// Records that the connection has delivered `amount` more bytes of an
    /// incoming transfer. While bytes are missing, the processor halts until
    /// the next interrupt before the connection is asked again.
    pub fn recv(&mut self, amount: usize) -> (next: Next)
        requires
            old(self).wf(),
            amount <= old(self).total - old(self).moved,
        ensures
            final(self).wf(),
            *final(self) == (Transfer { moved: (old(self).moved + amount) as usize, ..*old(self) }),
            next == if final(self).moved == final(self).total {
                Next::Done
            } else {
                Next::Halt
            },
    {
        self.moved += amount;
        if self.moved == self.total {
            Next::Done
        } else {
            Next::Halt
        }
    }
}

/// What to do while waiting for the administrator to connect.
#[derive(Clone, Copy, Debug, PartialEq, Eq, Structural)]
pub struct ConnectionStep {
    /// The port to listen on, if the socket is not open yet.
    pub listen: Option<u16>,
    /// Whether the connection stands, or the processor halts until the next
    /// interrupt before the socket is asked again.
    pub next: Next,
}

/// One step of waiting for the connection, by the state of the socket: a
/// socket that is not open is put to listening, and the wait is over as soon
/// as the socket can send.
pub fn wait_for_connection(is_open: bool, may_send: bool) -> (step: ConnectionStep)
    ensures
        step.listen == if is_open {
            None
        } else {
            Some(LISTEN_PORT)
        },
        step.next == if may_send {
            Next::Done
        } else {
            Next::Halt
        },
{
    ConnectionStep {
        listen: if is_open {
            None
        } else {
            Some(LISTEN_PORT)
        },
        next: if may_send {
            Next::Done
        } else {
            Next::Halt
        },
    }
}

} // verus!
