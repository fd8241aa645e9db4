use vstd::prelude::*;

verus! {

/// Where a worker stands in its life.
#[derive(Clone, Copy, Debug, PartialEq, Eq, Structural)]
pub enum Phase {
    /// Waiting for the token, the polling timer, or shutdown.
    Idle,
    /// Shutdown was seen; the worker takes no more tokens.
    Terminating,
}

/// What a worker does on one wake.
#[derive(Clone, Copy, Debug, PartialEq, Eq, Structural)]
pub enum WakeAction {
    /// Nothing to do: no token at hand nor on the inbound link.
    Rest,
    /// Take the token from the inbound link and try to send it on.
    Forward,
    /// Try again to send the token that an earlier full outbound link left in hand.
    Retry,
}

/// The decisions of one worker of the ring.
///
/// Forwarding policy: when the outbound link is full the worker keeps the token
/// and retries the send on its next wake, before it takes anything else, so a
/// full link never loses the token.
#[derive(Clone, Copy, Debug, PartialEq, Eq, Structural)]
pub struct Worker {
    pub initiator: bool,
    /// The worker has taken the token and not yet placed it on its outbound link.
    pub holding: bool,
    pub phase: Phase,
}

/// A worker as built by the ring assembler.
pub open spec fn fresh_worker(initiator: bool) -> Worker {
    Worker { initiator, holding: false, phase: Phase::Idle }
}

/// The action a worker takes when woken, given whether a token waits on its inbound link.
pub open spec fn wake_action(w: Worker, token_available: bool) -> WakeAction {
    if w.phase == Phase::Terminating {
        WakeAction::Rest
    } else if w.holding {
        WakeAction::Retry
    } else if token_available {
        WakeAction::Forward
    } else {
        WakeAction::Rest
    }
}

impl Worker {
    /// A worker in `Idle` holding nothing.
    pub fn new(initiator: bool) -> (r: Worker)
        ensures
            r == fresh_worker(initiator),
    {
        Worker { initiator, holding: false, phase: Phase::Idle }
    }

    /// Whether this worker creates the token and sends it before its first wait.
    pub fn injects(&self) -> (r: bool)
        ensures
            r == self.initiator,
    {
        self.initiator
    }

    /// Decides what to do on a wake. A wake with nothing in hand and nothing on
    /// the inbound link (a timer tick) is `Rest`, and deciding changes nothing.
    pub fn on_wake(&self, token_available: bool) -> (r: WakeAction)
        ensures
            r == wake_action(*self, token_available),
            !self.holding && !token_available ==> r == WakeAction::Rest,
    {
        match self.phase {
            Phase::Terminating => WakeAction::Rest,
            Phase::Idle => {
                if self.holding {
                    WakeAction::Retry
                } else if token_available {
                    WakeAction::Forward
                } else {
                    WakeAction::Rest
                }
            },
        }
    }

    /// Records that the token was taken from the inbound link.
    pub fn took(&mut self)
        ensures
            *final(self) == (Worker { holding: true, ..*old(self) }),
    {
        self.holding = true;
    }

    /// Records the outcome of a send: the token leaves the worker's hand only if
    /// the outbound link accepted it.
    pub fn sent(&mut self, accepted: bool)
        ensures
            *final(self) == (Worker { holding: old(self).holding && !accepted, ..*old(self) }),
    {
        if accepted {
            self.holding = false;
        }
    }

    /// Moves the worker to `Terminating`, whatever it holds, and says whether it
    /// must report the token lost: it still holds one, or one waits unread on
    /// its inbound link.
    pub fn shutdown(&mut self, inbound_pending: bool) -> (lost: bool)
        ensures
            *final(self) == (Worker { phase: Phase::Terminating, ..*old(self) }),
            lost == (old(self).holding || inbound_pending),
    {
        self.phase = Phase::Terminating;
        self.holding || inbound_pending
    }
}

} // verus!
