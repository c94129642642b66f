//! The connection supervisor: owns one session's lifecycle.
//!
//! A session takes its bus subscription once, starts its two workers,
//! waits for either to finish, and then — whatever ended first — cancels
//! the other worker, releases the subscription and closes the transport.
//! Teardown is idempotent: the second worker's exit, or a repeated exit
//! report, changes nothing further. The supervisor is a state machine;
//! the surrounding runtime performs the [`Action`]s it returns and feeds
//! the resulting events back in.

use vstd::prelude::*;

verus! {

/// The two workers of a session.
#[derive(Clone, Copy, Debug, PartialEq, Eq, Structural)]
pub enum Worker {
    Inbound,
    Outbound,
}

/// What the supervisor asks its runtime to do after a step.
#[derive(Clone, Copy, Debug, PartialEq, Eq, Structural)]
pub enum Action {
    /// Start both workers.
    SpawnWorkers,
    /// Ask the inbound writer to stop at its next cancellation point.
    CancelInbound,
    /// Ask the outbound forwarder to stop at its next cancellation point.
    CancelOutbound,
    /// Release the bus subscription.
    Unsubscribe,
    /// Close both halves of the transport.
    CloseTransport,
}

/// Lifecycle phase of a session.
#[derive(Clone, Copy, Debug, PartialEq, Eq, Structural)]
pub enum Phase {
    /// Created; the subscription has not been taken yet.
    Starting,
    /// Subscription held, both workers running.
    Active,
    /// One worker exited; all resources are released and the other
    /// worker was cancelled, but has not yet been seen to stop.
    Draining,
    /// Both workers stopped; the session is over.
    Closed,
}

/// The supervisor's state. `subscribes` and `unsubscribes` count the
/// calls made on the bus, so that the subscription balance is part of
/// the state itself.
pub struct Supervisor {
    pub user_id: i32,
    pub chat_id: i32,
    pub phase: Phase,
    pub subscribed: bool,
    pub subscribes: u32,
    pub unsubscribes: u32,
    pub transport_closed: bool,
    pub inbound_running: bool,
    pub outbound_running: bool,
}

impl Supervisor {
    /// Well-formedness, established by `new` and preserved by every step:
    /// never more than one subscription, released subscriptions never
    /// outnumber taken ones, and each phase pins the resource state.
    pub open spec fn wf(&self) -> bool {
        &&& self.subscribes <= 1
        &&& self.unsubscribes <= self.subscribes
        &&& (self.subscribed <==> self.subscribes == self.unsubscribes + 1)
        &&& match self.phase {
            Phase::Starting => {
                &&& !self.subscribed
                &&& self.subscribes == 0
                &&& !self.inbound_running
                &&& !self.outbound_running
                &&& !self.transport_closed
            },
            Phase::Active => {
                &&& self.subscribed
                &&& self.subscribes == 1
                &&& self.unsubscribes == 0
                &&& self.inbound_running
                &&& self.outbound_running
                &&& !self.transport_closed
            },
            Phase::Draining => {
                &&& !self.subscribed
                &&& self.unsubscribes == self.subscribes
                &&& self.transport_closed
                &&& (self.inbound_running || self.outbound_running)
                &&& !(self.inbound_running && self.outbound_running)
            },
            Phase::Closed => {
                &&& !self.subscribed
                &&& self.unsubscribes == self.subscribes
                &&& !self.inbound_running
                &&& !self.outbound_running
            },
        }
    }

    /// A fresh session for one authenticated identity, holding nothing yet.
    pub fn new(user_id: i32, chat_id: i32) -> (r: Supervisor)
        ensures
            r.wf(),
            r.user_id == user_id,
            r.chat_id == chat_id,
            r.phase == Phase::Starting,
            r.subscribes == 0,
            r.unsubscribes == 0,
    {
        Supervisor {
            user_id,
            chat_id,
            phase: Phase::Starting,
            subscribed: false,
            subscribes: 0,
            unsubscribes: 0,
            transport_closed: false,
            inbound_running: false,
            outbound_running: false,
        }
    }

    /// The subscription was taken. The session becomes active and both
    /// workers are to be started — the forwarder holds its subscription
    /// before either worker runs, so no published message can be missed.
    pub fn on_subscribe_ok(&mut self) -> (acts: Vec<Action>)
        requires
            old(self).wf(),
            old(self).phase == Phase::Starting,
        ensures
            final(self).wf(),
            final(self).phase == Phase::Active,
            final(self).subscribes == 1,
            final(self).unsubscribes == 0,
            final(self).subscribed,
            final(self).user_id == old(self).user_id,
            final(self).chat_id == old(self).chat_id,
            acts@ == seq![Action::SpawnWorkers],
    {
        self.phase = Phase::Active;
        self.subscribed = true;
        self.subscribes = 1;
        self.inbound_running = true;
        self.outbound_running = true;
        let mut acts: Vec<Action> = Vec::new();
        acts.push(Action::SpawnWorkers);
        proof {
            assert(acts@ =~= seq![Action::SpawnWorkers]);
        }
        acts
    }

    /// Taking the subscription failed: session-fatal, since the session
    /// would have no delivery path. Nothing was acquired, so only the
    /// transport is closed.
    pub fn on_subscribe_err(&mut self) -> (acts: Vec<Action>)
        requires
            old(self).wf(),
            old(self).phase == Phase::Starting,
        ensures
            final(self).wf(),
            final(self).phase == Phase::Closed,
            final(self).subscribes == 0,
            final(self).unsubscribes == 0,
            final(self).user_id == old(self).user_id,
            final(self).chat_id == old(self).chat_id,
            acts@ == seq![Action::CloseTransport],
    {
        self.phase = Phase::Closed;
        self.transport_closed = true;
        let mut acts: Vec<Action> = Vec::new();
        acts.push(Action::CloseTransport);
        proof {
            assert(acts@ =~= seq![Action::CloseTransport]);
        }
        acts
    }

    /// A worker stopped, for whatever reason — clean end of input, a
    /// decode error, a store error, or a transport failure. The first
    /// exit tears the session down: the other worker is cancelled, the
    /// subscription released and the transport closed, on every path.
    /// Any later exit report is a no-op.
    pub fn on_worker_exit(&mut self, w: Worker) -> (acts: Vec<Action>)
        requires
            old(self).wf(),
            old(self).phase == Phase::Active || old(self).phase == Phase::Draining,
        ensures
            final(self).wf(),
            final(self).user_id == old(self).user_id,
            final(self).chat_id == old(self).chat_id,
            final(self).subscribes == old(self).subscribes,
            old(self).phase == Phase::Active ==> {
                &&& final(self).phase == Phase::Draining
                &&& !final(self).subscribed
                &&& final(self).unsubscribes == old(self).unsubscribes + 1
                &&& final(self).transport_closed
                &&& final(self).inbound_running == (w != Worker::Inbound)
                &&& final(self).outbound_running == (w != Worker::Outbound)
                &&& acts@ == seq![
                    if w == Worker::Inbound { Action::CancelOutbound } else { Action::CancelInbound },
                    Action::Unsubscribe,
                    Action::CloseTransport,
                ]
            },
            old(self).phase == Phase::Draining ==> {
                &&& final(self).unsubscribes == old(self).unsubscribes
                &&& final(self).subscribed == old(self).subscribed
                &&& final(self).inbound_running == (old(self).inbound_running && w
                    != Worker::Inbound)
                &&& final(self).outbound_running == (old(self).outbound_running && w
                    != Worker::Outbound)
                &&& acts@ == Seq::<Action>::empty()
                &&& final(self).phase == (if (w == Worker::Inbound && old(self).inbound_running)
                        || (w == Worker::Outbound && old(self).outbound_running) {
                        Phase::Closed
                    } else {
                        Phase::Draining
                    })
            },
    {
        let mut acts: Vec<Action> = Vec::new();
        match self.phase {
            Phase::Active => {
                match w {
                    Worker::Inbound => {
                        self.inbound_running = false;
                        acts.push(Action::CancelOutbound);
                    },
                    Worker::Outbound => {
                        self.outbound_running = false;
                        acts.push(Action::CancelInbound);
                    },
                }
                acts.push(Action::Unsubscribe);
                acts.push(Action::CloseTransport);
                self.subscribed = false;
                self.unsubscribes = self.unsubscribes + 1;
                self.transport_closed = true;
                self.phase = Phase::Draining;
                proof {
                    assert(acts@ =~= seq![
                        if w == Worker::Inbound { Action::CancelOutbound } else { Action::CancelInbound },
                        Action::Unsubscribe,
                        Action::CloseTransport,
                    ]);
                }
            },
            Phase::Draining => {
                match w {
                    Worker::Inbound => {
                        if self.inbound_running {
                            self.inbound_running = false;
                            self.phase = Phase::Closed;
                        }
                    },
                    Worker::Outbound => {
                        if self.outbound_running {
                            self.outbound_running = false;
                            self.phase = Phase::Closed;
                        }
                    },
                }
                proof {
                    assert(acts@ =~= Seq::<Action>::empty());
                }
            },
            _ => {
                // Excluded by the precondition: worker exits are only
                // reported while the session is active or draining.
                proof {
                    assert(false);
                }
            },
        }
        acts
    }

    /// The bounded grace period ran out before the cancelled worker
    /// acknowledged: its resources were already released at teardown, so
    /// the session is simply abandoned as closed rather than leaked.
    pub fn on_grace_expired(&mut self)
        requires
            old(self).wf(),
            old(self).phase == Phase::Draining,
        ensures
            final(self).wf(),
            final(self).phase == Phase::Closed,
            final(self).subscribes == old(self).subscribes,
            final(self).unsubscribes == old(self).unsubscribes,
            final(self).user_id == old(self).user_id,
            final(self).chat_id == old(self).chat_id,
    {
        self.inbound_running = false;
        self.outbound_running = false;
        self.phase = Phase::Closed;
    }
}

/// At-most-one-subscription balance: however a session ends — clean
/// close, read error, write error or persist error — once it has left
/// its active phase, every subscription that was taken has been
/// released, and at most one ever was.
pub proof fn lemma_subscription_balance(s: Supervisor)
    requires
        s.wf(),
        s.phase == Phase::Draining || s.phase == Phase::Closed,
    ensures
        s.subscribes == s.unsubscribes,
        s.subscribes <= 1,
{
}

} // verus!
