//! The session of one watcher: what to do next, given what just happened.
//!
//! A session belongs to one subscriber of the event bus. Whoever runs it hands
//! it an event, performs the action that comes back and returns with the next
//! event: forwarding a message to the watcher and waiting for a publication
//! are the runner's work, every decision is made here. A session that has
//! stopped has left the bus and stays stopped.

use crate::bus::{EventBus, TryRecvError};
use crate::messages::WatchResponse;
use vstd::prelude::*;

verus! {

/// What happened since the session's last action.
#[derive(Debug, Clone, Copy, PartialEq, Eq)]
pub enum SessionEvent {
    /// The session starts, or something may have been published.
    Ready,
    /// The watcher took the message that was to be forwarded.
    Forwarded,
    /// The message could not be forwarded: the watcher is gone.
    ForwardFailed,
    /// The service shuts down.
    Shutdown,
}

/// What the runner of a session does next.
#[derive(Debug, PartialEq, Eq)]
pub enum SessionAction {
    /// Forward this message to the watcher, then report `Forwarded` or
    /// `ForwardFailed`.
    Forward(WatchResponse),
    /// Nothing is queued: wait for a publication, then report `Ready`.
    Wait,
    /// The session is over.
    Stop,
}

/// The session of one watcher.
#[derive(Debug)]
pub struct WatchSession {
    id: u64,
    open: bool,
}

impl WatchSession {
    /// The handle under which the session subscribed to the bus.
    pub closed spec fn spec_handle(&self) -> u64 {
        self.id
    }

    /// Whether the session is still running.
    pub closed spec fn spec_is_open(&self) -> bool {
        self.open
    }

    /// The handle under which the session subscribed to the bus.
    #[verifier::when_used_as_spec(spec_handle)]
    pub fn handle(&self) -> (id: u64)
        ensures
            id == self.spec_handle(),
    {
        self.id
    }

    /// Whether the session is still running.
    #[verifier::when_used_as_spec(spec_is_open)]
    pub fn is_open(&self) -> (open: bool)
        ensures
            open == self.spec_is_open(),
    {
        self.open
    }

    /// Starts a session: subscribes to `bus`. The session will see what is
    /// published from now on. `None` is returned, and nothing changes, where
    /// the bus has no handle left to give.
    pub fn open(bus: &mut EventBus) -> (session: Option<Self>)
        requires
            old(bus).wf(),
        ensures
            final(bus).wf(),
            match session {
                Some(session) => {
                    &&& old(bus)@.issued < u64::MAX
                    &&& session.handle() == old(bus)@.issued
                    &&& session.is_open()
                    &&& final(bus)@ == old(bus)@.subscribe()
                },
                None => old(bus)@.issued == u64::MAX && final(bus)@ == old(bus)@,
            },
    {
        match bus.subscribe() {
            Some(id) => Some(WatchSession { id, open: true }),
            None => None,
        }
    }

    /// Decides the next action.
    ///
    /// A session that has stopped stays stopped and touches nothing. A running
    /// session stops and leaves the bus when the watcher is gone or the
    /// service shuts down. Otherwise it looks into its queue: it forwards the
    /// oldest message, waits where the queue is empty, and stops where the bus
    /// has disconnected it.
    pub fn step(&mut self, bus: &mut EventBus, event: SessionEvent) -> (action: SessionAction)
        requires
            old(bus).wf(),
        ensures
            final(bus).wf(),
            final(self).handle() == old(self).handle(),
            !old(self).is_open() ==> {
                &&& action is Stop
                &&& !final(self).is_open()
                &&& final(bus)@ == old(bus)@
            },
            old(self).is_open() && (event is ForwardFailed || event is Shutdown) ==> {
                &&& action is Stop
                &&& !final(self).is_open()
                &&& final(bus)@ == old(bus)@.unsubscribe(old(self).handle())
            },
            old(self).is_open() && (event is Ready || event is Forwarded) ==> {
                if !old(bus)@.subscribed(old(self).handle()) {
                    &&& action is Stop
                    &&& !final(self).is_open()
                    &&& final(bus)@ == old(bus)@
                } else if old(bus)@.pending(old(self).handle()).len() == 0 {
                    &&& action is Wait
                    &&& final(self).is_open()
                    &&& final(bus)@ == old(bus)@
                } else {
                    &&& action matches SessionAction::Forward(message)
                    &&& message@ == old(bus)@.pending(old(self).handle())[0]
                    &&& final(self).is_open()
                    &&& final(bus)@ == old(bus)@.receive(old(self).handle())
                }
            },
    {
        if !self.open {
            return SessionAction::Stop;
        }
        match event {
            SessionEvent::ForwardFailed | SessionEvent::Shutdown => {
                bus.unsubscribe(self.id);
                self.open = false;
                SessionAction::Stop
            },
            SessionEvent::Ready | SessionEvent::Forwarded => match bus.try_recv(self.id) {
                Ok(message) => SessionAction::Forward(WatchResponse::from_log_message(message)),
                Err(TryRecvError::Empty) => SessionAction::Wait,
                Err(TryRecvError::Closed) => {
                    self.open = false;
                    SessionAction::Stop
                },
            },
        }
    }
}

} // verus!
