//! The service: the prefix table and the event bus under one roof.
//!
//! Issuing an identifier reads the table only. Publishing the request and its
//! response changes the bus only. The two are separate functions, so that a
//! caller can answer a request before anything is published; `generate_uuid`
//! does both in order.

use crate::bus::{BusState, EventBus};
use crate::identifier::{compose, identifier_of, is_identifier, random_suffix};
use crate::messages::{LogMessage, UuidRequest, UuidResponse};
use crate::prefix_mappings::PrefixMappings;
use crate::session::WatchSession;
use vstd::prelude::*;

verus! {

/// The number of messages that the bus holds for each watcher.
pub const LOG_CHANNEL_CAPACITY: usize = 100;

/// Why no identifier was issued.
#[derive(Debug, Clone, Copy, PartialEq, Eq)]
pub enum IssueError {
    /// The table has no code for the prefix of the request.
    PrefixNotFound,
}

impl IssueError {
    /// The text that describes the error.
    pub fn message(&self) -> (text: String)
        ensures
            text@ == "Prefix mapping not found"@,
    {
        "Prefix mapping not found".to_owned()
    }
}

/// The identifier service.
pub struct UuidService {
    pub prefix_mappings: PrefixMappings,
    pub log_channel: EventBus,
}

impl UuidService {
    /// The invariant of the service is that of its bus.
    pub open spec fn wf(&self) -> bool {
        self.log_channel.wf()
    }

    /// A service over the given table, with nothing published and nobody
    /// watching.
    pub fn new(prefix_mappings: PrefixMappings) -> (service: Self)
        ensures
            service.wf(),
            service.prefix_mappings == prefix_mappings,
            service.log_channel@ == BusState::empty(LOG_CHANNEL_CAPACITY as nat),
    {
        UuidService { prefix_mappings, log_channel: EventBus::new(LOG_CHANNEL_CAPACITY) }
    }

    /// Answers `request` with the identifier made of the code of its prefix
    /// and the given suffix, or refuses it where the table has no such prefix.
    pub fn respond(&self, request: &UuidRequest, suffix: &str) -> (result: Result<
        UuidResponse,
        IssueError,
    >)
        ensures
            match result {
                Ok(response) => {
                    &&& self.prefix_mappings@.contains_key(request.prefix@)
                    &&& response.uuid@ == identifier_of(
                        self.prefix_mappings@[request.prefix@],
                        suffix@,
                    )
                },
                Err(error) => !self.prefix_mappings@.contains_key(request.prefix@),
            },
    {
        match self.prefix_mappings.get(request.prefix.as_str()) {
            Some(code) => Ok(UuidResponse { uuid: compose(code.as_str(), suffix) }),
            None => Err(IssueError::PrefixNotFound),
        }
    }

    /// Issues an identifier for `request`: the code of its prefix, an
    /// underscore and a fresh random suffix. The request is refused exactly
    /// where the table has no code for its prefix. Nothing is published.
    pub fn issue(&self, request: &UuidRequest) -> (result: Result<UuidResponse, IssueError>)
        ensures
            match result {
                Ok(response) => {
                    &&& self.prefix_mappings@.contains_key(request.prefix@)
                    &&& is_identifier(response.uuid@, self.prefix_mappings@[request.prefix@])
                },
                Err(error) => !self.prefix_mappings@.contains_key(request.prefix@),
            },
    {
        if self.prefix_mappings.get(request.prefix.as_str()).is_none() {
            return Err(IssueError::PrefixNotFound);
        }
        let suffix = random_suffix();
        let result = self.respond(request, suffix.as_str());
        proof {
            if result is Ok {
                assert(result->Ok_0.uuid@ == identifier_of(
                    self.prefix_mappings@[request.prefix@],
                    suffix@,
                ));
            }
        }
        result
    }

    /// Publishes a completed issuance: the request, then its response, with
    /// nothing in between.
    pub fn publish(&mut self, request: UuidRequest, response: UuidResponse)
        requires
            old(self).wf(),
        ensures
            final(self).wf(),
            final(self).prefix_mappings == old(self).prefix_mappings,
            final(self).log_channel@ == old(self).log_channel@.publish(request.event()).publish(
                response.event(),
            ),
    {
        self.log_channel.publish(LogMessage::Request(request));
        self.log_channel.publish(LogMessage::Response(response));
    }

    /// Handles one request from beginning to end: issues the identifier and
    /// publishes the request and the response, in this order. A request that
    /// is refused publishes nothing.
    pub fn generate_uuid(&mut self, request: UuidRequest) -> (result: Result<
        UuidResponse,
        IssueError,
    >)
        requires
            old(self).wf(),
        ensures
            final(self).wf(),
            final(self).prefix_mappings == old(self).prefix_mappings,
            match result {
                Ok(response) => {
                    &&& old(self).prefix_mappings@.contains_key(request.prefix@)
                    &&& is_identifier(
                        response.uuid@,
                        old(self).prefix_mappings@[request.prefix@],
                    )
                    &&& final(self).log_channel@ == old(self).log_channel@.publish(
                        request.event(),
                    ).publish(response.event())
                },
                Err(error) => {
                    &&& !old(self).prefix_mappings@.contains_key(request.prefix@)
                    &&& final(self).log_channel@ == old(self).log_channel@
                },
            },
    {
        match self.issue(&request) {
            Ok(response) => {
                let copy = response.clone();
                self.publish(request, copy);
                Ok(response)
            },
            Err(error) => Err(error),
        }
    }

    /// Starts a session for a new watcher, which will see every issuance
    /// published from now on and none from before.
    pub fn watch(&mut self) -> (session: Option<WatchSession>)
        requires
            old(self).wf(),
        ensures
            final(self).wf(),
            final(self).prefix_mappings == old(self).prefix_mappings,
            match session {
                Some(session) => {
                    &&& old(self).log_channel@.issued < u64::MAX
                    &&& session.handle() == old(self).log_channel@.issued
                    &&& session.is_open()
                    &&& final(self).log_channel@ == old(self).log_channel@.subscribe()
                },
                None => {
                    &&& old(self).log_channel@.issued == u64::MAX
                    &&& final(self).log_channel@ == old(self).log_channel@
                },
            },
    {
        WatchSession::open(&mut self.log_channel)
    }
}

} // verus!
