//! The messages that travel through the service: requests, responses, the log
//! messages published on the bus and the shape in which a watcher receives
//! them.

use vstd::prelude::*;

verus! {

/// A request to issue an identifier for `entity` under the logical `prefix`.
#[derive(Debug, PartialEq, Eq)]
pub struct UuidRequest {
    pub prefix: String,
    pub entity: String,
}

/// The answer to a [`UuidRequest`]: the identifier that was issued.
#[derive(Debug, PartialEq, Eq)]
pub struct UuidResponse {
    pub uuid: String,
}

/// The mathematical value of an observable moment of an issuance: the arrival
/// of a request or the response produced for it.
pub enum Event {
    Request { prefix: Seq<char>, entity: Seq<char> },
    Response { uuid: Seq<char> },
}

/// A message on the event bus.
#[derive(Debug, PartialEq, Eq)]
pub enum LogMessage {
    Request(UuidRequest),
    Response(UuidResponse),
}

/// A log message in the shape in which a watcher receives it.
#[derive(Debug, PartialEq, Eq)]
pub enum WatchResponse {
    UuidRequest(UuidRequest),
    UuidResponse(UuidResponse),
}

impl UuidRequest {
    /// The event that the arrival of this request is.
    pub open spec fn event(&self) -> Event {
        Event::Request { prefix: self.prefix@, entity: self.entity@ }
    }
}

impl UuidResponse {
    /// The event that the production of this response is.
    pub open spec fn event(&self) -> Event {
        Event::Response { uuid: self.uuid@ }
    }
}

impl Clone for UuidRequest {
    fn clone(&self) -> (res: Self)
        ensures
            res == *self,
    {
        UuidRequest { prefix: self.prefix.clone(), entity: self.entity.clone() }
    }
}

impl Clone for UuidResponse {
    fn clone(&self) -> (res: Self)
        ensures
            res == *self,
    {
        UuidResponse { uuid: self.uuid.clone() }
    }
}

impl View for LogMessage {
    type V = Event;

    open spec fn view(&self) -> Event {
        match self {
            LogMessage::Request(request) => request.event(),
            LogMessage::Response(response) => response.event(),
        }
    }
}

impl Clone for LogMessage {
    fn clone(&self) -> (res: Self)
        ensures
            res == *self,
    {
        match self {
            LogMessage::Request(request) => LogMessage::Request(request.clone()),
            LogMessage::Response(response) => LogMessage::Response(response.clone()),
        }
    }
}

impl View for WatchResponse {
    type V = Event;

    open spec fn view(&self) -> Event {
        match self {
            WatchResponse::UuidRequest(request) => request.event(),
            WatchResponse::UuidResponse(response) => response.event(),
        }
    }
}

impl Clone for WatchResponse {
    fn clone(&self) -> (res: Self)
        ensures
            res == *self,
    {
        match self {
            WatchResponse::UuidRequest(request) => WatchResponse::UuidRequest(request.clone()),
            WatchResponse::UuidResponse(response) => WatchResponse::UuidResponse(response.clone()),
        }
    }
}

impl WatchResponse {
    /// Wraps a log message for a watcher: a request stays a request, a
    /// response a response, and nothing in it changes.
    pub fn from_log_message(message: LogMessage) -> (res: Self)
        ensures
            res@ == message@,
            message is Request <==> res is UuidRequest,
    {
        match message {
            LogMessage::Request(request) => WatchResponse::UuidRequest(request),
            LogMessage::Response(response) => WatchResponse::UuidResponse(response),
        }
    }
}

} // verus!
