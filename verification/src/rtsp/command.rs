//! Commands submitted to the channel, and what their reply sinks receive.
//!
//! A command carries the identifier of its reply sink; the surrounding
//! process keeps the sinks themselves and routes each reply by that
//! identifier.

use vstd::prelude::*;
use crate::rtsp::method::Method;
use crate::rtsp::status::Status;
use crate::rtsp::uri::Uri;
use crate::sdp::{ParseError, Sdp};

verus! {

/// What a reply sink receives when a command fails.
#[derive(Debug, Clone, Copy, PartialEq, Eq, Structural)]
pub enum CommandError {
    ParseSdp(ParseError),
    UnexpectedStatus(Status),
    Unauthorized,
    Cancelled,
    BadResponse,
    Unknown,
}

/// A `DESCRIBE` request: a target and the identifier of its reply sink.
pub struct Describe {
    url: Uri,
    id: u64,
}

impl Describe {
    pub closed spec fn spec_url(&self) -> Uri {
        self.url
    }

    pub closed spec fn spec_id(&self) -> u64 {
        self.id
    }

    pub fn new(url: Uri, id: u64) -> (r: Self)
        ensures
            r.spec_url() == url,
            r.spec_id() == id,
    {
        Describe { url, id }
    }

    pub fn url(&self) -> (r: &Uri)
        ensures
            *r == self.spec_url(),
    {
        &self.url
    }

    pub fn method(&self) -> (r: Method)
        ensures
            r == Method::Describe,
    {
        Method::Describe
    }

    pub fn id(&self) -> (r: u64)
        ensures
            r == self.spec_id(),
    {
        self.id
    }

    /// What the reply sink receives for a completed response: the body as
    /// a session description on 200, the status as a fault otherwise.
    pub fn handle_response(self, status: Status, body: &[u8]) -> (r: (u64, Result<Sdp, CommandError>))
        ensures
            r.0 == self.spec_id(),
            status == Status::OK ==> (r.1 matches Ok(s) && s.spec_description() == body@),
            status != Status::OK ==> r.1 == Err::<Sdp, CommandError>(
                CommandError::UnexpectedStatus(status),
            ),
    {
        if let Status::OK = status {
            match Sdp::parse(body) {
                Result::Ok(sdp) => (self.id, Ok(sdp)),
                Result::Err(e) => (self.id, Err(CommandError::ParseSdp(e))),
            }
        } else {
            (self.id, Err(CommandError::UnexpectedStatus(status)))
        }
    }

    /// What the reply sink receives when the command is given up.
    pub fn cancel(self, e: CommandError) -> (r: (u64, Result<Sdp, CommandError>))
        ensures
            r.0 == self.spec_id(),
            r.1 == Err::<Sdp, CommandError>(e),
    {
        (self.id, Err(e))
    }
}

pub enum Request {
    Describe(Describe),
}

/// The sink identifier of a request.
pub open spec fn spec_req_id(r: Request) -> u64 {
    match r {
        Request::Describe(d) => d.spec_id(),
    }
}

/// The target of a request.
pub open spec fn spec_req_url(r: Request) -> Uri {
    match r {
        Request::Describe(d) => d.spec_url(),
    }
}

/// The method of a request.
pub open spec fn spec_req_method(r: Request) -> Method {
    match r {
        Request::Describe(d) => Method::Describe,
    }
}

impl Request {
    pub fn url(&self) -> (r: &Uri)
        ensures
            *r == spec_req_url(*self),
    {
        match self {
            Request::Describe(d) => d.url(),
        }
    }

    pub fn method(&self) -> (r: Method)
        ensures
            r == spec_req_method(*self),
    {
        match self {
            Request::Describe(d) => d.method(),
        }
    }

    pub fn id(&self) -> (r: u64)
        ensures
            r == spec_req_id(*self),
    {
        match self {
            Request::Describe(d) => d.id(),
        }
    }

    /// Routes a completed response to the right reply shape.
    pub fn handle_response(self, status: Status, body: &[u8]) -> (r: (u64, Result<Sdp, CommandError>))
        ensures
            r.0 == spec_req_id(self),
            status == Status::OK ==> (r.1 matches Ok(s) && s.spec_description() == body@),
            status != Status::OK ==> r.1 == Err::<Sdp, CommandError>(
                CommandError::UnexpectedStatus(status),
            ),
    {
        match self {
            Request::Describe(d) => d.handle_response(status, body),
        }
    }

    /// Gives the command up with the given fault.
    pub fn cancel(self, e: CommandError) -> (r: (u64, Result<Sdp, CommandError>))
        ensures
            r.0 == spec_req_id(self),
            r.1 == Err::<Sdp, CommandError>(e),
    {
        match self {
            Request::Describe(d) => d.cancel(e),
        }
    }
}

pub enum Ctrl {
    Shutdown,
}

pub enum Command {
    Request(Request),
    Ctrl(Ctrl),
}

} // verus!
