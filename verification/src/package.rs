//! Decoded wire packages.

use vstd::prelude::*;
use crate::command::Cmd;
use crate::ident::RequestId;

verus! {

/// Why a server did not handle a request.
#[derive(Clone, Copy, Debug, PartialEq, Eq, Structural)]
pub enum NotHandledReason {
    /// The server has not finished starting.
    NotReady,
    /// The server is overloaded.
    TooBusy,
    /// The server is not the master of its cluster and names another node.
    NotMaster,
}

/// What a package carries besides its header, as far as the wire layer
/// could decode it.
#[derive(Clone, Debug, PartialEq, Eq)]
pub enum Payload {
    /// Bytes that only the owning operation knows how to read.
    Raw(Vec<u8>),
    /// A textual message.
    Text(String),
    /// The structured reason of a not-handled reply.
    NotHandled(NotHandledReason),
}

/// A decoded wire unit: the correlation id of the request it belongs to, a
/// command and a payload.
#[derive(Clone, Debug, PartialEq, Eq)]
pub struct Pkg {
    pub correlation: RequestId,
    pub cmd: Cmd,
    pub payload: Payload,
}

impl Pkg {
    /// The text this package carries, if its payload is text.
    pub open spec fn text(self) -> Option<String> {
        match self.payload {
            Payload::Text(text) => Some(text),
            _ => None,
        }
    }

    /// The not-handled reason this package carries, if its payload is one.
    pub open spec fn reason(self) -> Option<NotHandledReason> {
        match self.payload {
            Payload::NotHandled(reason) => Some(reason),
            _ => None,
        }
    }

    /// A package with the given header and payload.
    pub fn new(cmd: Cmd, correlation: RequestId, payload: Payload) -> (pkg: Pkg)
        ensures
            pkg == (Pkg { correlation, cmd, payload }),
    {
        Pkg { correlation, cmd, payload }
    }

    /// Decodes the payload as text. `None` when the payload is not text.
    pub fn to_text(&self) -> (text: Option<String>)
        ensures
            text == self.text(),
    {
        match &self.payload {
            Payload::Text(text) => Some(text.clone()),
            _ => None,
        }
    }

    /// Decodes the payload as a not-handled reason. `None` when the payload
    /// is not one.
    pub fn to_reason(&self) -> (reason: Option<NotHandledReason>)
        ensures
            reason == self.reason(),
    {
        match &self.payload {
            Payload::NotHandled(reason) => Some(*reason),
            _ => None,
        }
    }
}

} // verus!
