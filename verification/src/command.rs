//! Command codes carried by requests and replies.

use vstd::prelude::*;

verus! {

/// The command of a package. Three reply codes steer the dispatch of an
/// inbound package; every other command is left to the operation that owns
/// the request.
#[derive(Clone, Copy, Debug, PartialEq, Eq, Structural)]
pub enum Cmd {
    /// The server rejected the request as malformed.
    BadRequest,
    /// The server refused the request for want of valid credentials.
    NotAuthenticated,
    /// The server did not handle the request; the payload says why.
    NotHandled,
    /// Any other command, by its wire code.
    Other(u8),
}

} // verus!
