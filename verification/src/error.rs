//! The errors of this crate.
use vstd::prelude::*;

verus! {

/// Why an operation gave up. Nothing is recovered inside the crate: an
/// operation that returns an error has changed nothing that outlasts it.
#[derive(Debug, PartialEq, Eq)]
pub enum Error {
    /// The cancellation signal fired.
    Interrupted,
    /// A change counter would leave the range of its type.
    CounterOutOfRange,
    /// The account has no refresh token to speak to the server with.
    NoRefreshToken,
    /// The server answered with an error; handed on as it came.
    RemoteError { code: u64, errno: u64, error: String, message: String, info: String },
}

} // verus!
