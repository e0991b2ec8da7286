pub mod client;
pub mod codec;
pub mod session;
pub mod store;
pub mod strutil;

pub use client::{Client, ClientBuilder};
pub use session::{Session, UserData};
pub use store::Store;

use vstd::prelude::*;

verus! {

/// Errors of the session client, one variant per failure stage.
#[derive(Clone, Copy, Debug, PartialEq, Eq, Structural)]
pub enum Error {
    /// A service address of the configuration is empty.
    InvalidConfiguration,
    /// The on-disk cookie store could not be read as a jar snapshot.
    StoreCorrupt,
    /// Writing the jar snapshot to disk failed.
    StoreWriteError,
    /// `confirm` was attempted while no session was active.
    NoActiveSession,
    /// The login exchange failed (transport error or malformed body).
    LoginFailed,
    /// The broker rejected the one-time code, or its answer was malformed.
    ConfirmationFailed,
    /// The claim exchange failed; the pending session is kept.
    ClaimFailed,
    /// The identity query failed; the caller should re-authenticate.
    WhoAmIFailed,
    /// The logout exchange failed; local state is kept.
    LogoutFailed,
}

impl Error {
    /// A short sentence naming the failed stage, for logs and prompts.
    pub fn describe(&self) -> (r: &'static str)
        ensures
            match self {
                Error::InvalidConfiguration => r@ == "a service address of the configuration is empty"@,
                Error::StoreCorrupt => r@ == "the cookie store on disk is unreadable"@,
                Error::StoreWriteError => r@ == "the cookie store could not be written"@,
                Error::NoActiveSession => r@ == "no active session; log in first"@,
                Error::LoginFailed => r@ == "the login exchange failed"@,
                Error::ConfirmationFailed => r@ == "the code confirmation failed"@,
                Error::ClaimFailed => r@ == "the session claim failed"@,
                Error::WhoAmIFailed => r@ == "the identity query failed; re-authenticate"@,
                Error::LogoutFailed => r@ == "the logout exchange failed"@,
            },
    {
        match self {
            Error::InvalidConfiguration => "a service address of the configuration is empty",
            Error::StoreCorrupt => "the cookie store on disk is unreadable",
            Error::StoreWriteError => "the cookie store could not be written",
            Error::NoActiveSession => "no active session; log in first",
            Error::LoginFailed => "the login exchange failed",
            Error::ConfirmationFailed => "the code confirmation failed",
            Error::ClaimFailed => "the session claim failed",
            Error::WhoAmIFailed => "the identity query failed; re-authenticate",
            Error::LogoutFailed => "the logout exchange failed",
        }
    }
}

} // verus!
