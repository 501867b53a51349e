//! The failures that the engine reports, and the numbers that stand for them
//! in an error reply.

use vstd::prelude::*;

verus! {

/// Every way in which a request, or the connection as a whole, can fail.
#[derive(Clone, Copy, Debug, PartialEq, Eq, Structural)]
pub enum Error {
    /// The bytes received are not one well-framed message.
    MalformedMessage,
    /// The peer asked to bind an identifier that is already bound.
    DuplicateFid,
    /// The peer named an identifier that is not bound.
    UnknownFid,
    /// A request other than an attach arrived before any attach.
    NotAttached,
    /// A name does not exist on the host.
    NotFound,
    /// The host refused, or the request would have left the exported tree.
    PermissionDenied,
    /// A name that had to be a directory is something else.
    NotADirectory,
    /// A name does not fit the length field of the wire format.
    NameTooLong,
    /// Any other failure of the host.
    IoError,
    /// The kind of message is unknown, or not served.
    Unimplemented,
}

impl Error {
    /// Only a framing failure ends the connection; every other failure is
    /// answered with an error reply and the connection goes on.
    pub open spec fn fatal(self) -> bool {
        self == Error::MalformedMessage
    }

    /// The number that stands for this failure on the wire. The numbers are
    /// fixed by the protocol and do not depend on the host platform.
    pub open spec fn code_spec(self) -> u32 {
        match self {
            Error::NotFound => 2,
            Error::IoError => 5,
            Error::UnknownFid => 9,
            Error::PermissionDenied => 13,
            Error::DuplicateFid => 17,
            Error::NotADirectory => 20,
            Error::NameTooLong => 36,
            Error::MalformedMessage => 71,
            Error::Unimplemented => 95,
            Error::NotAttached => 107,
        }
    }

    /// The failure that a wire number stands for, if any.
    pub open spec fn from_code_spec(code: u32) -> Option<Error> {
        if code == 2 {
            Some(Error::NotFound)
        } else if code == 5 {
            Some(Error::IoError)
        } else if code == 9 {
            Some(Error::UnknownFid)
        } else if code == 13 {
            Some(Error::PermissionDenied)
        } else if code == 17 {
            Some(Error::DuplicateFid)
        } else if code == 20 {
            Some(Error::NotADirectory)
        } else if code == 36 {
            Some(Error::NameTooLong)
        } else if code == 71 {
            Some(Error::MalformedMessage)
        } else if code == 95 {
            Some(Error::Unimplemented)
        } else if code == 107 {
            Some(Error::NotAttached)
        } else {
            None
        }
    }

    /// Whether this failure ends the connection.
    pub fn is_fatal(self) -> (fatal: bool)
        ensures
            fatal == self.fatal(),
    {
        match self {
            Error::MalformedMessage => true,
            _ => false,
        }
    }

    /// The number that stands for this failure on the wire.
    pub fn code(self) -> (code: u32)
        ensures
            code == self.code_spec(),
    {
        match self {
            Error::NotFound => 2,
            Error::IoError => 5,
            Error::UnknownFid => 9,
            Error::PermissionDenied => 13,
            Error::DuplicateFid => 17,
            Error::NotADirectory => 20,
            Error::NameTooLong => 36,
            Error::MalformedMessage => 71,
            Error::Unimplemented => 95,
            Error::NotAttached => 107,
        }
    }

    /// The failure that a wire number stands for, if any.
    pub fn from_code(code: u32) -> (error: Option<Error>)
        ensures
            error == Error::from_code_spec(code),
    {
        if code == 2 {
            Some(Error::NotFound)
        } else if code == 5 {
            Some(Error::IoError)
        } else if code == 9 {
            Some(Error::UnknownFid)
        } else if code == 13 {
            Some(Error::PermissionDenied)
        } else if code == 17 {
            Some(Error::DuplicateFid)
        } else if code == 20 {
            Some(Error::NotADirectory)
        } else if code == 36 {
            Some(Error::NameTooLong)
        } else if code == 71 {
            Some(Error::MalformedMessage)
        } else if code == 95 {
            Some(Error::Unimplemented)
        } else if code == 107 {
            Some(Error::NotAttached)
        } else {
            None
        }
    }
}

/// Every failure has a number of its own: reading a number back gives the
/// failure that it was written for.
pub proof fn lemma_code_round_trip(e: Error)
    ensures
        Error::from_code_spec(e.code_spec()) == Some(e),
{
}

} // verus!
