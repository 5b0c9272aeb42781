//! Error kinds surfaced by the connection and channel state machines.

use vstd::prelude::*;

verus! {

/// Everything that can go wrong at this layer.
///
/// `InvalidChannel`, `InvalidState` and `UnexpectedAnswer` are channel-fatal;
/// the `ConnectionClosed*` kinds, `ProtocolDecode` and `IoError` are
/// connection-fatal. `ChannelClosed` carries the broker's reply code and text.
#[derive(Debug, PartialEq, Eq)]
pub enum Error {
    InvalidChannel,
    InvalidState,
    UnexpectedAnswer,
    ProtocolDecode,
    ProtocolUnexpectedFrame,
    ConnectionClosedByUs,
    ConnectionClosedByPeer,
    ConnectionClosedIo,
    ChannelClosed(u16, String),
    ChannelsLimitReached,
    IoError,
    PreconditionFailed(u16),
}

impl Error {
    /// An exact copy. Verified code uses this where one error fans out to
    /// several promise slots, since the copy is proved equal to the original.
    pub fn duplicate(&self) -> (r: Error)
        ensures
            r == *self,
    {
        match self {
            Error::InvalidChannel => Error::InvalidChannel,
            Error::InvalidState => Error::InvalidState,
            Error::UnexpectedAnswer => Error::UnexpectedAnswer,
            Error::ProtocolDecode => Error::ProtocolDecode,
            Error::ProtocolUnexpectedFrame => Error::ProtocolUnexpectedFrame,
            Error::ConnectionClosedByUs => Error::ConnectionClosedByUs,
            Error::ConnectionClosedByPeer => Error::ConnectionClosedByPeer,
            Error::ConnectionClosedIo => Error::ConnectionClosedIo,
            Error::ChannelClosed(code, text) => Error::ChannelClosed(*code, text.clone()),
            Error::ChannelsLimitReached => Error::ChannelsLimitReached,
            Error::IoError => Error::IoError,
            Error::PreconditionFailed(code) => Error::PreconditionFailed(*code),
        }
    }
}

} // verus!
