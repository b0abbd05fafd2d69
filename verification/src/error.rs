//! What can go wrong while talking to a proxy.
use vstd::prelude::*;

verus! {

/// The broad class of an error.
#[derive(Clone, Copy, Debug, PartialEq, Eq, Structural)]
pub enum ErrorKind {
    /// The peer sent something that the protocol does not allow.
    InvalidData,
    /// The caller asked for something that the protocol cannot express.
    InvalidInput,
    /// The input ended in the middle of a message.
    UnexpectedEof,
    /// Anything else: the request was well formed and understood, but not granted.
    Other,
}

/// A violation or a refusal that the protocol itself names.
#[derive(Clone, Copy, Debug, PartialEq, Eq, Structural)]
pub enum Fault {
    InvalidResponseVersion,
    NoAcceptableAuthMethods,
    UnknownAuthMethod,
    GeneralFailure,
    NotAllowed,
    NetworkUnreachable,
    HostUnreachable,
    ConnectionRefused,
    TtlExpired,
    CommandNotSupported,
    AddressKindNotSupported,
    UnknownReply,
    InvalidReservedByte,
    UnsupportedAddressType,
    DomainTooLong,
    InvalidReservedBytes,
    InvalidFragmentId,
}

impl Fault {
    /// The class that a fault belongs to.
    pub open spec fn spec_kind(self) -> ErrorKind {
        match self {
            Fault::InvalidResponseVersion
            | Fault::UnknownAuthMethod
            | Fault::InvalidReservedByte
            | Fault::InvalidReservedBytes
            | Fault::InvalidFragmentId => ErrorKind::InvalidData,
            Fault::DomainTooLong => ErrorKind::InvalidInput,
            _ => ErrorKind::Other,
        }
    }

    /// The text that describes a fault.
    pub open spec fn spec_message(self) -> Seq<char> {
        match self {
            Fault::InvalidResponseVersion => "invalid response version"@,
            Fault::NoAcceptableAuthMethods => "no acceptable auth methods"@,
            Fault::UnknownAuthMethod => "unknown auth method"@,
            Fault::GeneralFailure => "general SOCKS server failure"@,
            Fault::NotAllowed => "connection not allowed by ruleset"@,
            Fault::NetworkUnreachable => "network unreachable"@,
            Fault::HostUnreachable => "host unreachable"@,
            Fault::ConnectionRefused => "connection refused"@,
            Fault::TtlExpired => "TTL expired"@,
            Fault::CommandNotSupported => "command not supported"@,
            Fault::AddressKindNotSupported => "address kind not supported"@,
            Fault::UnknownReply => "unknown error"@,
            Fault::InvalidReservedByte => "invalid reserved byte"@,
            Fault::UnsupportedAddressType => "unsupported address type"@,
            Fault::DomainTooLong => "domain name too long"@,
            Fault::InvalidReservedBytes => "invalid reserved bytes"@,
            Fault::InvalidFragmentId => "invalid fragment id"@,
        }
    }

    /// Returns the class that the fault belongs to.
    pub fn kind(self) -> (kind: ErrorKind)
        ensures
            kind == self.spec_kind(),
    {
        match self {
            Fault::InvalidResponseVersion
            | Fault::UnknownAuthMethod
            | Fault::InvalidReservedByte
            | Fault::InvalidReservedBytes
            | Fault::InvalidFragmentId => ErrorKind::InvalidData,
            Fault::DomainTooLong => ErrorKind::InvalidInput,
            _ => ErrorKind::Other,
        }
    }

    /// Returns the text that describes the fault.
    pub fn message(self) -> (message: &'static str)
        ensures
            message@ == self.spec_message(),
    {
        match self {
            Fault::InvalidResponseVersion => "invalid response version",
            Fault::NoAcceptableAuthMethods => "no acceptable auth methods",
            Fault::UnknownAuthMethod => "unknown auth method",
            Fault::GeneralFailure => "general SOCKS server failure",
            Fault::NotAllowed => "connection not allowed by ruleset",
            Fault::NetworkUnreachable => "network unreachable",
            Fault::HostUnreachable => "host unreachable",
            Fault::ConnectionRefused => "connection refused",
            Fault::TtlExpired => "TTL expired",
            Fault::CommandNotSupported => "command not supported",
            Fault::AddressKindNotSupported => "address kind not supported",
            Fault::UnknownReply => "unknown error",
            Fault::InvalidReservedByte => "invalid reserved byte",
            Fault::UnsupportedAddressType => "unsupported address type",
            Fault::DomainTooLong => "domain name too long",
            Fault::InvalidReservedBytes => "invalid reserved bytes",
            Fault::InvalidFragmentId => "invalid fragment id",
        }
    }
}

/// An error of this library.
#[derive(Clone, Debug, PartialEq, Eq)]
pub enum Error {
    /// A violation or a refusal that the protocol names.
    Fault(Fault),
    /// The input ended before the message did.
    UnexpectedEof,
    /// A domain name, given here as it was received, is not valid UTF-8.
    InvalidUtf8(Vec<u8>),
}

/// What an [`Error`] says, with the bytes of a rejected name as a sequence.
pub enum ErrorView {
    Fault(Fault),
    UnexpectedEof,
    InvalidUtf8(Seq<u8>),
}

impl View for Error {
    type V = ErrorView;

    open spec fn view(&self) -> ErrorView {
        match self {
            Error::Fault(fault) => ErrorView::Fault(*fault),
            Error::UnexpectedEof => ErrorView::UnexpectedEof,
            Error::InvalidUtf8(bytes) => ErrorView::InvalidUtf8(bytes@),
        }
    }
}

impl ErrorView {
    /// The class that an error belongs to.
    pub open spec fn kind(self) -> ErrorKind {
        match self {
            ErrorView::Fault(fault) => fault.spec_kind(),
            ErrorView::UnexpectedEof => ErrorKind::UnexpectedEof,
            ErrorView::InvalidUtf8(_) => ErrorKind::InvalidData,
        }
    }
}

/// Which errors fall in which class, for faults on their own and for errors.
pub proof fn law_kinds(fault: Fault, error: Error)
    ensures
        fault.spec_kind() == ErrorKind::InvalidData <==> {
            ||| fault == Fault::InvalidResponseVersion
            ||| fault == Fault::UnknownAuthMethod
            ||| fault == Fault::InvalidReservedByte
            ||| fault == Fault::InvalidReservedBytes
            ||| fault == Fault::InvalidFragmentId
        },
        fault.spec_kind() == ErrorKind::InvalidInput <==> fault == Fault::DomainTooLong,
        fault.spec_kind() != ErrorKind::UnexpectedEof,
        error matches Error::Fault(fault) ==> error@.kind() == fault.spec_kind(),
        error matches Error::InvalidUtf8(_) ==> error@.kind() == ErrorKind::InvalidData,
        error@.kind() == ErrorKind::UnexpectedEof <==> error matches Error::UnexpectedEof,
{
}

impl Error {
    /// Returns the class that the error belongs to.
    pub fn kind(&self) -> (kind: ErrorKind)
        ensures
            kind == self@.kind(),
    {
        match self {
            Error::Fault(fault) => fault.kind(),
            Error::UnexpectedEof => ErrorKind::UnexpectedEof,
            Error::InvalidUtf8(_) => ErrorKind::InvalidData,
        }
    }
}

} // verus!
