//! Reply codes of the protocol, which this library represents but never emits.
use vstd::prelude::*;

verus! {

#[derive(Clone, Copy, Debug, PartialEq, Eq, Structural)]
pub enum AmqpErrorKind {
    ReplySuccess,
    ContentTooLarge,
    NoConsumers,
    ConnectionForced,
    InvalidPath,
    AccessRefused,
    NotFound,
    ResourceLocked,
    PreconditionFailed,
    FrameError,
    SyntaxError,
    CommandInvalid,
    ChannelError,
    UnexpectedFrame,
    ResourceError,
    NotAllowed,
    NotImplemented,
    InternalError,
}

impl AmqpErrorKind {
    pub open spec fn spec_code(self) -> u16 {
        match self {
            AmqpErrorKind::ReplySuccess => 200,
            AmqpErrorKind::ContentTooLarge => 311,
            AmqpErrorKind::NoConsumers => 313,
            AmqpErrorKind::ConnectionForced => 320,
            AmqpErrorKind::InvalidPath => 402,
            AmqpErrorKind::AccessRefused => 403,
            AmqpErrorKind::NotFound => 404,
            AmqpErrorKind::ResourceLocked => 405,
            AmqpErrorKind::PreconditionFailed => 406,
            AmqpErrorKind::FrameError => 501,
            AmqpErrorKind::SyntaxError => 502,
            AmqpErrorKind::CommandInvalid => 503,
            AmqpErrorKind::ChannelError => 504,
            AmqpErrorKind::UnexpectedFrame => 505,
            AmqpErrorKind::ResourceError => 506,
            AmqpErrorKind::NotAllowed => 530,
            AmqpErrorKind::NotImplemented => 540,
            AmqpErrorKind::InternalError => 541,
        }
    }

    pub fn code(&self) -> (r: u16)
        ensures
            r == self.spec_code(),
    {
        match self {
            AmqpErrorKind::ReplySuccess => 200,
            AmqpErrorKind::ContentTooLarge => 311,
            AmqpErrorKind::NoConsumers => 313,
            AmqpErrorKind::ConnectionForced => 320,
            AmqpErrorKind::InvalidPath => 402,
            AmqpErrorKind::AccessRefused => 403,
            AmqpErrorKind::NotFound => 404,
            AmqpErrorKind::ResourceLocked => 405,
            AmqpErrorKind::PreconditionFailed => 406,
            AmqpErrorKind::FrameError => 501,
            AmqpErrorKind::SyntaxError => 502,
            AmqpErrorKind::CommandInvalid => 503,
            AmqpErrorKind::ChannelError => 504,
            AmqpErrorKind::UnexpectedFrame => 505,
            AmqpErrorKind::ResourceError => 506,
            AmqpErrorKind::NotAllowed => 530,
            AmqpErrorKind::NotImplemented => 540,
            AmqpErrorKind::InternalError => 541,
        }
    }

    /// The kind with reply code `code`, if there is one.
    pub fn from_code(code: u16) -> (r: Option<AmqpErrorKind>)
        ensures
            r matches Some(k) ==> k.spec_code() == code,
            r is None ==> forall|k: AmqpErrorKind| k.spec_code() != code,
    {
        match code {
            200 => Some(AmqpErrorKind::ReplySuccess),
            311 => Some(AmqpErrorKind::ContentTooLarge),
            313 => Some(AmqpErrorKind::NoConsumers),
            320 => Some(AmqpErrorKind::ConnectionForced),
            402 => Some(AmqpErrorKind::InvalidPath),
            403 => Some(AmqpErrorKind::AccessRefused),
            404 => Some(AmqpErrorKind::NotFound),
            405 => Some(AmqpErrorKind::ResourceLocked),
            406 => Some(AmqpErrorKind::PreconditionFailed),
            501 => Some(AmqpErrorKind::FrameError),
            502 => Some(AmqpErrorKind::SyntaxError),
            503 => Some(AmqpErrorKind::CommandInvalid),
            504 => Some(AmqpErrorKind::ChannelError),
            505 => Some(AmqpErrorKind::UnexpectedFrame),
            506 => Some(AmqpErrorKind::ResourceError),
            530 => Some(AmqpErrorKind::NotAllowed),
            540 => Some(AmqpErrorKind::NotImplemented),
            541 => Some(AmqpErrorKind::InternalError),
            _ => None,
        }
    }
}

/// A protocol error, by kind.
#[derive(Clone, Copy, Debug, PartialEq, Eq, Structural)]
pub struct AmqpError {
    kind: AmqpErrorKind,
}

impl AmqpError {
    pub fn new(kind: AmqpErrorKind) -> (r: AmqpError)
        ensures
            r.spec_kind() == kind,
    {
        AmqpError { kind }
    }

    pub closed spec fn spec_kind(&self) -> AmqpErrorKind {
        self.kind
    }

    pub fn kind(&self) -> (r: &AmqpErrorKind)
        ensures
            *r == self.spec_kind(),
    {
        &self.kind
    }

    pub fn code(&self) -> (r: u16)
        ensures
            r == self.spec_kind().spec_code(),
    {
        self.kind.code()
    }
}

} // verus!
