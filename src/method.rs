//! Classes and methods, and their 16-bit wire identifiers.
use vstd::prelude::*;
use crate::error::{FrameDecodeErr, SyntaxErrorKind};

verus! {

/// A protocol class. `Unknown` stands for an identifier outside the registry.
#[derive(Clone, Copy, Debug, PartialEq, Eq, Structural)]
pub enum Class {
    Connection,
    Channel,
    Access,
    Exchange,
    Queue,
    Basic,
    Confirm,
    Tx,
    Unknown,
}

impl Class {
    pub open spec fn spec_id(self) -> u16 {
        match self {
            Class::Connection => 10,
            Class::Channel => 20,
            Class::Access => 30,
            Class::Exchange => 40,
            Class::Queue => 50,
            Class::Basic => 60,
            Class::Confirm => 85,
            Class::Tx => 90,
            Class::Unknown => 0xffff,
        }
    }

    pub open spec fn spec_from_id(id: u16) -> Class {
        if id == 10 {
            Class::Connection
        } else if id == 20 {
            Class::Channel
        } else if id == 30 {
            Class::Access
        } else if id == 40 {
            Class::Exchange
        } else if id == 50 {
            Class::Queue
        } else if id == 60 {
            Class::Basic
        } else if id == 85 {
            Class::Confirm
        } else if id == 90 {
            Class::Tx
        } else {
            Class::Unknown
        }
    }

    pub fn class_id(&self) -> (r: u16)
        ensures
            r == self.spec_id(),
    {
        match self {
            Class::Connection => 10,
            Class::Channel => 20,
            Class::Access => 30,
            Class::Exchange => 40,
            Class::Queue => 50,
            Class::Basic => 60,
            Class::Confirm => 85,
            Class::Tx => 90,
            Class::Unknown => 0xffff,
        }
    }

    pub fn from_u16(id: u16) -> (r: Class)
        ensures
            r == Class::spec_from_id(id),
    {
        match id {
            10 => Class::Connection,
            20 => Class::Channel,
            30 => Class::Access,
            40 => Class::Exchange,
            50 => Class::Queue,
            60 => Class::Basic,
            85 => Class::Confirm,
            90 => Class::Tx,
            _ => Class::Unknown,
        }
    }
}

/// The 16-bit identifier of a method within its class.
pub trait MethodId {
    fn method_id(&self) -> u16;
}

/// The methods of class `Connection`.
#[derive(Clone, Copy, Debug, PartialEq, Eq, Structural)]
pub enum ConnectionMethod {
    Start,
    StartOk,
    Secure,
    SecureOk,
    Tune,
    TuneOk,
    Open,
    OpenOk,
    Close,
    CloseOk,
    Unknown,
}

impl ConnectionMethod {
    pub open spec fn spec_id(self) -> u16 {
        match self {
            ConnectionMethod::Start => 10,
            ConnectionMethod::StartOk => 11,
            ConnectionMethod::Secure => 20,
            ConnectionMethod::SecureOk => 21,
            ConnectionMethod::Tune => 30,
            ConnectionMethod::TuneOk => 31,
            ConnectionMethod::Open => 40,
            ConnectionMethod::OpenOk => 41,
            ConnectionMethod::Close => 50,
            ConnectionMethod::CloseOk => 51,
            ConnectionMethod::Unknown => 0xffff,
        }
    }

    pub open spec fn spec_from_id(id: u16) -> ConnectionMethod {
        if id == 10 {
            ConnectionMethod::Start
        } else if id == 11 {
            ConnectionMethod::StartOk
        } else if id == 20 {
            ConnectionMethod::Secure
        } else if id == 21 {
            ConnectionMethod::SecureOk
        } else if id == 30 {
            ConnectionMethod::Tune
        } else if id == 31 {
            ConnectionMethod::TuneOk
        } else if id == 40 {
            ConnectionMethod::Open
        } else if id == 41 {
            ConnectionMethod::OpenOk
        } else if id == 50 {
            ConnectionMethod::Close
        } else if id == 51 {
            ConnectionMethod::CloseOk
        } else {
            ConnectionMethod::Unknown
        }
    }

    pub fn from_u16(id: u16) -> (r: ConnectionMethod)
        ensures
            r == ConnectionMethod::spec_from_id(id),
    {
        match id {
            10 => ConnectionMethod::Start,
            11 => ConnectionMethod::StartOk,
            20 => ConnectionMethod::Secure,
            21 => ConnectionMethod::SecureOk,
            30 => ConnectionMethod::Tune,
            31 => ConnectionMethod::TuneOk,
            40 => ConnectionMethod::Open,
            41 => ConnectionMethod::OpenOk,
            50 => ConnectionMethod::Close,
            51 => ConnectionMethod::CloseOk,
            _ => ConnectionMethod::Unknown,
        }
    }
}

impl MethodId for ConnectionMethod {
    fn method_id(&self) -> (r: u16)
        ensures
            r == self.spec_id(),
    {
        match self {
            ConnectionMethod::Start => 10,
            ConnectionMethod::StartOk => 11,
            ConnectionMethod::Secure => 20,
            ConnectionMethod::SecureOk => 21,
            ConnectionMethod::Tune => 30,
            ConnectionMethod::TuneOk => 31,
            ConnectionMethod::Open => 40,
            ConnectionMethod::OpenOk => 41,
            ConnectionMethod::Close => 50,
            ConnectionMethod::CloseOk => 51,
            ConnectionMethod::Unknown => 0xffff,
        }
    }
}

/// The methods of class `Channel`.
#[derive(Clone, Copy, Debug, PartialEq, Eq, Structural)]
pub enum ChannelMethod {
    Open,
    OpenOk,
    Flow,
    FlowOk,
    Close,
    CloseOk,
    Unknown,
}

impl ChannelMethod {
    pub open spec fn spec_id(self) -> u16 {
        match self {
            ChannelMethod::Open => 10,
            ChannelMethod::OpenOk => 11,
            ChannelMethod::Flow => 20,
            ChannelMethod::FlowOk => 21,
            ChannelMethod::Close => 40,
            ChannelMethod::CloseOk => 41,
            ChannelMethod::Unknown => 0xffff,
        }
    }

    pub open spec fn spec_from_id(id: u16) -> ChannelMethod {
        if id == 10 {
            ChannelMethod::Open
        } else if id == 11 {
            ChannelMethod::OpenOk
        } else if id == 20 {
            ChannelMethod::Flow
        } else if id == 21 {
            ChannelMethod::FlowOk
        } else if id == 40 {
            ChannelMethod::Close
        } else if id == 41 {
            ChannelMethod::CloseOk
        } else {
            ChannelMethod::Unknown
        }
    }

    pub fn from_u16(id: u16) -> (r: ChannelMethod)
        ensures
            r == ChannelMethod::spec_from_id(id),
    {
        match id {
            10 => ChannelMethod::Open,
            11 => ChannelMethod::OpenOk,
            20 => ChannelMethod::Flow,
            21 => ChannelMethod::FlowOk,
            40 => ChannelMethod::Close,
            41 => ChannelMethod::CloseOk,
            _ => ChannelMethod::Unknown,
        }
    }
}

impl MethodId for ChannelMethod {
    fn method_id(&self) -> (r: u16)
        ensures
            r == self.spec_id(),
    {
        match self {
            ChannelMethod::Open => 10,
            ChannelMethod::OpenOk => 11,
            ChannelMethod::Flow => 20,
            ChannelMethod::FlowOk => 21,
            ChannelMethod::Close => 40,
            ChannelMethod::CloseOk => 41,
            ChannelMethod::Unknown => 0xffff,
        }
    }
}

/// The methods of class `Access`.
#[derive(Clone, Copy, Debug, PartialEq, Eq, Structural)]
pub enum AccessMethod {
    Request,
    RequestOk,
    Unknown,
}

impl AccessMethod {
    pub open spec fn spec_id(self) -> u16 {
        match self {
            AccessMethod::Request => 10,
            AccessMethod::RequestOk => 11,
            AccessMethod::Unknown => 0xffff,
        }
    }

    pub open spec fn spec_from_id(id: u16) -> AccessMethod {
        if id == 10 {
            AccessMethod::Request
        } else if id == 11 {
            AccessMethod::RequestOk
        } else {
            AccessMethod::Unknown
        }
    }

    pub fn from_u16(id: u16) -> (r: AccessMethod)
        ensures
            r == AccessMethod::spec_from_id(id),
    {
        match id {
            10 => AccessMethod::Request,
            11 => AccessMethod::RequestOk,
            _ => AccessMethod::Unknown,
        }
    }
}

impl MethodId for AccessMethod {
    fn method_id(&self) -> (r: u16)
        ensures
            r == self.spec_id(),
    {
        match self {
            AccessMethod::Request => 10,
            AccessMethod::RequestOk => 11,
            AccessMethod::Unknown => 0xffff,
        }
    }
}

/// The methods of class `Exchange`.
#[derive(Clone, Copy, Debug, PartialEq, Eq, Structural)]
pub enum ExchangeMethod {
    Declare,
    DeclareOk,
    Delete,
    DeleteOk,
    Bind,
    BindOk,
    Unbind,
    UnbindOk,
    Unknown,
}

impl ExchangeMethod {
    pub open spec fn spec_id(self) -> u16 {
        match self {
            ExchangeMethod::Declare => 10,
            ExchangeMethod::DeclareOk => 11,
            ExchangeMethod::Delete => 20,
            ExchangeMethod::DeleteOk => 21,
            ExchangeMethod::Bind => 30,
            ExchangeMethod::BindOk => 31,
            ExchangeMethod::Unbind => 40,
            ExchangeMethod::UnbindOk => 51,
            ExchangeMethod::Unknown => 0xffff,
        }
    }

    pub open spec fn spec_from_id(id: u16) -> ExchangeMethod {
        if id == 10 {
            ExchangeMethod::Declare
        } else if id == 11 {
            ExchangeMethod::DeclareOk
        } else if id == 20 {
            ExchangeMethod::Delete
        } else if id == 21 {
            ExchangeMethod::DeleteOk
        } else if id == 30 {
            ExchangeMethod::Bind
        } else if id == 31 {
            ExchangeMethod::BindOk
        } else if id == 40 {
            ExchangeMethod::Unbind
        } else if id == 51 {
            ExchangeMethod::UnbindOk
        } else {
            ExchangeMethod::Unknown
        }
    }

    pub fn from_u16(id: u16) -> (r: ExchangeMethod)
        ensures
            r == ExchangeMethod::spec_from_id(id),
    {
        match id {
            10 => ExchangeMethod::Declare,
            11 => ExchangeMethod::DeclareOk,
            20 => ExchangeMethod::Delete,
            21 => ExchangeMethod::DeleteOk,
            30 => ExchangeMethod::Bind,
            31 => ExchangeMethod::BindOk,
            40 => ExchangeMethod::Unbind,
            51 => ExchangeMethod::UnbindOk,
            _ => ExchangeMethod::Unknown,
        }
    }
}

impl MethodId for ExchangeMethod {
    fn method_id(&self) -> (r: u16)
        ensures
            r == self.spec_id(),
    {
        match self {
            ExchangeMethod::Declare => 10,
            ExchangeMethod::DeclareOk => 11,
            ExchangeMethod::Delete => 20,
            ExchangeMethod::DeleteOk => 21,
            ExchangeMethod::Bind => 30,
            ExchangeMethod::BindOk => 31,
            ExchangeMethod::Unbind => 40,
            ExchangeMethod::UnbindOk => 51,
            ExchangeMethod::Unknown => 0xffff,
        }
    }
}

/// The methods of class `Queue`.
#[derive(Clone, Copy, Debug, PartialEq, Eq, Structural)]
pub enum QueueMethod {
    Declare,
    DeclareOk,
    Bind,
    BindOk,
    Purge,
    PurgeOk,
    Delete,
    DeleteOk,
    Unbind,
    UnbindOk,
    Unknown,
}

impl QueueMethod {
    pub open spec fn spec_id(self) -> u16 {
        match self {
            QueueMethod::Declare => 10,
            QueueMethod::DeclareOk => 11,
            QueueMethod::Bind => 20,
            QueueMethod::BindOk => 21,
            QueueMethod::Purge => 30,
            QueueMethod::PurgeOk => 31,
            QueueMethod::Delete => 40,
            QueueMethod::DeleteOk => 41,
            QueueMethod::Unbind => 50,
            QueueMethod::UnbindOk => 51,
            QueueMethod::Unknown => 0xffff,
        }
    }

    pub open spec fn spec_from_id(id: u16) -> QueueMethod {
        if id == 10 {
            QueueMethod::Declare
        } else if id == 11 {
            QueueMethod::DeclareOk
        } else if id == 20 {
            QueueMethod::Bind
        } else if id == 21 {
            QueueMethod::BindOk
        } else if id == 30 {
            QueueMethod::Purge
        } else if id == 31 {
            QueueMethod::PurgeOk
        } else if id == 40 {
            QueueMethod::Delete
        } else if id == 41 {
            QueueMethod::DeleteOk
        } else if id == 50 {
            QueueMethod::Unbind
        } else if id == 51 {
            QueueMethod::UnbindOk
        } else {
            QueueMethod::Unknown
        }
    }

    pub fn from_u16(id: u16) -> (r: QueueMethod)
        ensures
            r == QueueMethod::spec_from_id(id),
    {
        match id {
            10 => QueueMethod::Declare,
            11 => QueueMethod::DeclareOk,
            20 => QueueMethod::Bind,
            21 => QueueMethod::BindOk,
            30 => QueueMethod::Purge,
            31 => QueueMethod::PurgeOk,
            40 => QueueMethod::Delete,
            41 => QueueMethod::DeleteOk,
            50 => QueueMethod::Unbind,
            51 => QueueMethod::UnbindOk,
            _ => QueueMethod::Unknown,
        }
    }
}

impl MethodId for QueueMethod {
    fn method_id(&self) -> (r: u16)
        ensures
            r == self.spec_id(),
    {
        match self {
            QueueMethod::Declare => 10,
            QueueMethod::DeclareOk => 11,
            QueueMethod::Bind => 20,
            QueueMethod::BindOk => 21,
            QueueMethod::Purge => 30,
            QueueMethod::PurgeOk => 31,
            QueueMethod::Delete => 40,
            QueueMethod::DeleteOk => 41,
            QueueMethod::Unbind => 50,
            QueueMethod::UnbindOk => 51,
            QueueMethod::Unknown => 0xffff,
        }
    }
}

/// The methods of class `Basic`.
#[derive(Clone, Copy, Debug, PartialEq, Eq, Structural)]
pub enum BasicMethod {
    Qos,
    QosOk,
    Consume,
    ConsumeOk,
    Cancel,
    CancelOk,
    Publish,
    Return,
    Deliver,
    Get,
    GetOk,
    GetEmpty,
    Ack,
    Reject,
    RecoverAsync,
    Recover,
    RecoverOk,
    Nack,
    Unknown,
}

impl BasicMethod {
    pub open spec fn spec_id(self) -> u16 {
        match self {
            BasicMethod::Qos => 10,
            BasicMethod::QosOk => 11,
            BasicMethod::Consume => 20,
            BasicMethod::ConsumeOk => 21,
            BasicMethod::Cancel => 30,
            BasicMethod::CancelOk => 31,
            BasicMethod::Publish => 40,
            BasicMethod::Return => 50,
            BasicMethod::Deliver => 60,
            BasicMethod::Get => 70,
            BasicMethod::GetOk => 71,
            BasicMethod::GetEmpty => 72,
            BasicMethod::Ack => 80,
            BasicMethod::Reject => 90,
            BasicMethod::RecoverAsync => 100,
            BasicMethod::Recover => 110,
            BasicMethod::RecoverOk => 111,
            BasicMethod::Nack => 120,
            BasicMethod::Unknown => 0xffff,
        }
    }

    pub open spec fn spec_from_id(id: u16) -> BasicMethod {
        if id == 10 {
            BasicMethod::Qos
        } else if id == 11 {
            BasicMethod::QosOk
        } else if id == 20 {
            BasicMethod::Consume
        } else if id == 21 {
            BasicMethod::ConsumeOk
        } else if id == 30 {
            BasicMethod::Cancel
        } else if id == 31 {
            BasicMethod::CancelOk
        } else if id == 40 {
            BasicMethod::Publish
        } else if id == 50 {
            BasicMethod::Return
        } else if id == 60 {
            BasicMethod::Deliver
        } else if id == 70 {
            BasicMethod::Get
        } else if id == 71 {
            BasicMethod::GetOk
        } else if id == 72 {
            BasicMethod::GetEmpty
        } else if id == 80 {
            BasicMethod::Ack
        } else if id == 90 {
            BasicMethod::Reject
        } else if id == 100 {
            BasicMethod::RecoverAsync
        } else if id == 110 {
            BasicMethod::Recover
        } else if id == 111 {
            BasicMethod::RecoverOk
        } else if id == 120 {
            BasicMethod::Nack
        } else {
            BasicMethod::Unknown
        }
    }

    pub fn from_u16(id: u16) -> (r: BasicMethod)
        ensures
            r == BasicMethod::spec_from_id(id),
    {
        match id {
            10 => BasicMethod::Qos,
            11 => BasicMethod::QosOk,
            20 => BasicMethod::Consume,
            21 => BasicMethod::ConsumeOk,
            30 => BasicMethod::Cancel,
            31 => BasicMethod::CancelOk,
            40 => BasicMethod::Publish,
            50 => BasicMethod::Return,
            60 => BasicMethod::Deliver,
            70 => BasicMethod::Get,
            71 => BasicMethod::GetOk,
            72 => BasicMethod::GetEmpty,
            80 => BasicMethod::Ack,
            90 => BasicMethod::Reject,
            100 => BasicMethod::RecoverAsync,
            110 => BasicMethod::Recover,
            111 => BasicMethod::RecoverOk,
            120 => BasicMethod::Nack,
            _ => BasicMethod::Unknown,
        }
    }
}

impl MethodId for BasicMethod {
    fn method_id(&self) -> (r: u16)
        ensures
            r == self.spec_id(),
    {
        match self {
            BasicMethod::Qos => 10,
            BasicMethod::QosOk => 11,
            BasicMethod::Consume => 20,
            BasicMethod::ConsumeOk => 21,
            BasicMethod::Cancel => 30,
            BasicMethod::CancelOk => 31,
            BasicMethod::Publish => 40,
            BasicMethod::Return => 50,
            BasicMethod::Deliver => 60,
            BasicMethod::Get => 70,
            BasicMethod::GetOk => 71,
            BasicMethod::GetEmpty => 72,
            BasicMethod::Ack => 80,
            BasicMethod::Reject => 90,
            BasicMethod::RecoverAsync => 100,
            BasicMethod::Recover => 110,
            BasicMethod::RecoverOk => 111,
            BasicMethod::Nack => 120,
            BasicMethod::Unknown => 0xffff,
        }
    }
}

/// The methods of class `Confirm`.
#[derive(Clone, Copy, Debug, PartialEq, Eq, Structural)]
pub enum ConfirmMethod {
    Select,
    SelectOk,
    Unknown,
}

impl ConfirmMethod {
    pub open spec fn spec_id(self) -> u16 {
        match self {
            ConfirmMethod::Select => 10,
            ConfirmMethod::SelectOk => 11,
            ConfirmMethod::Unknown => 0xffff,
        }
    }

    pub open spec fn spec_from_id(id: u16) -> ConfirmMethod {
        if id == 10 {
            ConfirmMethod::Select
        } else if id == 11 {
            ConfirmMethod::SelectOk
        } else {
            ConfirmMethod::Unknown
        }
    }

    pub fn from_u16(id: u16) -> (r: ConfirmMethod)
        ensures
            r == ConfirmMethod::spec_from_id(id),
    {
        match id {
            10 => ConfirmMethod::Select,
            11 => ConfirmMethod::SelectOk,
            _ => ConfirmMethod::Unknown,
        }
    }
}

impl MethodId for ConfirmMethod {
    fn method_id(&self) -> (r: u16)
        ensures
            r == self.spec_id(),
    {
        match self {
            ConfirmMethod::Select => 10,
            ConfirmMethod::SelectOk => 11,
            ConfirmMethod::Unknown => 0xffff,
        }
    }
}

/// The methods of class `Tx`.
#[derive(Clone, Copy, Debug, PartialEq, Eq, Structural)]
pub enum TxMethod {
    Select,
    SelectOk,
    Commit,
    CommitOk,
    Rollback,
    RollbackOk,
    Unknown,
}

impl TxMethod {
    pub open spec fn spec_id(self) -> u16 {
        match self {
            TxMethod::Select => 10,
            TxMethod::SelectOk => 11,
            TxMethod::Commit => 20,
            TxMethod::CommitOk => 21,
            TxMethod::Rollback => 30,
            TxMethod::RollbackOk => 31,
            TxMethod::Unknown => 0xffff,
        }
    }

    pub open spec fn spec_from_id(id: u16) -> TxMethod {
        if id == 10 {
            TxMethod::Select
        } else if id == 11 {
            TxMethod::SelectOk
        } else if id == 20 {
            TxMethod::Commit
        } else if id == 21 {
            TxMethod::CommitOk
        } else if id == 30 {
            TxMethod::Rollback
        } else if id == 31 {
            TxMethod::RollbackOk
        } else {
            TxMethod::Unknown
        }
    }

    pub fn from_u16(id: u16) -> (r: TxMethod)
        ensures
            r == TxMethod::spec_from_id(id),
    {
        match id {
            10 => TxMethod::Select,
            11 => TxMethod::SelectOk,
            20 => TxMethod::Commit,
            21 => TxMethod::CommitOk,
            30 => TxMethod::Rollback,
            31 => TxMethod::RollbackOk,
            _ => TxMethod::Unknown,
        }
    }
}

impl MethodId for TxMethod {
    fn method_id(&self) -> (r: u16)
        ensures
            r == self.spec_id(),
    {
        match self {
            TxMethod::Select => 10,
            TxMethod::SelectOk => 11,
            TxMethod::Commit => 20,
            TxMethod::CommitOk => 21,
            TxMethod::Rollback => 30,
            TxMethod::RollbackOk => 31,
            TxMethod::Unknown => 0xffff,
        }
    }
}

/// A method of some class.
#[derive(Clone, Copy, Debug, PartialEq, Eq, Structural)]
pub enum Method {
    Connection(ConnectionMethod),
    Channel(ChannelMethod),
    Access(AccessMethod),
    Exchange(ExchangeMethod),
    Queue(QueueMethod),
    Basic(BasicMethod),
    Confirm(ConfirmMethod),
    Tx(TxMethod),
}

impl Method {
    pub open spec fn spec_class(self) -> Class {
        match self {
            Method::Connection(_) => Class::Connection,
            Method::Channel(_) => Class::Channel,
            Method::Access(_) => Class::Access,
            Method::Exchange(_) => Class::Exchange,
            Method::Queue(_) => Class::Queue,
            Method::Basic(_) => Class::Basic,
            Method::Confirm(_) => Class::Confirm,
            Method::Tx(_) => Class::Tx,
        }
    }

    pub open spec fn spec_id(self) -> u16 {
        match self {
            Method::Connection(m) => m.spec_id(),
            Method::Channel(m) => m.spec_id(),
            Method::Access(m) => m.spec_id(),
            Method::Exchange(m) => m.spec_id(),
            Method::Queue(m) => m.spec_id(),
            Method::Basic(m) => m.spec_id(),
            Method::Confirm(m) => m.spec_id(),
            Method::Tx(m) => m.spec_id(),
        }
    }

    pub open spec fn spec_is_unknown(self) -> bool {
        match self {
            Method::Connection(m) => m is Unknown,
            Method::Channel(m) => m is Unknown,
            Method::Access(m) => m is Unknown,
            Method::Exchange(m) => m is Unknown,
            Method::Queue(m) => m is Unknown,
            Method::Basic(m) => m is Unknown,
            Method::Confirm(m) => m is Unknown,
            Method::Tx(m) => m is Unknown,
        }
    }

    /// The method that `id` names within `class`, if the registry has it.
    pub open spec fn spec_lookup(class: Class, id: u16) -> Result<Method, FrameDecodeErr> {
        match class {
            Class::Connection => if ConnectionMethod::spec_from_id(id) is Unknown {
                Err(FrameDecodeErr::SyntaxError(SyntaxErrorKind::UnknownMethod))
            } else {
                Ok(Method::Connection(ConnectionMethod::spec_from_id(id)))
            },
            Class::Channel => if ChannelMethod::spec_from_id(id) is Unknown {
                Err(FrameDecodeErr::SyntaxError(SyntaxErrorKind::UnknownMethod))
            } else {
                Ok(Method::Channel(ChannelMethod::spec_from_id(id)))
            },
            Class::Access => if AccessMethod::spec_from_id(id) is Unknown {
                Err(FrameDecodeErr::SyntaxError(SyntaxErrorKind::UnknownMethod))
            } else {
                Ok(Method::Access(AccessMethod::spec_from_id(id)))
            },
            Class::Exchange => if ExchangeMethod::spec_from_id(id) is Unknown {
                Err(FrameDecodeErr::SyntaxError(SyntaxErrorKind::UnknownMethod))
            } else {
                Ok(Method::Exchange(ExchangeMethod::spec_from_id(id)))
            },
            Class::Queue => if QueueMethod::spec_from_id(id) is Unknown {
                Err(FrameDecodeErr::SyntaxError(SyntaxErrorKind::UnknownMethod))
            } else {
                Ok(Method::Queue(QueueMethod::spec_from_id(id)))
            },
            Class::Basic => if BasicMethod::spec_from_id(id) is Unknown {
                Err(FrameDecodeErr::SyntaxError(SyntaxErrorKind::UnknownMethod))
            } else {
                Ok(Method::Basic(BasicMethod::spec_from_id(id)))
            },
            Class::Confirm => if ConfirmMethod::spec_from_id(id) is Unknown {
                Err(FrameDecodeErr::SyntaxError(SyntaxErrorKind::UnknownMethod))
            } else {
                Ok(Method::Confirm(ConfirmMethod::spec_from_id(id)))
            },
            Class::Tx => if TxMethod::spec_from_id(id) is Unknown {
                Err(FrameDecodeErr::SyntaxError(SyntaxErrorKind::UnknownMethod))
            } else {
                Ok(Method::Tx(TxMethod::spec_from_id(id)))
            },
            Class::Unknown => Err(FrameDecodeErr::SyntaxError(SyntaxErrorKind::UnknownClass)),
        }
    }

    pub fn class(&self) -> (r: Class)
        ensures
            r == self.spec_class(),
    {
        match self {
            Method::Connection(_) => Class::Connection,
            Method::Channel(_) => Class::Channel,
            Method::Access(_) => Class::Access,
            Method::Exchange(_) => Class::Exchange,
            Method::Queue(_) => Class::Queue,
            Method::Basic(_) => Class::Basic,
            Method::Confirm(_) => Class::Confirm,
            Method::Tx(_) => Class::Tx,
        }
    }

    /// Looks up the method that `id` names within `class`.
    pub fn get_method_type(class: Class, id: u16) -> (r: Result<Method, FrameDecodeErr>)
        ensures
            r == Method::spec_lookup(class, id),
    {
        match class {
            Class::Connection => {
                let m = ConnectionMethod::from_u16(id);
                if let ConnectionMethod::Unknown = m {
                    Err(FrameDecodeErr::SyntaxError(SyntaxErrorKind::UnknownMethod))
                } else {
                    Ok(Method::Connection(m))
                }
            },
            Class::Channel => {
                let m = ChannelMethod::from_u16(id);
                if let ChannelMethod::Unknown = m {
                    Err(FrameDecodeErr::SyntaxError(SyntaxErrorKind::UnknownMethod))
                } else {
                    Ok(Method::Channel(m))
                }
            },
            Class::Access => {
                let m = AccessMethod::from_u16(id);
                if let AccessMethod::Unknown = m {
                    Err(FrameDecodeErr::SyntaxError(SyntaxErrorKind::UnknownMethod))
                } else {
                    Ok(Method::Access(m))
                }
            },
            Class::Exchange => {
                let m = ExchangeMethod::from_u16(id);
                if let ExchangeMethod::Unknown = m {
                    Err(FrameDecodeErr::SyntaxError(SyntaxErrorKind::UnknownMethod))
                } else {
                    Ok(Method::Exchange(m))
                }
            },
            Class::Queue => {
                let m = QueueMethod::from_u16(id);
                if let QueueMethod::Unknown = m {
                    Err(FrameDecodeErr::SyntaxError(SyntaxErrorKind::UnknownMethod))
                } else {
                    Ok(Method::Queue(m))
                }
            },
            Class::Basic => {
                let m = BasicMethod::from_u16(id);
                if let BasicMethod::Unknown = m {
                    Err(FrameDecodeErr::SyntaxError(SyntaxErrorKind::UnknownMethod))
                } else {
                    Ok(Method::Basic(m))
                }
            },
            Class::Confirm => {
                let m = ConfirmMethod::from_u16(id);
                if let ConfirmMethod::Unknown = m {
                    Err(FrameDecodeErr::SyntaxError(SyntaxErrorKind::UnknownMethod))
                } else {
                    Ok(Method::Confirm(m))
                }
            },
            Class::Tx => {
                let m = TxMethod::from_u16(id);
                if let TxMethod::Unknown = m {
                    Err(FrameDecodeErr::SyntaxError(SyntaxErrorKind::UnknownMethod))
                } else {
                    Ok(Method::Tx(m))
                }
            },
            Class::Unknown => Err(FrameDecodeErr::SyntaxError(SyntaxErrorKind::UnknownClass)),
        }
    }
}

impl MethodId for Method {
    fn method_id(&self) -> (r: u16)
        ensures
            r == self.spec_id(),
    {
        match self {
            Method::Connection(m) => m.method_id(),
            Method::Channel(m) => m.method_id(),
            Method::Access(m) => m.method_id(),
            Method::Exchange(m) => m.method_id(),
            Method::Queue(m) => m.method_id(),
            Method::Basic(m) => m.method_id(),
            Method::Confirm(m) => m.method_id(),
            Method::Tx(m) => m.method_id(),
        }
    }
}

/// Every method of the registry is found again from its class id and method id.
pub proof fn lemma_lookup_round_trip(m: Method)
    requires
        !m.spec_is_unknown(),
    ensures
        Method::spec_lookup(Class::spec_from_id(m.spec_class().spec_id()), m.spec_id()) == Ok::<Method, FrameDecodeErr>(m),
{
}

} // verus!
