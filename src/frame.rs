//! Frames: the protocol header, frame header and terminator, and payload dispatch by frame type.
use vstd::prelude::*;
use crate::error::{FrameDecodeErr, SyntaxErrorKind, DecodeContext, SpecResult, agrees};
use crate::wire::{
    be16, be32, be64, from_be16, from_be32, lemma_be16_round_trip, lemma_be32_round_trip,
    lemma_be64_round_trip, lemma_parse_u32_prefix, parse_u32, put_u8, put_u16, put_u32, put_u64, put_slice,
    decode_u8, decode_u16, decode_u32, decode_u64, take_bytes,
};
use crate::field::{ctx_err, with_context};
use crate::args::{ArgModel, enc_args, parse_args, enc_opt_args, args_fit, lemma_args_round_trip};
use crate::method::{Class, Method, MethodId, lemma_lookup_round_trip};
use crate::arguments::{Arguments, method_layout};
use crate::properties::{
    BasicProperties, ConnectionProperties, ChannelProperties, AccessProperties, ExchangeProperties,
    QueueProperties, TxProperties, ConfirmProperties, parse_basic_properties, basic_properties_fit,
    lemma_basic_properties_round_trip,
};

verus! {

/// Every frame ends with this octet.
pub const FRAME_END: u8 = 0xce;

/// Length of the protocol header.
pub const PROTOCOL_HEADER_SIZE: usize = 8;

/// The kind of a frame, from its first octet.
#[derive(Clone, Copy, Debug, PartialEq, Eq, Structural)]
pub enum FrameType {
    METHOD,
    HEADER,
    BODY,
    HEARTBEAT,
    UNKNOWN,
}

impl FrameType {
    pub open spec fn spec_id(self) -> u8 {
        match self {
            FrameType::METHOD => 1,
            FrameType::HEADER => 2,
            FrameType::BODY => 3,
            FrameType::HEARTBEAT => 4,
            FrameType::UNKNOWN => 0xff,
        }
    }

    pub fn frame_type_id(&self) -> (r: u8)
        ensures
            r == self.spec_id(),
    {
        match self {
            FrameType::METHOD => 1,
            FrameType::HEADER => 2,
            FrameType::BODY => 3,
            FrameType::HEARTBEAT => 4,
            FrameType::UNKNOWN => 0xff,
        }
    }

    pub fn from_u8(id: u8) -> (r: FrameType)
        ensures
            r.spec_id() == id || (r is UNKNOWN && !(1 <= id <= 4)),
    {
        match id {
            1 => FrameType::METHOD,
            2 => FrameType::HEADER,
            3 => FrameType::BODY,
            4 => FrameType::HEARTBEAT,
            _ => FrameType::UNKNOWN,
        }
    }
}

/// The eight-octet banner: `AMQP`, then protocol id and version.
#[derive(Clone, Copy, Debug, PartialEq, Eq, Structural)]
pub struct ProtocolHeader {
    pub major_id: u8,
    pub minor_id: u8,
    pub major_version: u8,
    pub minor_version: u8,
}

pub open spec fn amqp_tag() -> Seq<u8> {
    seq![0x41u8, 0x4du8, 0x51u8, 0x50u8]
}

pub open spec fn enc_protocol_header(h: ProtocolHeader) -> Seq<u8> {
    amqp_tag() + seq![h.major_id, h.minor_id, h.major_version, h.minor_version]
}

/// The literal `AMQP` is checked as soon as four octets are there.
pub open spec fn parse_protocol_header(b: Seq<u8>) -> SpecResult<ProtocolHeader> {
    if b.len() < 4 {
        Err(FrameDecodeErr::Incomplete)
    } else if b.take(4) != amqp_tag() {
        Err(FrameDecodeErr::SyntaxError(SyntaxErrorKind::WrongProtocol))
    } else if b.len() < 8 {
        Err(FrameDecodeErr::Incomplete)
    } else {
        Ok((8, ProtocolHeader { major_id: b[4], minor_id: b[5], major_version: b[6], minor_version: b[7] }))
    }
}

impl View for ProtocolHeader {
    type V = ProtocolHeader;

    open spec fn view(&self) -> ProtocolHeader {
        *self
    }
}

impl ProtocolHeader {
    /// AMQP 0-9-1.
    pub fn new() -> (r: ProtocolHeader)
        ensures
            r == (ProtocolHeader { major_id: 0, minor_id: 0, major_version: 9, minor_version: 1 }),
    {
        ProtocolHeader { major_id: 0, minor_id: 0, major_version: 9, minor_version: 1 }
    }

    pub fn encode(&self, out: &mut Vec<u8>)
        ensures
            final(out)@ == old(out)@ + enc_protocol_header(*self),
    {
        put_u8(out, 0x41);
        put_u8(out, 0x4d);
        put_u8(out, 0x51);
        put_u8(out, 0x50);
        put_u8(out, self.major_id);
        put_u8(out, self.minor_id);
        put_u8(out, self.major_version);
        put_u8(out, self.minor_version);
        assert(out@ =~= old(out)@ + enc_protocol_header(*self));
    }

    pub fn decode(buf: &[u8]) -> (r: Result<(&[u8], ProtocolHeader), FrameDecodeErr>)
        ensures
            agrees(buf@, r, parse_protocol_header(buf@)),
    {
        if buf.len() < 4 {
            return Err(FrameDecodeErr::Incomplete);
        }
        if !(buf[0] == 0x41 && buf[1] == 0x4d && buf[2] == 0x51 && buf[3] == 0x50) {
            proof {
                if buf@.take(4) == amqp_tag() {
                    assert(buf@.take(4)[0] == amqp_tag()[0]);
                    assert(buf@.take(4)[1] == amqp_tag()[1]);
                    assert(buf@.take(4)[2] == amqp_tag()[2]);
                    assert(buf@.take(4)[3] == amqp_tag()[3]);
                }
            }
            return Err(FrameDecodeErr::SyntaxError(SyntaxErrorKind::WrongProtocol));
        }
        assert(buf@.take(4) =~= amqp_tag());
        if buf.len() < 8 {
            return Err(FrameDecodeErr::Incomplete);
        }
        let (rest, _) = match take_bytes(buf, 8) {
            Ok(v) => v,
            Err(e) => return Err(e),
        };
        Ok((rest, ProtocolHeader { major_id: buf[4], minor_id: buf[5], major_version: buf[6], minor_version: buf[7] }))
    }
}

/// The model of the properties of a content header.
pub enum PropertyModel {
    Flags(u32),
    Basic(Seq<Option<ArgModel>>),
}

/// The properties of a content header; the variant names the class.
#[derive(Debug)]
pub enum Property {
    Connection(ConnectionProperties),
    Channel(ChannelProperties),
    Access(AccessProperties),
    Exchange(ExchangeProperties),
    Queue(QueueProperties),
    Basic(BasicProperties),
    Tx(TxProperties),
    Confirm(ConfirmProperties),
}

impl View for Property {
    type V = PropertyModel;

    open spec fn view(&self) -> PropertyModel {
        match self {
            Property::Basic(p) => PropertyModel::Basic(p@),
            Property::Connection(p) => PropertyModel::Flags(p.flags),
            Property::Channel(p) => PropertyModel::Flags(p.flags),
            Property::Access(p) => PropertyModel::Flags(p.flags),
            Property::Exchange(p) => PropertyModel::Flags(p.flags),
            Property::Queue(p) => PropertyModel::Flags(p.flags),
            Property::Tx(p) => PropertyModel::Flags(p.flags),
            Property::Confirm(p) => PropertyModel::Flags(p.flags),
        }
    }
}

/// Properties of class `c`: the `Basic` layout, or a bare flag word.
pub open spec fn parse_property(c: Class, b: Seq<u8>) -> SpecResult<PropertyModel> {
    if c is Basic {
        match parse_basic_properties(b) {
            Ok((n, ms)) => Ok((n, PropertyModel::Basic(ms))),
            Err(e) => Err(e),
        }
    } else {
        match parse_u32(b) {
            Ok((n, f)) => Ok((n, PropertyModel::Flags(f))),
            Err(e) => Err(e),
        }
    }
}

impl Property {
    pub open spec fn spec_class(&self) -> Class {
        match self {
            Property::Connection(_) => Class::Connection,
            Property::Channel(_) => Class::Channel,
            Property::Access(_) => Class::Access,
            Property::Exchange(_) => Class::Exchange,
            Property::Queue(_) => Class::Queue,
            Property::Basic(_) => Class::Basic,
            Property::Tx(_) => Class::Tx,
            Property::Confirm(_) => Class::Confirm,
        }
    }

    pub open spec fn spec_bytes(&self) -> Seq<u8> {
        match self {
            Property::Basic(p) => be32(p.spec_flags()) + enc_opt_args(p@),
            Property::Connection(p) => be32(p.flags),
            Property::Channel(p) => be32(p.flags),
            Property::Access(p) => be32(p.flags),
            Property::Exchange(p) => be32(p.flags),
            Property::Queue(p) => be32(p.flags),
            Property::Tx(p) => be32(p.flags),
            Property::Confirm(p) => be32(p.flags),
        }
    }

    pub open spec fn encodable(&self) -> bool {
        match self {
            Property::Basic(p) => p.encodable(),
            _ => true,
        }
    }

    pub fn class(&self) -> (r: Class)
        ensures
            r == self.spec_class(),
    {
        match self {
            Property::Connection(_) => Class::Connection,
            Property::Channel(_) => Class::Channel,
            Property::Access(_) => Class::Access,
            Property::Exchange(_) => Class::Exchange,
            Property::Queue(_) => Class::Queue,
            Property::Basic(_) => Class::Basic,
            Property::Tx(_) => Class::Tx,
            Property::Confirm(_) => Class::Confirm,
        }
    }

    pub fn encode(&self, out: &mut Vec<u8>)
        requires
            self.encodable(),
        ensures
            final(out)@ == old(out)@ + self.spec_bytes(),
    {
        match self {
            Property::Connection(p) => p.encode(out),
            Property::Channel(p) => p.encode(out),
            Property::Access(p) => p.encode(out),
            Property::Exchange(p) => p.encode(out),
            Property::Queue(p) => p.encode(out),
            Property::Basic(p) => p.encode(out),
            Property::Tx(p) => p.encode(out),
            Property::Confirm(p) => p.encode(out),
        }
    }

    /// Decodes the properties of class `c`.
    pub fn decode(c: Class, buf: &[u8]) -> (r: Result<(&[u8], Property), FrameDecodeErr>)
        requires
            !(c is Unknown),
        ensures
            agrees(buf@, r, parse_property(c, buf@)),
            r matches Ok((_, p)) ==> p.spec_class() == c,
    {
        match c {
            Class::Connection => match ConnectionProperties::decode(buf) {
                Ok((rest, p)) => Ok((rest, Property::Connection(p))),
                Err(e) => Err(e),
            },
            Class::Channel => match ChannelProperties::decode(buf) {
                Ok((rest, p)) => Ok((rest, Property::Channel(p))),
                Err(e) => Err(e),
            },
            Class::Access => match AccessProperties::decode(buf) {
                Ok((rest, p)) => Ok((rest, Property::Access(p))),
                Err(e) => Err(e),
            },
            Class::Exchange => match ExchangeProperties::decode(buf) {
                Ok((rest, p)) => Ok((rest, Property::Exchange(p))),
                Err(e) => Err(e),
            },
            Class::Queue => match QueueProperties::decode(buf) {
                Ok((rest, p)) => Ok((rest, Property::Queue(p))),
                Err(e) => Err(e),
            },
            Class::Basic => match BasicProperties::decode(buf) {
                Ok((rest, p)) => Ok((rest, Property::Basic(p))),
                Err(e) => Err(e),
            },
            Class::Tx => match TxProperties::decode(buf) {
                Ok((rest, p)) => Ok((rest, Property::Tx(p))),
                Err(e) => Err(e),
            },
            Class::Confirm => match ConfirmProperties::decode(buf) {
                Ok((rest, p)) => Ok((rest, Property::Confirm(p))),
                Err(e) => Err(e),
            },
            Class::Unknown => Err(FrameDecodeErr::SyntaxError(SyntaxErrorKind::UnknownClass)),
        }
    }
}

/// The payload of a method frame: the method's arguments, which name the method.
#[derive(Debug)]
pub struct MethodPayload {
    pub args: Arguments,
}

/// The payload of a content-header frame.
#[derive(Debug)]
pub struct ContentHeaderPayload {
    pub weight: u16,
    pub body_size: u64,
    pub properties: Property,
}

/// The (empty) payload of a heartbeat frame.
#[derive(Debug)]
pub struct HeartbeatPayload;

/// A frame payload, by frame type.
#[derive(Debug)]
pub enum Payload {
    Heartbeat(HeartbeatPayload),
    Method(MethodPayload),
    ContentHeader(ContentHeaderPayload),
    ContentBody(Vec<u8>),
}

/// One frame: its channel and its payload.
#[derive(Debug)]
pub struct Frame {
    pub channel: u16,
    pub payload: Payload,
}

pub enum PayloadModel {
    Heartbeat,
    Method(Method, Seq<ArgModel>),
    ContentHeader(Class, u16, u64, PropertyModel),
    ContentBody(Seq<u8>),
}

pub struct FrameModel {
    pub channel: u16,
    pub payload: PayloadModel,
}

impl View for Frame {
    type V = FrameModel;

    open spec fn view(&self) -> FrameModel {
        FrameModel { channel: self.channel, payload: self.payload.view() }
    }
}

impl View for Payload {
    type V = PayloadModel;

    open spec fn view(&self) -> PayloadModel {
        match self {
            Payload::Heartbeat(_) => PayloadModel::Heartbeat,
            Payload::Method(m) => PayloadModel::Method(m.args.spec_method(), m.args@),
            Payload::ContentHeader(h) => PayloadModel::ContentHeader(
                h.properties.spec_class(),
                h.weight,
                h.body_size,
                h.properties@,
            ),
            Payload::ContentBody(b) => PayloadModel::ContentBody(b@),
        }
    }
}

/// A method payload: class and method ids, then the arguments that the
/// catalog gives for them; bytes after the arguments are ignored.
pub open spec fn parse_method_payload(p: Seq<u8>) -> Result<PayloadModel, FrameDecodeErr> {
    if p.len() < 4 {
        Err(FrameDecodeErr::DecodeError(DecodeContext::MethodPayload))
    } else {
        let cid = from_be16(p[0], p[1]);
        let mid = from_be16(p[2], p[3]);
        match Method::spec_lookup(Class::spec_from_id(cid), mid) {
            Err(e) => Err(e),
            Ok(m) => match parse_args(method_layout(m), p.skip(4)) {
                Ok((_, ms)) => Ok(PayloadModel::Method(m, ms)),
                Err(e) => Err(ctx_err(e, DecodeContext::MethodPayload)),
            },
        }
    }
}

/// A content-header payload: class, weight, body size, then the class's properties.
pub open spec fn parse_header_payload(p: Seq<u8>) -> Result<PayloadModel, FrameDecodeErr> {
    if p.len() < 2 {
        Err(FrameDecodeErr::DecodeError(DecodeContext::ContentHeaderPayload))
    } else if Class::spec_from_id(from_be16(p[0], p[1])) is Unknown {
        Err(FrameDecodeErr::SyntaxError(SyntaxErrorKind::UnknownClass))
    } else if p.len() < 12 {
        Err(FrameDecodeErr::DecodeError(DecodeContext::ContentHeaderPayload))
    } else {
        let c = Class::spec_from_id(from_be16(p[0], p[1]));
        let weight = from_be16(p[2], p[3]);
        let size = ((from_be32(p[4], p[5], p[6], p[7]) as u64) << 32u64) | (from_be32(
            p[8],
            p[9],
            p[10],
            p[11],
        ) as u64);
        match parse_property(c, p.skip(12)) {
            Ok((_, props)) => Ok(PayloadModel::ContentHeader(c, weight, size, props)),
            Err(e) => Err(ctx_err(e, DecodeContext::ContentHeaderPayload)),
        }
    }
}

/// The payload of a frame of type `t`.
pub open spec fn parse_payload(t: u8, p: Seq<u8>) -> Result<PayloadModel, FrameDecodeErr> {
    if t == 1 {
        parse_method_payload(p)
    } else if t == 2 {
        parse_header_payload(p)
    } else if t == 3 {
        Ok(PayloadModel::ContentBody(p))
    } else if t == 4 {
        if p.len() == 0 {
            Ok(PayloadModel::Heartbeat)
        } else {
            Err(FrameDecodeErr::SyntaxError(SyntaxErrorKind::HeartbeatLength))
        }
    } else {
        Err(FrameDecodeErr::SyntaxError(SyntaxErrorKind::UnknownFrameType))
    }
}

/// The declared payload length of a frame whose header is in `b`.
pub open spec fn frame_length(b: Seq<u8>) -> int {
    from_be32(b[3], b[4], b[5], b[6]) as int
}

/// A whole frame: seven header octets, the payload, and the terminator.
/// Nothing is decided until the terminator is there.
pub open spec fn parse_frame(b: Seq<u8>) -> SpecResult<FrameModel> {
    if b.len() < 7 {
        Err(FrameDecodeErr::Incomplete)
    } else if b.len() < 8 + frame_length(b) {
        Err(FrameDecodeErr::Incomplete)
    } else if b[7 + frame_length(b)] != FRAME_END {
        Err(FrameDecodeErr::SyntaxError(SyntaxErrorKind::FrameEnd))
    } else {
        match parse_payload(b[0], b.subrange(7, 7 + frame_length(b))) {
            Ok(p) => Ok(((8 + frame_length(b)) as nat, FrameModel { channel: from_be16(b[1], b[2]), payload: p })),
            Err(e) => Err(e),
        }
    }
}

/// A frame is decoded only once all of it is there: every strict prefix of
/// a frame is incomplete, and the frame itself decodes consuming exactly its length.
pub proof fn lemma_frame_prefix(b: Seq<u8>, k: nat)
    requires
        parse_frame(b) is Ok,
        k < parse_frame(b)->Ok_0.0,
    ensures
        parse_frame(b.take(k as int)) == Err::<(nat, FrameModel), FrameDecodeErr>(FrameDecodeErr::Incomplete),
        parse_frame(b.take(parse_frame(b)->Ok_0.0 as int)) == parse_frame(b),
{
    let n = parse_frame(b)->Ok_0.0;
    let a = b.take(k as int);
    if a.len() >= 7 {
        assert(a[3] == b[3] && a[4] == b[4] && a[5] == b[5] && a[6] == b[6]);
    }
    let f = b.take(n as int);
    assert(f[0] == b[0] && f[1] == b[1] && f[2] == b[2]);
    assert(f[3] == b[3] && f[4] == b[4] && f[5] == b[5] && f[6] == b[6]);
    assert(f[7 + frame_length(b)] == b[7 + frame_length(b)]);
    assert(f.subrange(7, 7 + frame_length(b)) =~= b.subrange(7, 7 + frame_length(b)));
}

impl MethodPayload {
    pub fn class(&self) -> (r: Class)
        ensures
            r == self.args.spec_method().spec_class(),
    {
        self.args.method().class()
    }

    pub fn method(&self) -> (r: Method)
        ensures
            r == self.args.spec_method(),
    {
        self.args.method()
    }

    fn decode(p: &[u8]) -> (r: Result<MethodPayload, FrameDecodeErr>)
        ensures
            match parse_method_payload(p@) {
                Ok(m) => r matches Ok(v) && Payload::Method(v)@ == m,
                Err(e) => r matches Err(e2) && e2 == e,
            },
    {
        if p.len() < 4 {
            return Err(FrameDecodeErr::DecodeError(DecodeContext::MethodPayload));
        }
        let (rest, class_id) = match decode_u16(p) {
            Ok(v) => v,
            Err(e) => return Err(with_context(e, DecodeContext::MethodPayload)),
        };
        let (rest, method_id) = match decode_u16(rest) {
            Ok(v) => v,
            Err(e) => return Err(with_context(e, DecodeContext::MethodPayload)),
        };
        assert(rest@ =~= p@.skip(4));
        let m = match Method::get_method_type(Class::from_u16(class_id), method_id) {
            Ok(m) => m,
            Err(e) => return Err(e),
        };
        match Arguments::decode(m, rest) {
            Ok((_, args)) => Ok(MethodPayload { args }),
            Err(e) => Err(with_context(e, DecodeContext::MethodPayload)),
        }
    }
}

impl ContentHeaderPayload {
    pub fn class(&self) -> (r: Class)
        ensures
            r == self.properties.spec_class(),
    {
        self.properties.class()
    }

    fn decode(p: &[u8]) -> (r: Result<ContentHeaderPayload, FrameDecodeErr>)
        ensures
            match parse_header_payload(p@) {
                Ok(m) => r matches Ok(v) && Payload::ContentHeader(v)@ == m,
                Err(e) => r matches Err(e2) && e2 == e,
            },
    {
        if p.len() < 2 {
            return Err(FrameDecodeErr::DecodeError(DecodeContext::ContentHeaderPayload));
        }
        let (rest, class_id) = match decode_u16(p) {
            Ok(v) => v,
            Err(e) => return Err(with_context(e, DecodeContext::ContentHeaderPayload)),
        };
        let class = Class::from_u16(class_id);
        if let Class::Unknown = class {
            return Err(FrameDecodeErr::SyntaxError(SyntaxErrorKind::UnknownClass));
        }
        if p.len() < 12 {
            return Err(FrameDecodeErr::DecodeError(DecodeContext::ContentHeaderPayload));
        }
        let (rest, weight) = match decode_u16(rest) {
            Ok(v) => v,
            Err(e) => return Err(with_context(e, DecodeContext::ContentHeaderPayload)),
        };
        let (rest, body_size) = match decode_u64(rest) {
            Ok(v) => v,
            Err(e) => return Err(with_context(e, DecodeContext::ContentHeaderPayload)),
        };
        assert(rest@ =~= p@.skip(12));
        assert(rest@.skip(0) =~= rest@);
        match Property::decode(class, rest) {
            Ok((_, properties)) => Ok(ContentHeaderPayload { weight, body_size, properties }),
            Err(e) => Err(with_context(e, DecodeContext::ContentHeaderPayload)),
        }
    }
}

impl Payload {
    pub open spec fn spec_type(&self) -> u8 {
        match self {
            Payload::Method(_) => 1,
            Payload::ContentHeader(_) => 2,
            Payload::ContentBody(_) => 3,
            Payload::Heartbeat(_) => 4,
        }
    }

    /// The payload octets, without the frame header and terminator.
    pub open spec fn spec_bytes(&self) -> Seq<u8> {
        match self {
            Payload::Heartbeat(_) => seq![],
            Payload::Method(m) => be16(m.args.spec_method().spec_class().spec_id()) + be16(
                m.args.spec_method().spec_id(),
            ) + enc_args(m.args@),
            Payload::ContentHeader(h) => be16(h.properties.spec_class().spec_id()) + be16(h.weight)
                + be64(h.body_size) + h.properties.spec_bytes(),
            Payload::ContentBody(b) => b@,
        }
    }

    pub open spec fn encodable(&self) -> bool {
        match self {
            Payload::Method(m) => m.args.encodable(),
            Payload::ContentHeader(h) => h.properties.encodable(),
            _ => true,
        }
    }

    pub fn frame_type(&self) -> (r: FrameType)
        ensures
            r.spec_id() == self.spec_type(),
    {
        match self {
            Payload::Method(_) => FrameType::METHOD,
            Payload::ContentHeader(_) => FrameType::HEADER,
            Payload::ContentBody(_) => FrameType::BODY,
            Payload::Heartbeat(_) => FrameType::HEARTBEAT,
        }
    }

    pub fn encode(&self, out: &mut Vec<u8>)
        requires
            self.encodable(),
        ensures
            final(out)@ == old(out)@ + self.spec_bytes(),
    {
        match self {
            Payload::Heartbeat(_) => {
                assert(out@ =~= old(out)@ + self.spec_bytes());
            },
            Payload::Method(m) => {
                put_u16(out, m.class().class_id());
                put_u16(out, m.method().method_id());
                m.args.encode(out);
                assert(out@ =~= old(out)@ + self.spec_bytes());
            },
            Payload::ContentHeader(h) => {
                put_u16(out, h.class().class_id());
                put_u16(out, h.weight);
                put_u64(out, h.body_size);
                h.properties.encode(out);
                assert(out@ =~= old(out)@ + self.spec_bytes());
            },
            Payload::ContentBody(b) => put_slice(out, b.as_slice()),
        }
    }
}

impl Frame {
    /// The octets of the frame: type, channel, payload length, payload, terminator.
    pub open spec fn spec_encode(&self) -> Seq<u8> {
        seq![self.payload.spec_type()] + be16(self.channel) + be32(
            self.payload.spec_bytes().len() as u32,
        ) + self.payload.spec_bytes() + seq![FRAME_END]
    }

    pub open spec fn encodable(&self) -> bool {
        self.payload.encodable() && self.payload.spec_bytes().len() <= u32::MAX
    }

    pub fn frame_type(&self) -> (r: FrameType)
        ensures
            r.spec_id() == self.payload.spec_type(),
    {
        self.payload.frame_type()
    }

    /// Encodes the payload first, so that the length field is its exact size.
    pub fn encode(&self, out: &mut Vec<u8>)
        requires
            self.encodable(),
        ensures
            final(out)@ == old(out)@ + self.spec_encode(),
    {
        let mut body: Vec<u8> = Vec::new();
        self.payload.encode(&mut body);
        assert(body@ =~= self.payload.spec_bytes());
        put_u8(out, self.frame_type().frame_type_id());
        put_u16(out, self.channel);
        put_u32(out, body.len() as u32);
        put_slice(out, body.as_slice());
        put_u8(out, FRAME_END);
        assert(out@ =~= old(out)@ + self.spec_encode());
    }

    /// Decodes one whole frame from the front of `buf`.
    pub fn decode(buf: &[u8]) -> (r: Result<(&[u8], Frame), FrameDecodeErr>)
        ensures
            agrees(buf@, r, parse_frame(buf@)),
    {
        if buf.len() < 7 {
            return Err(FrameDecodeErr::Incomplete);
        }
        let (rest, frame_type) = match decode_u8(buf) {
            Ok(v) => v,
            Err(e) => return Err(e),
        };
        let (rest, channel) = match decode_u16(rest) {
            Ok(v) => v,
            Err(e) => return Err(e),
        };
        let (rest, length) = match decode_u32(rest) {
            Ok(v) => v,
            Err(e) => return Err(e),
        };
        assert(rest@ =~= buf@.skip(7));
        let (rest, payload) = match take_bytes(rest, length as usize) {
            Ok(v) => v,
            Err(e) => return Err(e),
        };
        let (rest, end) = match decode_u8(rest) {
            Ok(v) => v,
            Err(e) => return Err(e),
        };
        assert(payload@ =~= buf@.subrange(7, 7 + length));
        assert(rest@ =~= buf@.skip(8 + length));
        if end != FRAME_END {
            return Err(FrameDecodeErr::SyntaxError(SyntaxErrorKind::FrameEnd));
        }
        let payload = if frame_type == 1 {
            match MethodPayload::decode(payload) {
                Ok(m) => Payload::Method(m),
                Err(e) => return Err(e),
            }
        } else if frame_type == 2 {
            match ContentHeaderPayload::decode(payload) {
                Ok(h) => Payload::ContentHeader(h),
                Err(e) => return Err(e),
            }
        } else if frame_type == 3 {
            let mut body: Vec<u8> = Vec::new();
            put_slice(&mut body, payload);
            assert(body@ =~= payload@);
            Payload::ContentBody(body)
        } else if frame_type == 4 {
            if length != 0 {
                return Err(FrameDecodeErr::SyntaxError(SyntaxErrorKind::HeartbeatLength));
            }
            Payload::Heartbeat(HeartbeatPayload)
        } else {
            return Err(FrameDecodeErr::SyntaxError(SyntaxErrorKind::UnknownFrameType));
        };
        Ok((rest, Frame { channel, payload }))
    }
}

/// What the frame decoder hands out.
#[derive(Debug)]
pub enum DecodedFrame {
    ProtocolHeader(ProtocolHeader),
    AmqpFrame(Frame),
}

pub enum DecodedModel {
    ProtocolHeader(ProtocolHeader),
    AmqpFrame(FrameModel),
}

impl View for DecodedFrame {
    type V = DecodedModel;

    open spec fn view(&self) -> DecodedModel {
        match self {
            DecodedFrame::ProtocolHeader(h) => DecodedModel::ProtocolHeader(*h),
            DecodedFrame::AmqpFrame(f) => DecodedModel::AmqpFrame(f@),
        }
    }
}

/// One step of the decoder: before the protocol header, the header; after
/// it, a frame. `None` means that more octets are needed.
pub open spec fn codec_step(header_received: bool, b: Seq<u8>) -> Result<
    Option<(nat, DecodedModel)>,
    FrameDecodeErr,
> {
    if !header_received {
        match parse_protocol_header(b) {
            Ok((n, h)) => Ok(Some((n, DecodedModel::ProtocolHeader(h)))),
            Err(FrameDecodeErr::Incomplete) => Ok(None),
            Err(e) => Err(e),
        }
    } else {
        match parse_frame(b) {
            Ok((n, f)) => Ok(Some((n, DecodedModel::AmqpFrame(f)))),
            Err(FrameDecodeErr::Incomplete) => Ok(None),
            Err(e) => Err(e),
        }
    }
}

/// The incremental decoder of one connection: the only state is whether
/// the protocol header has been seen.
#[derive(Debug)]
pub struct FrameCodec {
    header_received: bool,
}

impl FrameCodec {
    pub closed spec fn spec_header_received(&self) -> bool {
        self.header_received
    }

    pub fn new() -> (r: FrameCodec)
        ensures
            !r.spec_header_received(),
    {
        FrameCodec { header_received: false }
    }

    pub fn header_received(&self) -> (r: bool)
        ensures
            r == self.spec_header_received(),
    {
        self.header_received
    }

    /// Decodes what `buf` starts with. On `Ok(Some((n, item)))` the caller
    /// drops the first `n` octets; on `Ok(None)` it keeps them all and
    /// waits for more; an error is fatal.
    pub fn decode(&mut self, buf: &[u8]) -> (r: Result<Option<(usize, DecodedFrame)>, FrameDecodeErr>)
        ensures
            match codec_step(old(self).spec_header_received(), buf@) {
                Ok(Some((n, m))) => r matches Ok(Some((k, d))) && k == n && d@ == m,
                Ok(None) => r matches Ok(None),
                Err(e) => r matches Err(e2) && e2 == e,
            },
            final(self).spec_header_received() == (old(self).spec_header_received() || (r matches Ok(Some((_, d))) && d is ProtocolHeader)),
    {
        if !self.header_received {
            match ProtocolHeader::decode(buf) {
                Ok((_, h)) => {
                    self.header_received = true;
                    Ok(Some((PROTOCOL_HEADER_SIZE, DecodedFrame::ProtocolHeader(h))))
                },
                Err(FrameDecodeErr::Incomplete) => Ok(None),
                Err(e) => Err(e),
            }
        } else {
            match Frame::decode(buf) {
                Ok((rest, f)) => Ok(Some((buf.len() - rest.len(), DecodedFrame::AmqpFrame(f)))),
                Err(FrameDecodeErr::Incomplete) => Ok(None),
                Err(e) => Err(e),
            }
        }
    }
}

/// A whole frame whose last octet is not the terminator is refused as a
/// syntax error, whatever its payload.
pub proof fn lemma_frame_end(b: Seq<u8>)
    requires
        b.len() >= 7,
        b.len() >= 8 + frame_length(b),
        b[7 + frame_length(b)] != FRAME_END,
    ensures
        parse_frame(b) == Err::<(nat, FrameModel), FrameDecodeErr>(
            FrameDecodeErr::SyntaxError(SyntaxErrorKind::FrameEnd),
        ),
{
}

/// The arguments of a method payload fit the layout the catalog gives for
/// its method, and the present properties of a `Basic` content header fit
/// their wire types.
pub open spec fn frame_round_trips(f: &Frame) -> bool {
    match &f.payload {
        Payload::Method(m) => args_fit(method_layout(m.args.spec_method()), m.args@),
        Payload::ContentHeader(h) => match &h.properties {
            Property::Basic(bp) => basic_properties_fit(bp),
            _ => true,
        },
        _ => true,
    }
}

#[verifier::spinoff_prover]
#[verifier::rlimit(100)]
proof fn lemma_method_payload_round_trip(m: &MethodPayload)
    requires
        args_fit(method_layout(m.args.spec_method()), m.args@),
    ensures
        parse_method_payload(Payload::Method(*m).spec_bytes()) == Ok::<PayloadModel, FrameDecodeErr>(
            Payload::Method(*m)@,
        ),
{
    let meth = m.args.spec_method();
    let p = Payload::Method(*m).spec_bytes();
    let cid = meth.spec_class().spec_id();
    let mid = meth.spec_id();
    lemma_be16_round_trip(cid);
    lemma_be16_round_trip(mid);
    assert(p[0] == be16(cid)[0] && p[1] == be16(cid)[1]);
    assert(p[2] == be16(mid)[0] && p[3] == be16(mid)[1]);
    assert(!meth.spec_is_unknown());
    lemma_lookup_round_trip(meth);
    assert(p.skip(4) =~= enc_args(m.args@) + Seq::<u8>::empty());
    lemma_args_round_trip(method_layout(meth), m.args@, Seq::<u8>::empty());
}

proof fn lemma_header_payload_round_trip(h: &ContentHeaderPayload)
    requires
        h.properties matches Property::Basic(bp) ==> basic_properties_fit(&bp),
    ensures
        parse_header_payload(Payload::ContentHeader(*h).spec_bytes()) == Ok::<
            PayloadModel,
            FrameDecodeErr,
        >(Payload::ContentHeader(*h)@),
{
    let p = Payload::ContentHeader(*h).spec_bytes();
    let c = h.properties.spec_class();
    lemma_be16_round_trip(c.spec_id());
    lemma_be16_round_trip(h.weight);
    lemma_be64_round_trip(h.body_size);
    let b64 = be64(h.body_size);
    assert(p[0] == be16(c.spec_id())[0] && p[1] == be16(c.spec_id())[1]);
    assert(p[2] == be16(h.weight)[0] && p[3] == be16(h.weight)[1]);
    assert(p.subrange(4, 12) =~= b64);
    assert(p[4] == b64[0] && p[5] == b64[1] && p[6] == b64[2] && p[7] == b64[3]);
    assert(p[8] == b64[4] && p[9] == b64[5] && p[10] == b64[6] && p[11] == b64[7]);
    assert(Class::spec_from_id(c.spec_id()) == c);
    if let Property::Basic(bp) = &h.properties {
        assert(p.skip(12) =~= be32(bp.spec_flags()) + enc_opt_args(bp@) + Seq::<u8>::empty());
        lemma_basic_properties_round_trip(bp, Seq::<u8>::empty());
    } else {
        let flags = match &h.properties {
            Property::Basic(_) => 0u32,
            Property::Connection(q) => q.flags,
            Property::Channel(q) => q.flags,
            Property::Access(q) => q.flags,
            Property::Exchange(q) => q.flags,
            Property::Queue(q) => q.flags,
            Property::Tx(q) => q.flags,
            Property::Confirm(q) => q.flags,
        };
        assert(h.properties.spec_bytes() == be32(flags));
        assert(p.skip(12) =~= be32(flags) + Seq::<u8>::empty());
        lemma_parse_u32_prefix(flags, Seq::<u8>::empty());
    }
}

/// Round trip of a frame: its encoding, followed by anything, decodes to the
/// same frame and consumes exactly the encoding.
pub proof fn lemma_frame_round_trip(f: &Frame, rest: Seq<u8>)
    requires
        f.encodable(),
        frame_round_trips(f),
    ensures
        parse_frame(f.spec_encode() + rest) == Ok::<(nat, FrameModel), FrameDecodeErr>(
            (f.spec_encode().len(), f@),
        ),
{
    let pb = f.payload.spec_bytes();
    let len = pb.len() as u32;
    let b = f.spec_encode() + rest;
    lemma_be16_round_trip(f.channel);
    lemma_be32_round_trip(len);
    assert(b[1] == be16(f.channel)[0] && b[2] == be16(f.channel)[1]);
    assert(b[3] == be32(len)[0] && b[4] == be32(len)[1] && b[5] == be32(len)[2] && b[6] == be32(len)[3]);
    assert(frame_length(b) == pb.len());
    assert(b[7 + frame_length(b)] == FRAME_END);
    assert(b.subrange(7, 7 + frame_length(b)) =~= pb);
    match &f.payload {
        Payload::Method(m) => lemma_method_payload_round_trip(m),
        Payload::ContentHeader(h) => lemma_header_payload_round_trip(h),
        _ => {},
    }
}

} // verus!
