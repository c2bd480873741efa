//! Content-header properties: a flag word, and for `Basic` the fields it selects.
use vstd::prelude::*;
use crate::error::{FrameDecodeErr, SpecResult, agrees};
use crate::wire::{be32, parse_u32, lemma_parse_u32_prefix, put_u8, put_u32, put_u64, decode_u8, decode_u32, decode_u64};
use crate::strings::ShortStr;
use crate::field::{FieldTable, FieldValueModel, value_fits};
use crate::args::{ArgKind, ArgModel, enc_opt_arg, opt_parse, enc_opt_args, parse_opt_args, prepend_opt, lemma_skip_skip, lemma_enc_opt_args_push, lemma_prepend_opt_shift, arg_fits, lemma_opt_args_round_trip, lemma_prepend_opt_start, lemma_opt_args_step};
use crate::method::Class;

verus! {

pub const FLAG_CONTENT_TYPE: u32 = 0x8000;

pub const FLAG_CONTENT_ENCODING: u32 = 0x4000;

pub const FLAG_HEADERS: u32 = 0x2000;

pub const FLAG_DELIVERY_MODE: u32 = 0x1000;

pub const FLAG_PRIORITY: u32 = 0x800;

pub const FLAG_CORRELATION_ID: u32 = 0x400;

pub const FLAG_REPLY_TO: u32 = 0x200;

pub const FLAG_EXPIRATION: u32 = 0x100;

pub const FLAG_MESSAGE_ID: u32 = 0x80;

pub const FLAG_TIMESTAMP: u32 = 0x40;

pub const FLAG_BASIC_TYPE: u32 = 0x20;

pub const FLAG_USER_ID: u32 = 0x10;

pub const FLAG_APP_ID: u32 = 0x8;

pub const FLAG_CLUSTER_ID: u32 = 0x4;

/// The wire type of the optional `Basic` property at position `i`, bit 15 first.
pub open spec fn basic_property_kind(i: int) -> ArgKind {
    if i == 0 { ArgKind::ShortStr } else { if i == 1 { ArgKind::ShortStr } else { if i == 2 { ArgKind::Table } else { if i == 3 { ArgKind::Octet } else { if i == 4 { ArgKind::Octet } else { if i == 5 { ArgKind::ShortStr } else { if i == 6 { ArgKind::ShortStr } else { if i == 7 { ArgKind::ShortStr } else { if i == 8 { ArgKind::ShortStr } else { if i == 9 { ArgKind::LongLong } else { if i == 10 { ArgKind::ShortStr } else { if i == 11 { ArgKind::ShortStr } else { if i == 12 { ArgKind::ShortStr } else { if i == 13 { ArgKind::ShortStr } else { ArgKind::ShortStr } } } } } } } } } } } } } }
}

/// The flag bit of the optional `Basic` property at position `i`.
pub open spec fn basic_property_flag(i: int) -> u32 {
    if i == 0 { FLAG_CONTENT_TYPE } else { if i == 1 { FLAG_CONTENT_ENCODING } else { if i == 2 { FLAG_HEADERS } else { if i == 3 { FLAG_DELIVERY_MODE } else { if i == 4 { FLAG_PRIORITY } else { if i == 5 { FLAG_CORRELATION_ID } else { if i == 6 { FLAG_REPLY_TO } else { if i == 7 { FLAG_EXPIRATION } else { if i == 8 { FLAG_MESSAGE_ID } else { if i == 9 { FLAG_TIMESTAMP } else { if i == 10 { FLAG_BASIC_TYPE } else { if i == 11 { FLAG_USER_ID } else { if i == 12 { FLAG_APP_ID } else { if i == 13 { FLAG_CLUSTER_ID } else { 0 } } } } } } } } } } } } } }
}

/// The wire types of the optional `Basic` properties, from bit 15 down to bit 2.
pub open spec fn basic_property_kinds() -> Seq<ArgKind> {
    Seq::new(14, |i: int| basic_property_kind(i))
}

/// Which optional `Basic` properties flag word `f` selects, from bit 15 down to bit 2.
pub open spec fn basic_property_present(f: u32) -> Seq<bool> {
    Seq::new(14, |i: int| f & basic_property_flag(i) != 0)
}

pub open spec fn parse_basic_properties(b: Seq<u8>) -> SpecResult<Seq<Option<ArgModel>>> {
    match parse_u32(b) {
        Err(e) => Err(e),
        Ok((n, f)) => prepend_opt(
            parse_opt_args(basic_property_kinds(), basic_property_present(f), b.skip(4)),
            4,
            Seq::<Option<ArgModel>>::empty(),
        ),
    }
}

pub open spec fn opt_short_str(o: &Option<ShortStr>) -> Option<ArgModel> {
    match o {
        Some(s) => Some(ArgModel::ShortStr(s@)),
        None => None,
    }
}

pub open spec fn opt_table(o: &Option<FieldTable>) -> Option<ArgModel> {
    match o {
        Some(s) => Some(ArgModel::Table(s@)),
        None => None,
    }
}

pub open spec fn opt_octet(o: &Option<u8>) -> Option<ArgModel> {
    match o {
        Some(s) => Some(ArgModel::Octet(*s)),
        None => None,
    }
}

pub open spec fn opt_long_long(o: &Option<u64>) -> Option<ArgModel> {
    match o {
        Some(s) => Some(ArgModel::LongLong(*s)),
        None => None,
    }
}

/// `mask` when `present`, else nothing.
pub closed spec fn flag_of(present: bool, mask: u32) -> int {
    if present {
        mask as int
    } else {
        0
    }
}

fn flag_if(present: bool, mask: u32) -> (r: u32)
    ensures
        r == flag_of(present, mask),
        r <= mask,
{
    if present {
        mask
    } else {
        0
    }
}

/// An optional field: decoded only when `present`.
fn decode_opt_short_str(present: bool, r: &[u8]) -> (res: Result<(&[u8], Option<ShortStr>), FrameDecodeErr>)
    ensures
        match opt_parse(present, ArgKind::ShortStr, r@) {
            Ok((n, m)) => n <= r@.len() && (res matches Ok((rest, v)) && rest@ == r@.skip(n as int) && opt_short_str(&v) == m),
            Err(e) => res matches Err(e2) && e2 == e,
        },
{
    reveal(opt_parse);
    if !present {
        assert(r@ =~= r@.skip(0));
        return Ok((r, None));
    }
    match ShortStr::decode(r) {
        Ok((rest, v)) => Ok((rest, Some(v))),
        Err(e) => Err(e),
    }
}

fn encode_opt_short_str(o: &Option<ShortStr>, out: &mut Vec<u8>)
    ensures
        final(out)@ == old(out)@ + enc_opt_arg(opt_short_str(o)),
{
    match o {
        Some(v) => v.encode(out),
        None => {
            assert(out@ =~= old(out)@ + Seq::<u8>::empty());
        },
    }
}

/// An optional field: decoded only when `present`.
fn decode_opt_table(present: bool, r: &[u8]) -> (res: Result<(&[u8], Option<FieldTable>), FrameDecodeErr>)
    ensures
        match opt_parse(present, ArgKind::Table, r@) {
            Ok((n, m)) => n <= r@.len() && (res matches Ok((rest, v)) && rest@ == r@.skip(n as int) && opt_table(&v) == m),
            Err(e) => res matches Err(e2) && e2 == e,
        },
{
    reveal(opt_parse);
    if !present {
        assert(r@ =~= r@.skip(0));
        return Ok((r, None));
    }
    match FieldTable::decode(r) {
        Ok((rest, v)) => Ok((rest, Some(v))),
        Err(e) => Err(e),
    }
}

fn encode_opt_table(o: &Option<FieldTable>, out: &mut Vec<u8>)
    requires
        o matches Some(t) ==> value_fits(FieldValueModel::FieldTable(t@)),
    ensures
        final(out)@ == old(out)@ + enc_opt_arg(opt_table(o)),
{
    match o {
        Some(v) => v.encode(out),
        None => {
            assert(out@ =~= old(out)@ + Seq::<u8>::empty());
        },
    }
}

/// An optional field: decoded only when `present`.
fn decode_opt_octet(present: bool, r: &[u8]) -> (res: Result<(&[u8], Option<u8>), FrameDecodeErr>)
    ensures
        match opt_parse(present, ArgKind::Octet, r@) {
            Ok((n, m)) => n <= r@.len() && (res matches Ok((rest, v)) && rest@ == r@.skip(n as int) && opt_octet(&v) == m),
            Err(e) => res matches Err(e2) && e2 == e,
        },
{
    reveal(opt_parse);
    if !present {
        assert(r@ =~= r@.skip(0));
        return Ok((r, None));
    }
    match decode_u8(r) {
        Ok((rest, v)) => Ok((rest, Some(v))),
        Err(e) => Err(e),
    }
}

fn encode_opt_octet(o: &Option<u8>, out: &mut Vec<u8>)
    ensures
        final(out)@ == old(out)@ + enc_opt_arg(opt_octet(o)),
{
    match o {
        Some(v) => put_u8(out, *v),
        None => {
            assert(out@ =~= old(out)@ + Seq::<u8>::empty());
        },
    }
}

/// An optional field: decoded only when `present`.
fn decode_opt_long_long(present: bool, r: &[u8]) -> (res: Result<(&[u8], Option<u64>), FrameDecodeErr>)
    ensures
        match opt_parse(present, ArgKind::LongLong, r@) {
            Ok((n, m)) => n <= r@.len() && (res matches Ok((rest, v)) && rest@ == r@.skip(n as int) && opt_long_long(&v) == m),
            Err(e) => res matches Err(e2) && e2 == e,
        },
{
    reveal(opt_parse);
    if !present {
        assert(r@ =~= r@.skip(0));
        return Ok((r, None));
    }
    match decode_u64(r) {
        Ok((rest, v)) => Ok((rest, Some(v))),
        Err(e) => Err(e),
    }
}

fn encode_opt_long_long(o: &Option<u64>, out: &mut Vec<u8>)
    ensures
        final(out)@ == old(out)@ + enc_opt_arg(opt_long_long(o)),
{
    match o {
        Some(v) => put_u64(out, *v),
        None => {
            assert(out@ =~= old(out)@ + Seq::<u8>::empty());
        },
    }
}

/// The properties of class `Basic`; each field is on the wire only when present.
#[derive(Debug)]
pub struct BasicProperties {
    pub content_type: Option<ShortStr>,
    pub content_encoding: Option<ShortStr>,
    pub headers: Option<FieldTable>,
    pub delivery_mode: Option<u8>,
    pub priority: Option<u8>,
    pub correlation_id: Option<ShortStr>,
    pub reply_to: Option<ShortStr>,
    pub expiration: Option<ShortStr>,
    pub message_id: Option<ShortStr>,
    pub timestamp: Option<u64>,
    pub basic_type: Option<ShortStr>,
    pub user_id: Option<ShortStr>,
    pub app_id: Option<ShortStr>,
    pub cluster_id: Option<ShortStr>,
}

impl View for BasicProperties {
    type V = Seq<Option<ArgModel>>;

    open spec fn view(&self) -> Seq<Option<ArgModel>> {
        Seq::new(14, |i: int| self.field_model(i))
    }
}

impl BasicProperties {
    /// The field at position `i`, bit 15 first.
    pub open spec fn field_model(&self, i: int) -> Option<ArgModel> {
        if i == 0 { opt_short_str(&self.content_type) } else { if i == 1 { opt_short_str(&self.content_encoding) } else { if i == 2 { opt_table(&self.headers) } else { if i == 3 { opt_octet(&self.delivery_mode) } else { if i == 4 { opt_octet(&self.priority) } else { if i == 5 { opt_short_str(&self.correlation_id) } else { if i == 6 { opt_short_str(&self.reply_to) } else { if i == 7 { opt_short_str(&self.expiration) } else { if i == 8 { opt_short_str(&self.message_id) } else { if i == 9 { opt_long_long(&self.timestamp) } else { if i == 10 { opt_short_str(&self.basic_type) } else { if i == 11 { opt_short_str(&self.user_id) } else { if i == 12 { opt_short_str(&self.app_id) } else { if i == 13 { opt_short_str(&self.cluster_id) } else { None } } } } } } } } } } } } } }
    }

    /// The flag word: one bit for each present field.
    pub open spec fn spec_flags(&self) -> u32 {
        (self.spec_flags_high() + self.spec_flags_low()) as u32
    }

    pub open spec fn spec_flags_high(&self) -> int {
        flag_of(self.content_type is Some, FLAG_CONTENT_TYPE) + flag_of(self.content_encoding is Some, FLAG_CONTENT_ENCODING) + flag_of(self.headers is Some, FLAG_HEADERS) + flag_of(self.delivery_mode is Some, FLAG_DELIVERY_MODE) + flag_of(self.priority is Some, FLAG_PRIORITY) + flag_of(self.correlation_id is Some, FLAG_CORRELATION_ID) + flag_of(self.reply_to is Some, FLAG_REPLY_TO)
    }

    pub open spec fn spec_flags_low(&self) -> int {
        flag_of(self.expiration is Some, FLAG_EXPIRATION) + flag_of(self.message_id is Some, FLAG_MESSAGE_ID) + flag_of(self.timestamp is Some, FLAG_TIMESTAMP) + flag_of(self.basic_type is Some, FLAG_BASIC_TYPE) + flag_of(self.user_id is Some, FLAG_USER_ID) + flag_of(self.app_id is Some, FLAG_APP_ID) + flag_of(self.cluster_id is Some, FLAG_CLUSTER_ID)
    }

    pub open spec fn encodable(&self) -> bool {
        self.headers matches Some(t) ==> value_fits(FieldValueModel::FieldTable(t@))
    }

    /// No property set.
    pub fn new() -> (r: BasicProperties)
        ensures
            forall|i: int| 0 <= i < r@.len() ==> r@[i] is None,
            r@.len() == 14,
    {
        BasicProperties { content_type: None, content_encoding: None, headers: None, delivery_mode: None, priority: None, correlation_id: None, reply_to: None, expiration: None, message_id: None, timestamp: None, basic_type: None, user_id: None, app_id: None, cluster_id: None }
    }

    pub fn flags(&self) -> (r: u32)
        ensures
            r == self.spec_flags(),
    {
        self.flags_high() + self.flags_low()
    }

    fn flags_high(&self) -> (r: u32)
        ensures
            r == self.spec_flags_high(),
            r <= 0xfe00,
    {
        let f0 = flag_if(self.content_type.is_some(), FLAG_CONTENT_TYPE);
        let f1 = f0 + flag_if(self.content_encoding.is_some(), FLAG_CONTENT_ENCODING);
        let f2 = f1 + flag_if(self.headers.is_some(), FLAG_HEADERS);
        let f3 = f2 + flag_if(self.delivery_mode.is_some(), FLAG_DELIVERY_MODE);
        let f4 = f3 + flag_if(self.priority.is_some(), FLAG_PRIORITY);
        let f5 = f4 + flag_if(self.correlation_id.is_some(), FLAG_CORRELATION_ID);
        let f6 = f5 + flag_if(self.reply_to.is_some(), FLAG_REPLY_TO);
        f6
    }

    fn flags_low(&self) -> (r: u32)
        ensures
            r == self.spec_flags_low(),
            r <= 0x1fc,
    {
        let f0 = flag_if(self.expiration.is_some(), FLAG_EXPIRATION);
        let f1 = f0 + flag_if(self.message_id.is_some(), FLAG_MESSAGE_ID);
        let f2 = f1 + flag_if(self.timestamp.is_some(), FLAG_TIMESTAMP);
        let f3 = f2 + flag_if(self.basic_type.is_some(), FLAG_BASIC_TYPE);
        let f4 = f3 + flag_if(self.user_id.is_some(), FLAG_USER_ID);
        let f5 = f4 + flag_if(self.app_id.is_some(), FLAG_APP_ID);
        let f6 = f5 + flag_if(self.cluster_id.is_some(), FLAG_CLUSTER_ID);
        f6
    }

    pub fn set_content_type(&mut self, value: ShortStr)
        ensures
            opt_short_str(&final(self).content_type) == Some(ArgModel::ShortStr(value@)),
            final(self).content_encoding == old(self).content_encoding,
            final(self).headers == old(self).headers,
            final(self).delivery_mode == old(self).delivery_mode,
            final(self).priority == old(self).priority,
            final(self).correlation_id == old(self).correlation_id,
            final(self).reply_to == old(self).reply_to,
            final(self).expiration == old(self).expiration,
            final(self).message_id == old(self).message_id,
            final(self).timestamp == old(self).timestamp,
            final(self).basic_type == old(self).basic_type,
            final(self).user_id == old(self).user_id,
            final(self).app_id == old(self).app_id,
            final(self).cluster_id == old(self).cluster_id,
    {
        self.content_type = Some(value);
    }

    pub fn set_content_encoding(&mut self, value: ShortStr)
        ensures
            opt_short_str(&final(self).content_encoding) == Some(ArgModel::ShortStr(value@)),
            final(self).content_type == old(self).content_type,
            final(self).headers == old(self).headers,
            final(self).delivery_mode == old(self).delivery_mode,
            final(self).priority == old(self).priority,
            final(self).correlation_id == old(self).correlation_id,
            final(self).reply_to == old(self).reply_to,
            final(self).expiration == old(self).expiration,
            final(self).message_id == old(self).message_id,
            final(self).timestamp == old(self).timestamp,
            final(self).basic_type == old(self).basic_type,
            final(self).user_id == old(self).user_id,
            final(self).app_id == old(self).app_id,
            final(self).cluster_id == old(self).cluster_id,
    {
        self.content_encoding = Some(value);
    }

    pub fn set_headers(&mut self, value: FieldTable)
        ensures
            opt_table(&final(self).headers) == Some(ArgModel::Table(value@)),
            final(self).content_type == old(self).content_type,
            final(self).content_encoding == old(self).content_encoding,
            final(self).delivery_mode == old(self).delivery_mode,
            final(self).priority == old(self).priority,
            final(self).correlation_id == old(self).correlation_id,
            final(self).reply_to == old(self).reply_to,
            final(self).expiration == old(self).expiration,
            final(self).message_id == old(self).message_id,
            final(self).timestamp == old(self).timestamp,
            final(self).basic_type == old(self).basic_type,
            final(self).user_id == old(self).user_id,
            final(self).app_id == old(self).app_id,
            final(self).cluster_id == old(self).cluster_id,
    {
        self.headers = Some(value);
    }

    pub fn set_delivery_mode(&mut self, value: u8)
        ensures
            opt_octet(&final(self).delivery_mode) == Some(ArgModel::Octet(value)),
            final(self).content_type == old(self).content_type,
            final(self).content_encoding == old(self).content_encoding,
            final(self).headers == old(self).headers,
            final(self).priority == old(self).priority,
            final(self).correlation_id == old(self).correlation_id,
            final(self).reply_to == old(self).reply_to,
            final(self).expiration == old(self).expiration,
            final(self).message_id == old(self).message_id,
            final(self).timestamp == old(self).timestamp,
            final(self).basic_type == old(self).basic_type,
            final(self).user_id == old(self).user_id,
            final(self).app_id == old(self).app_id,
            final(self).cluster_id == old(self).cluster_id,
    {
        self.delivery_mode = Some(value);
    }

    pub fn set_priority(&mut self, value: u8)
        ensures
            opt_octet(&final(self).priority) == Some(ArgModel::Octet(value)),
            final(self).content_type == old(self).content_type,
            final(self).content_encoding == old(self).content_encoding,
            final(self).headers == old(self).headers,
            final(self).delivery_mode == old(self).delivery_mode,
            final(self).correlation_id == old(self).correlation_id,
            final(self).reply_to == old(self).reply_to,
            final(self).expiration == old(self).expiration,
            final(self).message_id == old(self).message_id,
            final(self).timestamp == old(self).timestamp,
            final(self).basic_type == old(self).basic_type,
            final(self).user_id == old(self).user_id,
            final(self).app_id == old(self).app_id,
            final(self).cluster_id == old(self).cluster_id,
    {
        self.priority = Some(value);
    }

    pub fn set_correlation_id(&mut self, value: ShortStr)
        ensures
            opt_short_str(&final(self).correlation_id) == Some(ArgModel::ShortStr(value@)),
            final(self).content_type == old(self).content_type,
            final(self).content_encoding == old(self).content_encoding,
            final(self).headers == old(self).headers,
            final(self).delivery_mode == old(self).delivery_mode,
            final(self).priority == old(self).priority,
            final(self).reply_to == old(self).reply_to,
            final(self).expiration == old(self).expiration,
            final(self).message_id == old(self).message_id,
            final(self).timestamp == old(self).timestamp,
            final(self).basic_type == old(self).basic_type,
            final(self).user_id == old(self).user_id,
            final(self).app_id == old(self).app_id,
            final(self).cluster_id == old(self).cluster_id,
    {
        self.correlation_id = Some(value);
    }

    pub fn set_reply_to(&mut self, value: ShortStr)
        ensures
            opt_short_str(&final(self).reply_to) == Some(ArgModel::ShortStr(value@)),
            final(self).content_type == old(self).content_type,
            final(self).content_encoding == old(self).content_encoding,
            final(self).headers == old(self).headers,
            final(self).delivery_mode == old(self).delivery_mode,
            final(self).priority == old(self).priority,
            final(self).correlation_id == old(self).correlation_id,
            final(self).expiration == old(self).expiration,
            final(self).message_id == old(self).message_id,
            final(self).timestamp == old(self).timestamp,
            final(self).basic_type == old(self).basic_type,
            final(self).user_id == old(self).user_id,
            final(self).app_id == old(self).app_id,
            final(self).cluster_id == old(self).cluster_id,
    {
        self.reply_to = Some(value);
    }

    pub fn set_expiration(&mut self, value: ShortStr)
        ensures
            opt_short_str(&final(self).expiration) == Some(ArgModel::ShortStr(value@)),
            final(self).content_type == old(self).content_type,
            final(self).content_encoding == old(self).content_encoding,
            final(self).headers == old(self).headers,
            final(self).delivery_mode == old(self).delivery_mode,
            final(self).priority == old(self).priority,
            final(self).correlation_id == old(self).correlation_id,
            final(self).reply_to == old(self).reply_to,
            final(self).message_id == old(self).message_id,
            final(self).timestamp == old(self).timestamp,
            final(self).basic_type == old(self).basic_type,
            final(self).user_id == old(self).user_id,
            final(self).app_id == old(self).app_id,
            final(self).cluster_id == old(self).cluster_id,
    {
        self.expiration = Some(value);
    }

    pub fn set_message_id(&mut self, value: ShortStr)
        ensures
            opt_short_str(&final(self).message_id) == Some(ArgModel::ShortStr(value@)),
            final(self).content_type == old(self).content_type,
            final(self).content_encoding == old(self).content_encoding,
            final(self).headers == old(self).headers,
            final(self).delivery_mode == old(self).delivery_mode,
            final(self).priority == old(self).priority,
            final(self).correlation_id == old(self).correlation_id,
            final(self).reply_to == old(self).reply_to,
            final(self).expiration == old(self).expiration,
            final(self).timestamp == old(self).timestamp,
            final(self).basic_type == old(self).basic_type,
            final(self).user_id == old(self).user_id,
            final(self).app_id == old(self).app_id,
            final(self).cluster_id == old(self).cluster_id,
    {
        self.message_id = Some(value);
    }

    pub fn set_timestamp(&mut self, value: u64)
        ensures
            opt_long_long(&final(self).timestamp) == Some(ArgModel::LongLong(value)),
            final(self).content_type == old(self).content_type,
            final(self).content_encoding == old(self).content_encoding,
            final(self).headers == old(self).headers,
            final(self).delivery_mode == old(self).delivery_mode,
            final(self).priority == old(self).priority,
            final(self).correlation_id == old(self).correlation_id,
            final(self).reply_to == old(self).reply_to,
            final(self).expiration == old(self).expiration,
            final(self).message_id == old(self).message_id,
            final(self).basic_type == old(self).basic_type,
            final(self).user_id == old(self).user_id,
            final(self).app_id == old(self).app_id,
            final(self).cluster_id == old(self).cluster_id,
    {
        self.timestamp = Some(value);
    }

    pub fn set_basic_type(&mut self, value: ShortStr)
        ensures
            opt_short_str(&final(self).basic_type) == Some(ArgModel::ShortStr(value@)),
            final(self).content_type == old(self).content_type,
            final(self).content_encoding == old(self).content_encoding,
            final(self).headers == old(self).headers,
            final(self).delivery_mode == old(self).delivery_mode,
            final(self).priority == old(self).priority,
            final(self).correlation_id == old(self).correlation_id,
            final(self).reply_to == old(self).reply_to,
            final(self).expiration == old(self).expiration,
            final(self).message_id == old(self).message_id,
            final(self).timestamp == old(self).timestamp,
            final(self).user_id == old(self).user_id,
            final(self).app_id == old(self).app_id,
            final(self).cluster_id == old(self).cluster_id,
    {
        self.basic_type = Some(value);
    }

    pub fn set_user_id(&mut self, value: ShortStr)
        ensures
            opt_short_str(&final(self).user_id) == Some(ArgModel::ShortStr(value@)),
            final(self).content_type == old(self).content_type,
            final(self).content_encoding == old(self).content_encoding,
            final(self).headers == old(self).headers,
            final(self).delivery_mode == old(self).delivery_mode,
            final(self).priority == old(self).priority,
            final(self).correlation_id == old(self).correlation_id,
            final(self).reply_to == old(self).reply_to,
            final(self).expiration == old(self).expiration,
            final(self).message_id == old(self).message_id,
            final(self).timestamp == old(self).timestamp,
            final(self).basic_type == old(self).basic_type,
            final(self).app_id == old(self).app_id,
            final(self).cluster_id == old(self).cluster_id,
    {
        self.user_id = Some(value);
    }

    pub fn set_app_id(&mut self, value: ShortStr)
        ensures
            opt_short_str(&final(self).app_id) == Some(ArgModel::ShortStr(value@)),
            final(self).content_type == old(self).content_type,
            final(self).content_encoding == old(self).content_encoding,
            final(self).headers == old(self).headers,
            final(self).delivery_mode == old(self).delivery_mode,
            final(self).priority == old(self).priority,
            final(self).correlation_id == old(self).correlation_id,
            final(self).reply_to == old(self).reply_to,
            final(self).expiration == old(self).expiration,
            final(self).message_id == old(self).message_id,
            final(self).timestamp == old(self).timestamp,
            final(self).basic_type == old(self).basic_type,
            final(self).user_id == old(self).user_id,
            final(self).cluster_id == old(self).cluster_id,
    {
        self.app_id = Some(value);
    }

    pub fn set_cluster_id(&mut self, value: ShortStr)
        ensures
            opt_short_str(&final(self).cluster_id) == Some(ArgModel::ShortStr(value@)),
            final(self).content_type == old(self).content_type,
            final(self).content_encoding == old(self).content_encoding,
            final(self).headers == old(self).headers,
            final(self).delivery_mode == old(self).delivery_mode,
            final(self).priority == old(self).priority,
            final(self).correlation_id == old(self).correlation_id,
            final(self).reply_to == old(self).reply_to,
            final(self).expiration == old(self).expiration,
            final(self).message_id == old(self).message_id,
            final(self).timestamp == old(self).timestamp,
            final(self).basic_type == old(self).basic_type,
            final(self).user_id == old(self).user_id,
            final(self).app_id == old(self).app_id,
    {
        self.cluster_id = Some(value);
    }

    /// Writes the flag word, then each present field from bit 15 down.
    #[verifier::spinoff_prover]
    #[verifier::rlimit(100)]
    pub fn encode(&self, out: &mut Vec<u8>)
        requires
            self.encodable(),
        ensures
            final(out)@ == old(out)@ + be32(self.spec_flags()) + enc_opt_args(self@),
    {
        let ghost v = self@;
        put_u32(out, self.flags());
        let ghost start = out@;
        assert(v.take(0) =~= Seq::<Option<ArgModel>>::empty());
        assert(enc_opt_args(v.take(0)) =~= Seq::<u8>::empty());
        encode_opt_short_str(&self.content_type, out);
        proof {
            lemma_enc_opt_args_push(v.take(0), v[0]);
            assert(v.take(1) =~= v.take(0).push(v[0]));
            assert(out@ =~= start + enc_opt_args(v.take(1)));
        }
        encode_opt_short_str(&self.content_encoding, out);
        proof {
            lemma_enc_opt_args_push(v.take(1), v[1]);
            assert(v.take(2) =~= v.take(1).push(v[1]));
            assert(out@ =~= start + enc_opt_args(v.take(2)));
        }
        encode_opt_table(&self.headers, out);
        proof {
            lemma_enc_opt_args_push(v.take(2), v[2]);
            assert(v.take(3) =~= v.take(2).push(v[2]));
            assert(out@ =~= start + enc_opt_args(v.take(3)));
        }
        encode_opt_octet(&self.delivery_mode, out);
        proof {
            lemma_enc_opt_args_push(v.take(3), v[3]);
            assert(v.take(4) =~= v.take(3).push(v[3]));
            assert(out@ =~= start + enc_opt_args(v.take(4)));
        }
        encode_opt_octet(&self.priority, out);
        proof {
            lemma_enc_opt_args_push(v.take(4), v[4]);
            assert(v.take(5) =~= v.take(4).push(v[4]));
            assert(out@ =~= start + enc_opt_args(v.take(5)));
        }
        encode_opt_short_str(&self.correlation_id, out);
        proof {
            lemma_enc_opt_args_push(v.take(5), v[5]);
            assert(v.take(6) =~= v.take(5).push(v[5]));
            assert(out@ =~= start + enc_opt_args(v.take(6)));
        }
        encode_opt_short_str(&self.reply_to, out);
        proof {
            lemma_enc_opt_args_push(v.take(6), v[6]);
            assert(v.take(7) =~= v.take(6).push(v[6]));
            assert(out@ =~= start + enc_opt_args(v.take(7)));
        }
        encode_opt_short_str(&self.expiration, out);
        proof {
            lemma_enc_opt_args_push(v.take(7), v[7]);
            assert(v.take(8) =~= v.take(7).push(v[7]));
            assert(out@ =~= start + enc_opt_args(v.take(8)));
        }
        encode_opt_short_str(&self.message_id, out);
        proof {
            lemma_enc_opt_args_push(v.take(8), v[8]);
            assert(v.take(9) =~= v.take(8).push(v[8]));
            assert(out@ =~= start + enc_opt_args(v.take(9)));
        }
        encode_opt_long_long(&self.timestamp, out);
        proof {
            lemma_enc_opt_args_push(v.take(9), v[9]);
            assert(v.take(10) =~= v.take(9).push(v[9]));
            assert(out@ =~= start + enc_opt_args(v.take(10)));
        }
        encode_opt_short_str(&self.basic_type, out);
        proof {
            lemma_enc_opt_args_push(v.take(10), v[10]);
            assert(v.take(11) =~= v.take(10).push(v[10]));
            assert(out@ =~= start + enc_opt_args(v.take(11)));
        }
        encode_opt_short_str(&self.user_id, out);
        proof {
            lemma_enc_opt_args_push(v.take(11), v[11]);
            assert(v.take(12) =~= v.take(11).push(v[11]));
            assert(out@ =~= start + enc_opt_args(v.take(12)));
        }
        encode_opt_short_str(&self.app_id, out);
        proof {
            lemma_enc_opt_args_push(v.take(12), v[12]);
            assert(v.take(13) =~= v.take(12).push(v[12]));
            assert(out@ =~= start + enc_opt_args(v.take(13)));
        }
        encode_opt_short_str(&self.cluster_id, out);
        proof {
            lemma_enc_opt_args_push(v.take(13), v[13]);
            assert(v.take(14) =~= v.take(13).push(v[13]));
            assert(out@ =~= start + enc_opt_args(v.take(14)));
        }
        assert(v.take(14) =~= v);
        assert(out@ =~= old(out)@ + be32(self.spec_flags()) + enc_opt_args(self@));
    }

    /// Reads the flag word, then each field that it selects.
    pub fn decode(buf: &[u8]) -> (r: Result<(&[u8], BasicProperties), FrameDecodeErr>)
        ensures
            agrees(buf@, r, parse_basic_properties(buf@)),
    {
        let (r0, flags) = match decode_u32(buf) {
            Ok(v) => v,
            Err(e) => return Err(e),
        };
        let ghost lay = basic_property_kinds();
        let ghost pres = basic_property_present(flags);
        proof {
            lemma_prepend_opt_start(parse_opt_args(lay, pres, r0@));
            assert(lay.skip(0) =~= lay);
            assert(pres.skip(0) =~= pres);
            assert(r0@ =~= r0@.skip(0));
        }
        let mut p = BasicProperties::new();
        let r7 = match p.decode_part_high(flags, r0) {
            Ok(v) => v,
            Err(e) => return Err(e),
        };
        let r14 = match p.decode_part_low(flags, r0, r7) {
            Ok(v) => v,
            Err(e) => return Err(e),
        };
        proof {
            let c = (r0@.len() - r14@.len()) as nat;
            assert(lay.skip(14) =~= Seq::<ArgKind>::empty());
            assert(p@ =~= p@.take(14));
            lemma_skip_skip(buf@, 4, c as int);
            lemma_prepend_opt_shift(parse_opt_args(lay, pres, r0@), 4);
        }
        Ok((r14, p))
    }

    #[verifier::spinoff_prover]
    #[verifier::rlimit(100)]
    fn decode_part_high<'a>(&mut self, flags: u32, r0: &'a [u8]) -> (res: Result<&'a [u8], FrameDecodeErr>)
        requires
            parse_opt_args(basic_property_kinds(), basic_property_present(flags), r0@) == prepend_opt(parse_opt_args(basic_property_kinds(), basic_property_present(flags), r0@), 0, Seq::<Option<ArgModel>>::empty()),
        ensures
            match res {
                Ok(rest) => rest@.len() <= r0@.len() && rest@ == r0@.skip(r0@.len() - rest@.len()) && parse_opt_args(basic_property_kinds(), basic_property_present(flags), r0@) == prepend_opt(parse_opt_args(basic_property_kinds().skip(7), basic_property_present(flags).skip(7), rest@), (r0@.len() - rest@.len()) as nat, final(self)@.take(7)),
                Err(e) => parse_opt_args(basic_property_kinds(), basic_property_present(flags), r0@) == Err::<(nat, Seq<Option<ArgModel>>), FrameDecodeErr>(e),
            },
    {
        let ghost lay = basic_property_kinds();
        let ghost pres = basic_property_present(flags);
        let ghost c0 = (r0@.len() - r0@.len()) as nat;
        let ghost d0 = Seq::<Option<ArgModel>>::empty();
        proof { assert(lay.skip(0) =~= lay); assert(pres.skip(0) =~= pres); assert(r0@ =~= r0@.skip(0)); }
        proof {
            assert(lay.skip(0)[0] == lay[0]);
            assert(pres.skip(0)[0] == pres[0]);
        }
        let (r1, v0) = match decode_opt_short_str(flags & FLAG_CONTENT_TYPE != 0, r0) {
            Ok(v) => v,
            Err(e) => {
                proof {
                    lemma_opt_args_step(lay.skip(0), pres.skip(0), r0@, c0, d0);
                }
                return Err(e);
            },
        };
        let ghost c1 = (c0 + (r0@.len() - r1@.len())) as nat;
        let ghost d1 = d0.push(opt_short_str(&v0));
        proof {
            lemma_opt_args_step(lay.skip(0), pres.skip(0), r0@, c0, d0);
            lemma_skip_skip(r0@, c0 as int, r0@.len() - r1@.len());
            assert(lay.skip(0).skip(1) =~= lay.skip(1));
            assert(pres.skip(0).skip(1) =~= pres.skip(1));
        }
        proof {
            assert(lay.skip(1)[0] == lay[1]);
            assert(pres.skip(1)[0] == pres[1]);
        }
        let (r2, v1) = match decode_opt_short_str(flags & FLAG_CONTENT_ENCODING != 0, r1) {
            Ok(v) => v,
            Err(e) => {
                proof {
                    lemma_opt_args_step(lay.skip(1), pres.skip(1), r1@, c1, d1);
                }
                return Err(e);
            },
        };
        let ghost c2 = (c1 + (r1@.len() - r2@.len())) as nat;
        let ghost d2 = d1.push(opt_short_str(&v1));
        proof {
            lemma_opt_args_step(lay.skip(1), pres.skip(1), r1@, c1, d1);
            lemma_skip_skip(r0@, c1 as int, r1@.len() - r2@.len());
            assert(lay.skip(1).skip(1) =~= lay.skip(2));
            assert(pres.skip(1).skip(1) =~= pres.skip(2));
        }
        proof {
            assert(lay.skip(2)[0] == lay[2]);
            assert(pres.skip(2)[0] == pres[2]);
        }
        let (r3, v2) = match decode_opt_table(flags & FLAG_HEADERS != 0, r2) {
            Ok(v) => v,
            Err(e) => {
                proof {
                    lemma_opt_args_step(lay.skip(2), pres.skip(2), r2@, c2, d2);
                }
                return Err(e);
            },
        };
        let ghost c3 = (c2 + (r2@.len() - r3@.len())) as nat;
        let ghost d3 = d2.push(opt_table(&v2));
        proof {
            lemma_opt_args_step(lay.skip(2), pres.skip(2), r2@, c2, d2);
            lemma_skip_skip(r0@, c2 as int, r2@.len() - r3@.len());
            assert(lay.skip(2).skip(1) =~= lay.skip(3));
            assert(pres.skip(2).skip(1) =~= pres.skip(3));
        }
        proof {
            assert(lay.skip(3)[0] == lay[3]);
            assert(pres.skip(3)[0] == pres[3]);
        }
        let (r4, v3) = match decode_opt_octet(flags & FLAG_DELIVERY_MODE != 0, r3) {
            Ok(v) => v,
            Err(e) => {
                proof {
                    lemma_opt_args_step(lay.skip(3), pres.skip(3), r3@, c3, d3);
                }
                return Err(e);
            },
        };
        let ghost c4 = (c3 + (r3@.len() - r4@.len())) as nat;
        let ghost d4 = d3.push(opt_octet(&v3));
        proof {
            lemma_opt_args_step(lay.skip(3), pres.skip(3), r3@, c3, d3);
            lemma_skip_skip(r0@, c3 as int, r3@.len() - r4@.len());
            assert(lay.skip(3).skip(1) =~= lay.skip(4));
            assert(pres.skip(3).skip(1) =~= pres.skip(4));
        }
        proof {
            assert(lay.skip(4)[0] == lay[4]);
            assert(pres.skip(4)[0] == pres[4]);
        }
        let (r5, v4) = match decode_opt_octet(flags & FLAG_PRIORITY != 0, r4) {
            Ok(v) => v,
            Err(e) => {
                proof {
                    lemma_opt_args_step(lay.skip(4), pres.skip(4), r4@, c4, d4);
                }
                return Err(e);
            },
        };
        let ghost c5 = (c4 + (r4@.len() - r5@.len())) as nat;
        let ghost d5 = d4.push(opt_octet(&v4));
        proof {
            lemma_opt_args_step(lay.skip(4), pres.skip(4), r4@, c4, d4);
            lemma_skip_skip(r0@, c4 as int, r4@.len() - r5@.len());
            assert(lay.skip(4).skip(1) =~= lay.skip(5));
            assert(pres.skip(4).skip(1) =~= pres.skip(5));
        }
        proof {
            assert(lay.skip(5)[0] == lay[5]);
            assert(pres.skip(5)[0] == pres[5]);
        }
        let (r6, v5) = match decode_opt_short_str(flags & FLAG_CORRELATION_ID != 0, r5) {
            Ok(v) => v,
            Err(e) => {
                proof {
                    lemma_opt_args_step(lay.skip(5), pres.skip(5), r5@, c5, d5);
                }
                return Err(e);
            },
        };
        let ghost c6 = (c5 + (r5@.len() - r6@.len())) as nat;
        let ghost d6 = d5.push(opt_short_str(&v5));
        proof {
            lemma_opt_args_step(lay.skip(5), pres.skip(5), r5@, c5, d5);
            lemma_skip_skip(r0@, c5 as int, r5@.len() - r6@.len());
            assert(lay.skip(5).skip(1) =~= lay.skip(6));
            assert(pres.skip(5).skip(1) =~= pres.skip(6));
        }
        proof {
            assert(lay.skip(6)[0] == lay[6]);
            assert(pres.skip(6)[0] == pres[6]);
        }
        let (r7, v6) = match decode_opt_short_str(flags & FLAG_REPLY_TO != 0, r6) {
            Ok(v) => v,
            Err(e) => {
                proof {
                    lemma_opt_args_step(lay.skip(6), pres.skip(6), r6@, c6, d6);
                }
                return Err(e);
            },
        };
        let ghost c7 = (c6 + (r6@.len() - r7@.len())) as nat;
        let ghost d7 = d6.push(opt_short_str(&v6));
        proof {
            lemma_opt_args_step(lay.skip(6), pres.skip(6), r6@, c6, d6);
            lemma_skip_skip(r0@, c6 as int, r6@.len() - r7@.len());
            assert(lay.skip(6).skip(1) =~= lay.skip(7));
            assert(pres.skip(6).skip(1) =~= pres.skip(7));
        }
        self.content_type = v0;
        self.content_encoding = v1;
        self.headers = v2;
        self.delivery_mode = v3;
        self.priority = v4;
        self.correlation_id = v5;
        self.reply_to = v6;
        proof {
            assert(self@.take(7) =~= d7);
        }
        Ok(r7)
    }

    #[verifier::spinoff_prover]
    #[verifier::rlimit(100)]
    fn decode_part_low<'a>(&mut self, flags: u32, r0: &[u8], r7: &'a [u8]) -> (res: Result<&'a [u8], FrameDecodeErr>)
        requires
            r7@.len() <= r0@.len(),
            r7@ == r0@.skip(r0@.len() - r7@.len()),
            parse_opt_args(basic_property_kinds(), basic_property_present(flags), r0@) == prepend_opt(parse_opt_args(basic_property_kinds().skip(7), basic_property_present(flags).skip(7), r7@), (r0@.len() - r7@.len()) as nat, old(self)@.take(7)),
        ensures
            match res {
                Ok(rest) => rest@.len() <= r0@.len() && rest@ == r0@.skip(r0@.len() - rest@.len()) && parse_opt_args(basic_property_kinds(), basic_property_present(flags), r0@) == prepend_opt(parse_opt_args(basic_property_kinds().skip(14), basic_property_present(flags).skip(14), rest@), (r0@.len() - rest@.len()) as nat, final(self)@.take(14)),
                Err(e) => parse_opt_args(basic_property_kinds(), basic_property_present(flags), r0@) == Err::<(nat, Seq<Option<ArgModel>>), FrameDecodeErr>(e),
            },
            final(self).content_type == old(self).content_type,
            final(self).content_encoding == old(self).content_encoding,
            final(self).headers == old(self).headers,
            final(self).delivery_mode == old(self).delivery_mode,
            final(self).priority == old(self).priority,
            final(self).correlation_id == old(self).correlation_id,
            final(self).reply_to == old(self).reply_to,
    {
        let ghost lay = basic_property_kinds();
        let ghost pres = basic_property_present(flags);
        let ghost c7 = (r0@.len() - r7@.len()) as nat;
        let ghost d7 = old(self)@.take(7);
        proof {
            assert(lay.skip(7)[0] == lay[7]);
            assert(pres.skip(7)[0] == pres[7]);
        }
        let (r8, v7) = match decode_opt_short_str(flags & FLAG_EXPIRATION != 0, r7) {
            Ok(v) => v,
            Err(e) => {
                proof {
                    lemma_opt_args_step(lay.skip(7), pres.skip(7), r7@, c7, d7);
                }
                return Err(e);
            },
        };
        let ghost c8 = (c7 + (r7@.len() - r8@.len())) as nat;
        let ghost d8 = d7.push(opt_short_str(&v7));
        proof {
            lemma_opt_args_step(lay.skip(7), pres.skip(7), r7@, c7, d7);
            lemma_skip_skip(r0@, c7 as int, r7@.len() - r8@.len());
            assert(lay.skip(7).skip(1) =~= lay.skip(8));
            assert(pres.skip(7).skip(1) =~= pres.skip(8));
        }
        proof {
            assert(lay.skip(8)[0] == lay[8]);
            assert(pres.skip(8)[0] == pres[8]);
        }
        let (r9, v8) = match decode_opt_short_str(flags & FLAG_MESSAGE_ID != 0, r8) {
            Ok(v) => v,
            Err(e) => {
                proof {
                    lemma_opt_args_step(lay.skip(8), pres.skip(8), r8@, c8, d8);
                }
                return Err(e);
            },
        };
        let ghost c9 = (c8 + (r8@.len() - r9@.len())) as nat;
        let ghost d9 = d8.push(opt_short_str(&v8));
        proof {
            lemma_opt_args_step(lay.skip(8), pres.skip(8), r8@, c8, d8);
            lemma_skip_skip(r0@, c8 as int, r8@.len() - r9@.len());
            assert(lay.skip(8).skip(1) =~= lay.skip(9));
            assert(pres.skip(8).skip(1) =~= pres.skip(9));
        }
        proof {
            assert(lay.skip(9)[0] == lay[9]);
            assert(pres.skip(9)[0] == pres[9]);
        }
        let (r10, v9) = match decode_opt_long_long(flags & FLAG_TIMESTAMP != 0, r9) {
            Ok(v) => v,
            Err(e) => {
                proof {
                    lemma_opt_args_step(lay.skip(9), pres.skip(9), r9@, c9, d9);
                }
                return Err(e);
            },
        };
        let ghost c10 = (c9 + (r9@.len() - r10@.len())) as nat;
        let ghost d10 = d9.push(opt_long_long(&v9));
        proof {
            lemma_opt_args_step(lay.skip(9), pres.skip(9), r9@, c9, d9);
            lemma_skip_skip(r0@, c9 as int, r9@.len() - r10@.len());
            assert(lay.skip(9).skip(1) =~= lay.skip(10));
            assert(pres.skip(9).skip(1) =~= pres.skip(10));
        }
        proof {
            assert(lay.skip(10)[0] == lay[10]);
            assert(pres.skip(10)[0] == pres[10]);
        }
        let (r11, v10) = match decode_opt_short_str(flags & FLAG_BASIC_TYPE != 0, r10) {
            Ok(v) => v,
            Err(e) => {
                proof {
                    lemma_opt_args_step(lay.skip(10), pres.skip(10), r10@, c10, d10);
                }
                return Err(e);
            },
        };
        let ghost c11 = (c10 + (r10@.len() - r11@.len())) as nat;
        let ghost d11 = d10.push(opt_short_str(&v10));
        proof {
            lemma_opt_args_step(lay.skip(10), pres.skip(10), r10@, c10, d10);
            lemma_skip_skip(r0@, c10 as int, r10@.len() - r11@.len());
            assert(lay.skip(10).skip(1) =~= lay.skip(11));
            assert(pres.skip(10).skip(1) =~= pres.skip(11));
        }
        proof {
            assert(lay.skip(11)[0] == lay[11]);
            assert(pres.skip(11)[0] == pres[11]);
        }
        let (r12, v11) = match decode_opt_short_str(flags & FLAG_USER_ID != 0, r11) {
            Ok(v) => v,
            Err(e) => {
                proof {
                    lemma_opt_args_step(lay.skip(11), pres.skip(11), r11@, c11, d11);
                }
                return Err(e);
            },
        };
        let ghost c12 = (c11 + (r11@.len() - r12@.len())) as nat;
        let ghost d12 = d11.push(opt_short_str(&v11));
        proof {
            lemma_opt_args_step(lay.skip(11), pres.skip(11), r11@, c11, d11);
            lemma_skip_skip(r0@, c11 as int, r11@.len() - r12@.len());
            assert(lay.skip(11).skip(1) =~= lay.skip(12));
            assert(pres.skip(11).skip(1) =~= pres.skip(12));
        }
        proof {
            assert(lay.skip(12)[0] == lay[12]);
            assert(pres.skip(12)[0] == pres[12]);
        }
        let (r13, v12) = match decode_opt_short_str(flags & FLAG_APP_ID != 0, r12) {
            Ok(v) => v,
            Err(e) => {
                proof {
                    lemma_opt_args_step(lay.skip(12), pres.skip(12), r12@, c12, d12);
                }
                return Err(e);
            },
        };
        let ghost c13 = (c12 + (r12@.len() - r13@.len())) as nat;
        let ghost d13 = d12.push(opt_short_str(&v12));
        proof {
            lemma_opt_args_step(lay.skip(12), pres.skip(12), r12@, c12, d12);
            lemma_skip_skip(r0@, c12 as int, r12@.len() - r13@.len());
            assert(lay.skip(12).skip(1) =~= lay.skip(13));
            assert(pres.skip(12).skip(1) =~= pres.skip(13));
        }
        proof {
            assert(lay.skip(13)[0] == lay[13]);
            assert(pres.skip(13)[0] == pres[13]);
        }
        let (r14, v13) = match decode_opt_short_str(flags & FLAG_CLUSTER_ID != 0, r13) {
            Ok(v) => v,
            Err(e) => {
                proof {
                    lemma_opt_args_step(lay.skip(13), pres.skip(13), r13@, c13, d13);
                }
                return Err(e);
            },
        };
        let ghost c14 = (c13 + (r13@.len() - r14@.len())) as nat;
        let ghost d14 = d13.push(opt_short_str(&v13));
        proof {
            lemma_opt_args_step(lay.skip(13), pres.skip(13), r13@, c13, d13);
            lemma_skip_skip(r0@, c13 as int, r13@.len() - r14@.len());
            assert(lay.skip(13).skip(1) =~= lay.skip(14));
            assert(pres.skip(13).skip(1) =~= pres.skip(14));
        }
        self.expiration = v7;
        self.message_id = v8;
        self.timestamp = v9;
        self.basic_type = v10;
        self.user_id = v11;
        self.app_id = v12;
        self.cluster_id = v13;
        proof {
            assert(self@.take(14) =~= d14);
        }
        Ok(r14)
    }

}

/// The properties of class `Connection`: a flag word with no fields behind it.
#[derive(Clone, Copy, Debug, PartialEq, Eq, Structural)]
pub struct ConnectionProperties {
    pub flags: u32,
}

impl ConnectionProperties {
    pub fn encode(&self, out: &mut Vec<u8>)
        ensures
            final(out)@ == old(out)@ + be32(self.flags),
    {
        put_u32(out, self.flags);
    }

    pub fn decode(buf: &[u8]) -> (r: Result<(&[u8], ConnectionProperties), FrameDecodeErr>)
        ensures
            agrees(buf@, r, parse_u32(buf@)),
    {
        match decode_u32(buf) {
            Ok((rest, flags)) => Ok((rest, ConnectionProperties { flags })),
            Err(e) => Err(e),
        }
    }
}

impl View for ConnectionProperties {
    type V = u32;

    open spec fn view(&self) -> u32 {
        self.flags
    }
}

/// The properties of class `Channel`: a flag word with no fields behind it.
#[derive(Clone, Copy, Debug, PartialEq, Eq, Structural)]
pub struct ChannelProperties {
    pub flags: u32,
}

impl ChannelProperties {
    pub fn encode(&self, out: &mut Vec<u8>)
        ensures
            final(out)@ == old(out)@ + be32(self.flags),
    {
        put_u32(out, self.flags);
    }

    pub fn decode(buf: &[u8]) -> (r: Result<(&[u8], ChannelProperties), FrameDecodeErr>)
        ensures
            agrees(buf@, r, parse_u32(buf@)),
    {
        match decode_u32(buf) {
            Ok((rest, flags)) => Ok((rest, ChannelProperties { flags })),
            Err(e) => Err(e),
        }
    }
}

impl View for ChannelProperties {
    type V = u32;

    open spec fn view(&self) -> u32 {
        self.flags
    }
}

/// The properties of class `Access`: a flag word with no fields behind it.
#[derive(Clone, Copy, Debug, PartialEq, Eq, Structural)]
pub struct AccessProperties {
    pub flags: u32,
}

impl AccessProperties {
    pub fn encode(&self, out: &mut Vec<u8>)
        ensures
            final(out)@ == old(out)@ + be32(self.flags),
    {
        put_u32(out, self.flags);
    }

    pub fn decode(buf: &[u8]) -> (r: Result<(&[u8], AccessProperties), FrameDecodeErr>)
        ensures
            agrees(buf@, r, parse_u32(buf@)),
    {
        match decode_u32(buf) {
            Ok((rest, flags)) => Ok((rest, AccessProperties { flags })),
            Err(e) => Err(e),
        }
    }
}

impl View for AccessProperties {
    type V = u32;

    open spec fn view(&self) -> u32 {
        self.flags
    }
}

/// The properties of class `Exchange`: a flag word with no fields behind it.
#[derive(Clone, Copy, Debug, PartialEq, Eq, Structural)]
pub struct ExchangeProperties {
    pub flags: u32,
}

impl ExchangeProperties {
    pub fn encode(&self, out: &mut Vec<u8>)
        ensures
            final(out)@ == old(out)@ + be32(self.flags),
    {
        put_u32(out, self.flags);
    }

    pub fn decode(buf: &[u8]) -> (r: Result<(&[u8], ExchangeProperties), FrameDecodeErr>)
        ensures
            agrees(buf@, r, parse_u32(buf@)),
    {
        match decode_u32(buf) {
            Ok((rest, flags)) => Ok((rest, ExchangeProperties { flags })),
            Err(e) => Err(e),
        }
    }
}

impl View for ExchangeProperties {
    type V = u32;

    open spec fn view(&self) -> u32 {
        self.flags
    }
}

/// The properties of class `Queue`: a flag word with no fields behind it.
#[derive(Clone, Copy, Debug, PartialEq, Eq, Structural)]
pub struct QueueProperties {
    pub flags: u32,
}

impl QueueProperties {
    pub fn encode(&self, out: &mut Vec<u8>)
        ensures
            final(out)@ == old(out)@ + be32(self.flags),
    {
        put_u32(out, self.flags);
    }

    pub fn decode(buf: &[u8]) -> (r: Result<(&[u8], QueueProperties), FrameDecodeErr>)
        ensures
            agrees(buf@, r, parse_u32(buf@)),
    {
        match decode_u32(buf) {
            Ok((rest, flags)) => Ok((rest, QueueProperties { flags })),
            Err(e) => Err(e),
        }
    }
}

impl View for QueueProperties {
    type V = u32;

    open spec fn view(&self) -> u32 {
        self.flags
    }
}

/// The properties of class `Tx`: a flag word with no fields behind it.
#[derive(Clone, Copy, Debug, PartialEq, Eq, Structural)]
pub struct TxProperties {
    pub flags: u32,
}

impl TxProperties {
    pub fn encode(&self, out: &mut Vec<u8>)
        ensures
            final(out)@ == old(out)@ + be32(self.flags),
    {
        put_u32(out, self.flags);
    }

    pub fn decode(buf: &[u8]) -> (r: Result<(&[u8], TxProperties), FrameDecodeErr>)
        ensures
            agrees(buf@, r, parse_u32(buf@)),
    {
        match decode_u32(buf) {
            Ok((rest, flags)) => Ok((rest, TxProperties { flags })),
            Err(e) => Err(e),
        }
    }
}

impl View for TxProperties {
    type V = u32;

    open spec fn view(&self) -> u32 {
        self.flags
    }
}

/// The properties of class `Confirm`: a flag word with no fields behind it.
#[derive(Clone, Copy, Debug, PartialEq, Eq, Structural)]
pub struct ConfirmProperties {
    pub flags: u32,
}

impl ConfirmProperties {
    pub fn encode(&self, out: &mut Vec<u8>)
        ensures
            final(out)@ == old(out)@ + be32(self.flags),
    {
        put_u32(out, self.flags);
    }

    pub fn decode(buf: &[u8]) -> (r: Result<(&[u8], ConfirmProperties), FrameDecodeErr>)
        ensures
            agrees(buf@, r, parse_u32(buf@)),
    {
        match decode_u32(buf) {
            Ok((rest, flags)) => Ok((rest, ConfirmProperties { flags })),
            Err(e) => Err(e),
        }
    }
}

impl View for ConfirmProperties {
    type V = u32;

    open spec fn view(&self) -> u32 {
        self.flags
    }
}

#[verifier::spinoff_prover]
#[verifier::rlimit(100)]
proof fn lemma_flag_bits(p: &BasicProperties)
    ensures
        (p.spec_flags() & FLAG_CONTENT_TYPE != 0) == (p.content_type is Some),
        (p.spec_flags() & FLAG_CONTENT_ENCODING != 0) == (p.content_encoding is Some),
        (p.spec_flags() & FLAG_HEADERS != 0) == (p.headers is Some),
        (p.spec_flags() & FLAG_DELIVERY_MODE != 0) == (p.delivery_mode is Some),
        (p.spec_flags() & FLAG_PRIORITY != 0) == (p.priority is Some),
        (p.spec_flags() & FLAG_CORRELATION_ID != 0) == (p.correlation_id is Some),
        (p.spec_flags() & FLAG_REPLY_TO != 0) == (p.reply_to is Some),
        (p.spec_flags() & FLAG_EXPIRATION != 0) == (p.expiration is Some),
        (p.spec_flags() & FLAG_MESSAGE_ID != 0) == (p.message_id is Some),
        (p.spec_flags() & FLAG_TIMESTAMP != 0) == (p.timestamp is Some),
        (p.spec_flags() & FLAG_BASIC_TYPE != 0) == (p.basic_type is Some),
        (p.spec_flags() & FLAG_USER_ID != 0) == (p.user_id is Some),
        (p.spec_flags() & FLAG_APP_ID != 0) == (p.app_id is Some),
        (p.spec_flags() & FLAG_CLUSTER_ID != 0) == (p.cluster_id is Some),
{
    let x0: u32 = if p.content_type is Some { FLAG_CONTENT_TYPE } else { 0 };
    assert(flag_of(p.content_type is Some, FLAG_CONTENT_TYPE) == x0 as int && x0 <= FLAG_CONTENT_TYPE) by {
        reveal(flag_of);
    }
    let x1: u32 = if p.content_encoding is Some { FLAG_CONTENT_ENCODING } else { 0 };
    assert(flag_of(p.content_encoding is Some, FLAG_CONTENT_ENCODING) == x1 as int && x1 <= FLAG_CONTENT_ENCODING) by {
        reveal(flag_of);
    }
    let x2: u32 = if p.headers is Some { FLAG_HEADERS } else { 0 };
    assert(flag_of(p.headers is Some, FLAG_HEADERS) == x2 as int && x2 <= FLAG_HEADERS) by {
        reveal(flag_of);
    }
    let x3: u32 = if p.delivery_mode is Some { FLAG_DELIVERY_MODE } else { 0 };
    assert(flag_of(p.delivery_mode is Some, FLAG_DELIVERY_MODE) == x3 as int && x3 <= FLAG_DELIVERY_MODE) by {
        reveal(flag_of);
    }
    let x4: u32 = if p.priority is Some { FLAG_PRIORITY } else { 0 };
    assert(flag_of(p.priority is Some, FLAG_PRIORITY) == x4 as int && x4 <= FLAG_PRIORITY) by {
        reveal(flag_of);
    }
    let x5: u32 = if p.correlation_id is Some { FLAG_CORRELATION_ID } else { 0 };
    assert(flag_of(p.correlation_id is Some, FLAG_CORRELATION_ID) == x5 as int && x5 <= FLAG_CORRELATION_ID) by {
        reveal(flag_of);
    }
    let x6: u32 = if p.reply_to is Some { FLAG_REPLY_TO } else { 0 };
    assert(flag_of(p.reply_to is Some, FLAG_REPLY_TO) == x6 as int && x6 <= FLAG_REPLY_TO) by {
        reveal(flag_of);
    }
    let x7: u32 = if p.expiration is Some { FLAG_EXPIRATION } else { 0 };
    assert(flag_of(p.expiration is Some, FLAG_EXPIRATION) == x7 as int && x7 <= FLAG_EXPIRATION) by {
        reveal(flag_of);
    }
    let x8: u32 = if p.message_id is Some { FLAG_MESSAGE_ID } else { 0 };
    assert(flag_of(p.message_id is Some, FLAG_MESSAGE_ID) == x8 as int && x8 <= FLAG_MESSAGE_ID) by {
        reveal(flag_of);
    }
    let x9: u32 = if p.timestamp is Some { FLAG_TIMESTAMP } else { 0 };
    assert(flag_of(p.timestamp is Some, FLAG_TIMESTAMP) == x9 as int && x9 <= FLAG_TIMESTAMP) by {
        reveal(flag_of);
    }
    let x10: u32 = if p.basic_type is Some { FLAG_BASIC_TYPE } else { 0 };
    assert(flag_of(p.basic_type is Some, FLAG_BASIC_TYPE) == x10 as int && x10 <= FLAG_BASIC_TYPE) by {
        reveal(flag_of);
    }
    let x11: u32 = if p.user_id is Some { FLAG_USER_ID } else { 0 };
    assert(flag_of(p.user_id is Some, FLAG_USER_ID) == x11 as int && x11 <= FLAG_USER_ID) by {
        reveal(flag_of);
    }
    let x12: u32 = if p.app_id is Some { FLAG_APP_ID } else { 0 };
    assert(flag_of(p.app_id is Some, FLAG_APP_ID) == x12 as int && x12 <= FLAG_APP_ID) by {
        reveal(flag_of);
    }
    let x13: u32 = if p.cluster_id is Some { FLAG_CLUSTER_ID } else { 0 };
    assert(flag_of(p.cluster_id is Some, FLAG_CLUSTER_ID) == x13 as int && x13 <= FLAG_CLUSTER_ID) by {
        reveal(flag_of);
    }
    let f = p.spec_flags();
    assert(f == x0 + x1 + x2 + x3 + x4 + x5 + x6 + x7 + x8 + x9 + x10 + x11 + x12 + x13);
    assert(((f & 0x8000u32 != 0) == (x0 != 0)) && ((f & 0x4000u32 != 0) == (x1 != 0)) && ((f & 0x2000u32 != 0) == (x2 != 0)) && ((f & 0x1000u32 != 0) == (x3 != 0)) && ((f & 0x800u32 != 0) == (x4 != 0)) && ((f & 0x400u32 != 0) == (x5 != 0)) && ((f & 0x200u32 != 0) == (x6 != 0)) && ((f & 0x100u32 != 0) == (x7 != 0)) && ((f & 0x80u32 != 0) == (x8 != 0)) && ((f & 0x40u32 != 0) == (x9 != 0)) && ((f & 0x20u32 != 0) == (x10 != 0)) && ((f & 0x10u32 != 0) == (x11 != 0)) && ((f & 0x8u32 != 0) == (x12 != 0)) && ((f & 0x4u32 != 0) == (x13 != 0))) by (bit_vector)
        requires
            x0 == 0x8000u32 || x0 == 0u32,
            x1 == 0x4000u32 || x1 == 0u32,
            x2 == 0x2000u32 || x2 == 0u32,
            x3 == 0x1000u32 || x3 == 0u32,
            x4 == 0x800u32 || x4 == 0u32,
            x5 == 0x400u32 || x5 == 0u32,
            x6 == 0x200u32 || x6 == 0u32,
            x7 == 0x100u32 || x7 == 0u32,
            x8 == 0x80u32 || x8 == 0u32,
            x9 == 0x40u32 || x9 == 0u32,
            x10 == 0x20u32 || x10 == 0u32,
            x11 == 0x10u32 || x11 == 0u32,
            x12 == 0x8u32 || x12 == 0u32,
            x13 == 0x4u32 || x13 == 0u32,
            f == x0 + x1 + x2 + x3 + x4 + x5 + x6 + x7 + x8 + x9 + x10 + x11 + x12 + x13,
    ;
}

/// The flag word of a property set selects exactly the fields that are present.
#[verifier::spinoff_prover]
#[verifier::rlimit(100)]
pub proof fn lemma_flags_select_present(p: &BasicProperties)
    ensures
        forall|i: int| 0 <= i < 14 ==> (#[trigger] basic_property_present(p.spec_flags())[i] <==> p@[i] is Some),
{
    lemma_flag_bits(p);
    let f = p.spec_flags();
    let pres = basic_property_present(f);
    let v = p@;
    assert(pres[0] == (f & FLAG_CONTENT_TYPE != 0));
    assert(v[0] == opt_short_str(&p.content_type));
    assert(pres[1] == (f & FLAG_CONTENT_ENCODING != 0));
    assert(v[1] == opt_short_str(&p.content_encoding));
    assert(pres[2] == (f & FLAG_HEADERS != 0));
    assert(v[2] == opt_table(&p.headers));
    assert(pres[3] == (f & FLAG_DELIVERY_MODE != 0));
    assert(v[3] == opt_octet(&p.delivery_mode));
    assert(pres[4] == (f & FLAG_PRIORITY != 0));
    assert(v[4] == opt_octet(&p.priority));
    assert(pres[5] == (f & FLAG_CORRELATION_ID != 0));
    assert(v[5] == opt_short_str(&p.correlation_id));
    assert(pres[6] == (f & FLAG_REPLY_TO != 0));
    assert(v[6] == opt_short_str(&p.reply_to));
    assert(pres[7] == (f & FLAG_EXPIRATION != 0));
    assert(v[7] == opt_short_str(&p.expiration));
    assert(pres[8] == (f & FLAG_MESSAGE_ID != 0));
    assert(v[8] == opt_short_str(&p.message_id));
    assert(pres[9] == (f & FLAG_TIMESTAMP != 0));
    assert(v[9] == opt_long_long(&p.timestamp));
    assert(pres[10] == (f & FLAG_BASIC_TYPE != 0));
    assert(v[10] == opt_short_str(&p.basic_type));
    assert(pres[11] == (f & FLAG_USER_ID != 0));
    assert(v[11] == opt_short_str(&p.user_id));
    assert(pres[12] == (f & FLAG_APP_ID != 0));
    assert(v[12] == opt_short_str(&p.app_id));
    assert(pres[13] == (f & FLAG_CLUSTER_ID != 0));
    assert(v[13] == opt_short_str(&p.cluster_id));
    assert forall|i: int| 0 <= i < 14 implies (#[trigger] pres[i] <==> v[i] is Some) by {
        if i == 0 {
        } else if i == 1 {
        } else if i == 2 {
        } else if i == 3 {
        } else if i == 4 {
        } else if i == 5 {
        } else if i == 6 {
        } else if i == 7 {
        } else if i == 8 {
        } else if i == 9 {
        } else if i == 10 {
        } else if i == 11 {
        } else if i == 12 {
        } else if i == 13 {
        }
    }
}

/// Every present field of `p` is a valid value of its wire type.
pub open spec fn basic_properties_fit(p: &BasicProperties) -> bool {
    forall|i: int|
        0 <= i < 14 ==> (#[trigger] p@[i] is Some ==> arg_fits(
            basic_property_kinds()[i],
            p@[i]->Some_0,
        ))
}

/// Round trip of `Basic` properties: the flag word and the present fields,
/// followed by anything, decode to the same fields.
#[verifier::spinoff_prover]
#[verifier::rlimit(60)]
pub proof fn lemma_basic_properties_round_trip(p: &BasicProperties, rest: Seq<u8>)
    requires
        basic_properties_fit(p),
    ensures
        parse_basic_properties(be32(p.spec_flags()) + enc_opt_args(p@) + rest) == Ok::<
            (nat, Seq<Option<ArgModel>>),
            FrameDecodeErr,
        >(((4 + enc_opt_args(p@).len()) as nat, p@)),
{
    lemma_flags_select_present(p);
    let f = p.spec_flags();
    let e = enc_opt_args(p@);
    let b = be32(f) + e + rest;
    lemma_parse_u32_prefix(f, e + rest);
    assert(b =~= be32(f) + (e + rest));
    assert(b.skip(4) =~= e + rest);
    let ks = basic_property_kinds();
    let pres = basic_property_present(f);
    assert forall|i: int| 0 <= i < p@.len() implies (#[trigger] pres[i] <==> p@[i] is Some) && (
    p@[i] is Some ==> arg_fits(ks[i], p@[i]->Some_0)) by {}
    lemma_opt_args_round_trip(ks, pres, p@, rest);
    assert(Seq::<Option<ArgModel>>::empty() + p@ =~= p@);
}

} // verus!
