//! Tagged field values, field arrays and field tables.
use vstd::prelude::*;
use crate::error::{FrameDecodeErr, SyntaxErrorKind, DecodeContext, SpecResult, agrees};
use crate::wire::{
    be16, be32, be64, from_be32, parse_u8, parse_u16, parse_u32, parse_u64, lemma_be16_round_trip,
    lemma_parse_u16_prefix, lemma_parse_u32_prefix, lemma_parse_u64_prefix, put_u8, put_u16,
    put_u32, put_u64, decode_u8, decode_u16, decode_u32, decode_u64, take_bytes,
};
use crate::strings::{
    LongStr, BytesArray, FieldName, enc_long_str, enc_short_str, parse_long_str, parse_field_name, long_str_ok,
    field_name_ok, lemma_long_str_round_trip, lemma_field_name_round_trip,
};

verus! {

/// A fixed-point number: `value × 10^-scale`.
#[derive(Clone, Copy, Debug, PartialEq, Eq, Structural)]
pub struct Decimal {
    pub scale: u8,
    pub value: u32,
}

impl Decimal {
    pub fn new(scale: u8, value: u32) -> (r: Decimal)
        ensures
            r.scale == scale,
            r.value == value,
    {
        Decimal { scale, value }
    }
}

pub const TAG_BOOLEAN: u8 = 0x74;

pub const TAG_I8: u8 = 0x62;

pub const TAG_U8: u8 = 0x42;

pub const TAG_I16: u8 = 0x73;

pub const TAG_U16: u8 = 0x75;

pub const TAG_I32: u8 = 0x49;

pub const TAG_U32: u8 = 0x69;

pub const TAG_I64: u8 = 0x6c;

pub const TAG_U64: u8 = 0x4c;

pub const TAG_F32: u8 = 0x66;

pub const TAG_F64: u8 = 0x64;

pub const TAG_TIMESTAMP: u8 = 0x54;

pub const TAG_DECIMAL: u8 = 0x44;

pub const TAG_LONG_STR: u8 = 0x53;

pub const TAG_FIELD_ARRAY: u8 = 0x41;

pub const TAG_FIELD_TABLE: u8 = 0x46;

pub const TAG_BYTES_ARRAY: u8 = 0x78;

pub const TAG_VOID: u8 = 0x56;

/// The kind of a field value, as named by its one-byte tag.
#[derive(Clone, Copy, Debug, PartialEq, Eq, Structural)]
pub enum FieldValueKind {
    Boolean,
    I8,
    U8,
    I16,
    U16,
    I32,
    U32,
    I64,
    U64,
    F32,
    F64,
    Timestamp,
    Decimal,
    LongStr,
    FieldArray,
    FieldTable,
    BytesArray,
    Void,
    Unknown,
}

impl FieldValueKind {
    pub open spec fn spec_tag(self) -> u8 {
        match self {
            FieldValueKind::Boolean => TAG_BOOLEAN,
            FieldValueKind::I8 => TAG_I8,
            FieldValueKind::U8 => TAG_U8,
            FieldValueKind::I16 => TAG_I16,
            FieldValueKind::U16 => TAG_U16,
            FieldValueKind::I32 => TAG_I32,
            FieldValueKind::U32 => TAG_U32,
            FieldValueKind::I64 => TAG_I64,
            FieldValueKind::U64 => TAG_U64,
            FieldValueKind::F32 => TAG_F32,
            FieldValueKind::F64 => TAG_F64,
            FieldValueKind::Timestamp => TAG_TIMESTAMP,
            FieldValueKind::Decimal => TAG_DECIMAL,
            FieldValueKind::LongStr => TAG_LONG_STR,
            FieldValueKind::FieldArray => TAG_FIELD_ARRAY,
            FieldValueKind::FieldTable => TAG_FIELD_TABLE,
            FieldValueKind::BytesArray => TAG_BYTES_ARRAY,
            FieldValueKind::Void => TAG_VOID,
            FieldValueKind::Unknown => 0xff,
        }
    }

    /// The kind that a tag byte names; `Unknown` for a byte outside the table.
    pub open spec fn spec_from_tag(tag: u8) -> FieldValueKind {
        if tag == TAG_BOOLEAN {
            FieldValueKind::Boolean
        } else if tag == TAG_I8 {
            FieldValueKind::I8
        } else if tag == TAG_U8 {
            FieldValueKind::U8
        } else if tag == TAG_I16 {
            FieldValueKind::I16
        } else if tag == TAG_U16 {
            FieldValueKind::U16
        } else if tag == TAG_I32 {
            FieldValueKind::I32
        } else if tag == TAG_U32 {
            FieldValueKind::U32
        } else if tag == TAG_I64 {
            FieldValueKind::I64
        } else if tag == TAG_U64 {
            FieldValueKind::U64
        } else if tag == TAG_F32 {
            FieldValueKind::F32
        } else if tag == TAG_F64 {
            FieldValueKind::F64
        } else if tag == TAG_TIMESTAMP {
            FieldValueKind::Timestamp
        } else if tag == TAG_DECIMAL {
            FieldValueKind::Decimal
        } else if tag == TAG_LONG_STR {
            FieldValueKind::LongStr
        } else if tag == TAG_FIELD_ARRAY {
            FieldValueKind::FieldArray
        } else if tag == TAG_FIELD_TABLE {
            FieldValueKind::FieldTable
        } else if tag == TAG_BYTES_ARRAY {
            FieldValueKind::BytesArray
        } else if tag == TAG_VOID {
            FieldValueKind::Void
        } else {
            FieldValueKind::Unknown
        }
    }

    pub fn as_u8(&self) -> (r: u8)
        ensures
            r == self.spec_tag(),
    {
        match self {
            FieldValueKind::Boolean => TAG_BOOLEAN,
            FieldValueKind::I8 => TAG_I8,
            FieldValueKind::U8 => TAG_U8,
            FieldValueKind::I16 => TAG_I16,
            FieldValueKind::U16 => TAG_U16,
            FieldValueKind::I32 => TAG_I32,
            FieldValueKind::U32 => TAG_U32,
            FieldValueKind::I64 => TAG_I64,
            FieldValueKind::U64 => TAG_U64,
            FieldValueKind::F32 => TAG_F32,
            FieldValueKind::F64 => TAG_F64,
            FieldValueKind::Timestamp => TAG_TIMESTAMP,
            FieldValueKind::Decimal => TAG_DECIMAL,
            FieldValueKind::LongStr => TAG_LONG_STR,
            FieldValueKind::FieldArray => TAG_FIELD_ARRAY,
            FieldValueKind::FieldTable => TAG_FIELD_TABLE,
            FieldValueKind::BytesArray => TAG_BYTES_ARRAY,
            FieldValueKind::Void => TAG_VOID,
            FieldValueKind::Unknown => 0xff,
        }
    }

    pub fn from_u8(tag: u8) -> (r: FieldValueKind)
        ensures
            r == FieldValueKind::spec_from_tag(tag),
    {
        if tag == TAG_BOOLEAN {
            FieldValueKind::Boolean
        } else if tag == TAG_I8 {
            FieldValueKind::I8
        } else if tag == TAG_U8 {
            FieldValueKind::U8
        } else if tag == TAG_I16 {
            FieldValueKind::I16
        } else if tag == TAG_U16 {
            FieldValueKind::U16
        } else if tag == TAG_I32 {
            FieldValueKind::I32
        } else if tag == TAG_U32 {
            FieldValueKind::U32
        } else if tag == TAG_I64 {
            FieldValueKind::I64
        } else if tag == TAG_U64 {
            FieldValueKind::U64
        } else if tag == TAG_F32 {
            FieldValueKind::F32
        } else if tag == TAG_F64 {
            FieldValueKind::F64
        } else if tag == TAG_TIMESTAMP {
            FieldValueKind::Timestamp
        } else if tag == TAG_DECIMAL {
            FieldValueKind::Decimal
        } else if tag == TAG_LONG_STR {
            FieldValueKind::LongStr
        } else if tag == TAG_FIELD_ARRAY {
            FieldValueKind::FieldArray
        } else if tag == TAG_FIELD_TABLE {
            FieldValueKind::FieldTable
        } else if tag == TAG_BYTES_ARRAY {
            FieldValueKind::BytesArray
        } else if tag == TAG_VOID {
            FieldValueKind::Void
        } else {
            FieldValueKind::Unknown
        }
    }
}

/// The mathematical model of a field value: strings as characters,
/// floats as their IEEE-754 bits, tables as their entries in order.
pub enum FieldValueModel {
    Boolean(bool),
    U8(u8),
    I8(i8),
    U16(u16),
    I16(i16),
    U32(u32),
    I32(i32),
    U64(u64),
    I64(i64),
    F32(u32),
    F64(u64),
    Timestamp(u64),
    Decimal(u8, u32),
    LongStr(Seq<char>),
    FieldArray(Seq<FieldValueModel>),
    FieldTable(Seq<(Seq<char>, FieldValueModel)>),
    BytesArray(Seq<char>),
    Void,
}

pub open spec fn model_kind(v: FieldValueModel) -> FieldValueKind {
    match v {
        FieldValueModel::Boolean(_) => FieldValueKind::Boolean,
        FieldValueModel::U8(_) => FieldValueKind::U8,
        FieldValueModel::I8(_) => FieldValueKind::I8,
        FieldValueModel::U16(_) => FieldValueKind::U16,
        FieldValueModel::I16(_) => FieldValueKind::I16,
        FieldValueModel::U32(_) => FieldValueKind::U32,
        FieldValueModel::I32(_) => FieldValueKind::I32,
        FieldValueModel::U64(_) => FieldValueKind::U64,
        FieldValueModel::I64(_) => FieldValueKind::I64,
        FieldValueModel::F32(_) => FieldValueKind::F32,
        FieldValueModel::F64(_) => FieldValueKind::F64,
        FieldValueModel::Timestamp(_) => FieldValueKind::Timestamp,
        FieldValueModel::Decimal(_, _) => FieldValueKind::Decimal,
        FieldValueModel::LongStr(_) => FieldValueKind::LongStr,
        FieldValueModel::FieldArray(_) => FieldValueKind::FieldArray,
        FieldValueModel::FieldTable(_) => FieldValueKind::FieldTable,
        FieldValueModel::BytesArray(_) => FieldValueKind::BytesArray,
        FieldValueModel::Void => FieldValueKind::Void,
    }
}

/// Wire form of a field value: its tag, then its payload.
pub open spec fn enc_value(v: FieldValueModel) -> Seq<u8>
    decreases v,
{
    seq![model_kind(v).spec_tag()] + match v {
        FieldValueModel::Boolean(b) => seq![if b { 1u8 } else { 0u8 }],
        FieldValueModel::U8(x) => seq![x],
        FieldValueModel::I8(x) => seq![x as u8],
        FieldValueModel::U16(x) => be16(x),
        FieldValueModel::I16(x) => be16(x as u16),
        FieldValueModel::U32(x) => be32(x),
        FieldValueModel::I32(x) => be32(x as u32),
        FieldValueModel::U64(x) => be64(x),
        FieldValueModel::I64(x) => be64(x as u64),
        FieldValueModel::F32(x) => be32(x),
        FieldValueModel::F64(x) => be64(x),
        FieldValueModel::Timestamp(x) => be64(x),
        FieldValueModel::Decimal(s, x) => seq![s] + be32(x),
        FieldValueModel::LongStr(s) => enc_long_str(s),
        FieldValueModel::FieldArray(vs) => be32(enc_values(vs).len() as u32) + enc_values(vs),
        FieldValueModel::FieldTable(es) => be32(enc_entries(es).len() as u32) + enc_entries(es),
        FieldValueModel::BytesArray(s) => enc_long_str(s),
        FieldValueModel::Void => seq![],
    }
}

/// Consecutive field values, first to last.
pub open spec fn enc_values(vs: Seq<FieldValueModel>) -> Seq<u8>
    decreases vs,
{
    if vs.len() == 0 {
        seq![]
    } else {
        enc_value(vs[0]) + enc_values(vs.skip(1))
    }
}

/// Consecutive `(name, value)` pairs, first to last.
pub open spec fn enc_entries(es: Seq<(Seq<char>, FieldValueModel)>) -> Seq<u8>
    decreases es,
{
    if es.len() == 0 {
        seq![]
    } else {
        enc_short_str(es[0].0) + enc_value(es[0].1) + enc_entries(es.skip(1))
    }
}

/// The keys of a table are pairwise distinct.
pub open spec fn keys_unique(es: Seq<(Seq<char>, FieldValueModel)>) -> bool {
    forall|i: int, j: int| 0 <= i < j < es.len() ==> #[trigger] es[i].0 != #[trigger] es[j].0
}

pub open spec fn has_key(es: Seq<(Seq<char>, FieldValueModel)>, k: Seq<char>) -> bool {
    exists|i: int| 0 <= i < es.len() && #[trigger] es[i].0 == k
}

/// Inserting into a table: an existing key has its value replaced in place,
/// a new key goes at the end.
pub open spec fn table_insert(
    es: Seq<(Seq<char>, FieldValueModel)>,
    k: Seq<char>,
    v: FieldValueModel,
) -> Seq<(Seq<char>, FieldValueModel)> {
    if has_key(es, k) {
        let i = choose|i: int| 0 <= i < es.len() && #[trigger] es[i].0 == k;
        es.update(i, (k, v))
    } else {
        es.push((k, v))
    }
}

/// A value that this library can build and encode: strings within their
/// caps, valid and unique keys, and each container body within a `u32` length.
pub open spec fn value_wf(v: FieldValueModel) -> bool
    decreases v,
{
    match v {
        FieldValueModel::LongStr(s) => long_str_ok(s),
        FieldValueModel::BytesArray(s) => long_str_ok(s),
        FieldValueModel::FieldArray(vs) => enc_values(vs).len() <= u32::MAX && forall|i: int|
            0 <= i < vs.len() ==> value_wf(#[trigger] vs[i]),
        FieldValueModel::FieldTable(es) => enc_entries(es).len() <= u32::MAX && keys_unique(es)
            && forall|i: int|
            0 <= i < es.len() ==> field_name_ok(#[trigger] es[i].0) && value_wf(es[i].1),
        _ => true,
    }
}

/// Each container body within a `u32` length, at every depth.
pub open spec fn value_fits(v: FieldValueModel) -> bool
    decreases v,
{
    match v {
        FieldValueModel::FieldArray(vs) => enc_values(vs).len() <= u32::MAX && forall|i: int|
            0 <= i < vs.len() ==> value_fits(#[trigger] vs[i]),
        FieldValueModel::FieldTable(es) => enc_entries(es).len() <= u32::MAX && forall|i: int|
            0 <= i < es.len() ==> value_fits(#[trigger] es[i].1),
        _ => true,
    }
}

pub open spec fn ctx_err(e: FrameDecodeErr, ctx: DecodeContext) -> FrameDecodeErr {
    match e {
        FrameDecodeErr::Incomplete => FrameDecodeErr::DecodeError(ctx),
        _ => e,
    }
}

pub open spec fn map_ok<A, B>(r: SpecResult<A>, f: spec_fn(A) -> B) -> SpecResult<B> {
    match r {
        Ok((n, a)) => Ok((n, f(a))),
        Err(e) => Err(e),
    }
}

/// Decoding one tagged field value.
pub open spec fn parse_value(b: Seq<u8>) -> SpecResult<FieldValueModel>
    decreases b.len(), 0int,
{
    if b.len() < 1 {
        Err(FrameDecodeErr::Incomplete)
    } else {
        match parse_payload(b[0], b.skip(1)) {
            Ok((n, v)) => Ok((n + 1, v)),
            Err(e) => Err(e),
        }
    }
}

/// Decoding the payload that follows tag `tag`.
pub open spec fn parse_payload(tag: u8, p: Seq<u8>) -> SpecResult<FieldValueModel>
    decreases p.len(), 2int,
{
    match FieldValueKind::spec_from_tag(tag) {
        FieldValueKind::Decimal => if p.len() < 5 {
            Err(FrameDecodeErr::Incomplete)
        } else {
            Ok((5, FieldValueModel::Decimal(p[0], from_be32(p[1], p[2], p[3], p[4]))))
        },
        FieldValueKind::LongStr => map_ok(
            parse_long_str(p),
            |s: Seq<char>| FieldValueModel::LongStr(s),
        ),
        FieldValueKind::FieldArray => parse_array(p),
        FieldValueKind::FieldTable => parse_table(p),
        FieldValueKind::BytesArray => map_ok(
            parse_long_str(p),
            |s: Seq<char>| FieldValueModel::BytesArray(s),
        ),
        FieldValueKind::Void => Ok((0, FieldValueModel::Void)),
        FieldValueKind::Unknown => Err(FrameDecodeErr::SyntaxError(SyntaxErrorKind::UnknownFieldKind)),
        k => if is_narrow(k) {
            parse_narrow(k, p)
        } else {
            parse_wide(k, p)
        },
    }
}

/// Kinds whose payload is one or two bytes.
pub open spec fn is_narrow(k: FieldValueKind) -> bool {
    k is Boolean || k is I8 || k is U8 || k is I16 || k is U16
}

/// Kinds whose payload is four or eight bytes.
pub open spec fn is_wide(k: FieldValueKind) -> bool {
    k is I32 || k is U32 || k is F32 || k is I64 || k is U64 || k is F64 || k is Timestamp
}

pub open spec fn parse_narrow(k: FieldValueKind, p: Seq<u8>) -> SpecResult<FieldValueModel> {
    match k {
        FieldValueKind::Boolean => map_ok(parse_u8(p), |x: u8| FieldValueModel::Boolean(x != 0)),
        FieldValueKind::I8 => map_ok(parse_u8(p), |x: u8| FieldValueModel::I8(x as i8)),
        FieldValueKind::U8 => map_ok(parse_u8(p), |x: u8| FieldValueModel::U8(x)),
        FieldValueKind::I16 => map_ok(parse_u16(p), |x: u16| FieldValueModel::I16(x as i16)),
        _ => map_ok(parse_u16(p), |x: u16| FieldValueModel::U16(x)),
    }
}

pub open spec fn parse_wide(k: FieldValueKind, p: Seq<u8>) -> SpecResult<FieldValueModel> {
    match k {
        FieldValueKind::I32 => map_ok(parse_u32(p), |x: u32| FieldValueModel::I32(x as i32)),
        FieldValueKind::U32 => map_ok(parse_u32(p), |x: u32| FieldValueModel::U32(x)),
        FieldValueKind::F32 => map_ok(parse_u32(p), |x: u32| FieldValueModel::F32(x)),
        FieldValueKind::I64 => map_ok(parse_u64(p), |x: u64| FieldValueModel::I64(x as i64)),
        FieldValueKind::U64 => map_ok(parse_u64(p), |x: u64| FieldValueModel::U64(x)),
        FieldValueKind::F64 => map_ok(parse_u64(p), |x: u64| FieldValueModel::F64(x)),
        _ => map_ok(parse_u64(p), |x: u64| FieldValueModel::Timestamp(x)),
    }
}

/// A length-prefixed array, after its tag.
pub open spec fn parse_array(p: Seq<u8>) -> SpecResult<FieldValueModel>
    decreases p.len(), 0int,
{
    if p.len() < 4 {
        Err(FrameDecodeErr::Incomplete)
    } else {
        let n = from_be32(p[0], p[1], p[2], p[3]);
        if p.len() < 4 + n {
            Err(FrameDecodeErr::Incomplete)
        } else {
            match parse_array_body(p.subrange(4, 4 + n), seq![]) {
                Ok(vs) => Ok(((4 + n) as nat, FieldValueModel::FieldArray(vs))),
                Err(e) => Err(e),
            }
        }
    }
}

/// The values of an array body, appended to `acc`; the body must be used up exactly.
pub open spec fn parse_array_body(body: Seq<u8>, acc: Seq<FieldValueModel>) -> Result<
    Seq<FieldValueModel>,
    FrameDecodeErr,
>
    decreases body.len(), 1int,
{
    if body.len() == 0 {
        Ok(acc)
    } else {
        match parse_value(body) {
            Err(e) => Err(ctx_err(e, DecodeContext::FieldArray)),
            Ok((k, v)) => if 0 < k <= body.len() {
                parse_array_body(body.skip(k as int), acc.push(v))
            } else {
                Err(FrameDecodeErr::DecodeError(DecodeContext::FieldArray))
            },
        }
    }
}

/// A length-prefixed table, after its tag.
pub open spec fn parse_table(p: Seq<u8>) -> SpecResult<FieldValueModel>
    decreases p.len(), 1int,
{
    match parse_table_sized(p) {
        Ok((n, es)) => Ok((n, FieldValueModel::FieldTable(es))),
        Err(e) => Err(e),
    }
}

/// A length-prefixed table, as its entries.
pub open spec fn parse_table_sized(p: Seq<u8>) -> SpecResult<Seq<(Seq<char>, FieldValueModel)>>
    decreases p.len(), 0int,
{
    if p.len() < 4 {
        Err(FrameDecodeErr::Incomplete)
    } else {
        let n = from_be32(p[0], p[1], p[2], p[3]);
        if p.len() < 4 + n {
            Err(FrameDecodeErr::Incomplete)
        } else {
            match parse_table_body(p.subrange(4, 4 + n), seq![]) {
                Ok(es) => Ok(((4 + n) as nat, es)),
                Err(e) => Err(e),
            }
        }
    }
}

/// The entries of a table body inserted into `acc`, one after the other; a
/// repeated key overwrites the earlier value.
pub open spec fn parse_table_body(
    body: Seq<u8>,
    acc: Seq<(Seq<char>, FieldValueModel)>,
) -> Result<Seq<(Seq<char>, FieldValueModel)>, FrameDecodeErr>
    decreases body.len(), 1int,
{
    if body.len() == 0 {
        Ok(acc)
    } else {
        match parse_field_name(body) {
            Err(e) => Err(ctx_err(e, DecodeContext::FieldTable)),
            Ok((k1, name)) => match parse_value(body.skip(k1 as int)) {
                Err(e) => Err(ctx_err(e, DecodeContext::FieldTable)),
                Ok((k2, v)) => if 0 < k1 + k2 <= body.len() {
                    parse_table_body(body.skip((k1 + k2) as int), table_insert(acc, name, v))
                } else {
                    Err(FrameDecodeErr::DecodeError(DecodeContext::FieldTable))
                },
            },
        }
    }
}

/// Round trip of a field value: its encoding, followed by anything,
/// decodes to the value and consumes exactly the encoding.
#[verifier::spinoff_prover]
#[verifier::rlimit(60)]
pub proof fn lemma_value_round_trip(v: FieldValueModel, rest: Seq<u8>)
    requires
        value_wf(v),
    ensures
        parse_value(enc_value(v) + rest) == Ok::<(nat, FieldValueModel), FrameDecodeErr>(
            (enc_value(v).len(), v),
        ),
    decreases v,
{
    let b = enc_value(v) + rest;
    let p = b.skip(1);
    assert(b[0] == model_kind(v).spec_tag());
    match v {
        FieldValueModel::FieldArray(vs) => {
            let body = enc_values(vs);
            let n = body.len() as u32;
            assert(p =~= be32(n) + (body + rest));
            lemma_parse_u32_prefix(n, body + rest);
            assert(p.subrange(4, 4 + n) =~= body);
            lemma_values_round_trip(vs, seq![]);
            assert(seq![] + vs =~= vs);
        },
        FieldValueModel::FieldTable(es) => {
            let body = enc_entries(es);
            let n = body.len() as u32;
            assert(p =~= be32(n) + (body + rest));
            lemma_parse_u32_prefix(n, body + rest);
            assert(p.subrange(4, 4 + n) =~= body);
            assert(seq![] + es =~= es);
            lemma_entries_round_trip(es, seq![]);
        },
        _ => lemma_scalar_round_trip(v, rest),
    }
}

#[verifier::spinoff_prover]
#[verifier::rlimit(60)]
proof fn lemma_scalar_round_trip(v: FieldValueModel, rest: Seq<u8>)
    requires
        value_wf(v),
        !(v is FieldArray),
        !(v is FieldTable),
    ensures
        parse_value(enc_value(v) + rest) == Ok::<(nat, FieldValueModel), FrameDecodeErr>(
            (enc_value(v).len(), v),
        ),
{
    let b = enc_value(v) + rest;
    let p = b.skip(1);
    assert(b[0] == model_kind(v).spec_tag());
    match v {
        FieldValueModel::Boolean(x) => {
            assert(p =~= seq![if x { 1u8 } else { 0u8 }] + rest);
        },
        FieldValueModel::U8(x) => {
            assert(p =~= seq![x] + rest);
        },
        FieldValueModel::I8(x) => {
            assert(p =~= seq![x as u8] + rest);
            assert((x as u8) as i8 == x) by (bit_vector);
        },
        FieldValueModel::U16(x) => {
            assert(p =~= be16(x) + rest);
            lemma_parse_u16_prefix(x, rest);
        },
        FieldValueModel::I16(x) => {
            assert(p =~= be16(x as u16) + rest);
            lemma_parse_u16_prefix(x as u16, rest);
            assert((x as u16) as i16 == x) by (bit_vector);
        },
        FieldValueModel::U32(x) => {
            assert(p =~= be32(x) + rest);
            lemma_parse_u32_prefix(x, rest);
        },
        FieldValueModel::I32(x) => {
            assert(p =~= be32(x as u32) + rest);
            lemma_parse_u32_prefix(x as u32, rest);
            assert((x as u32) as i32 == x) by (bit_vector);
        },
        FieldValueModel::U64(x) => {
            assert(p =~= be64(x) + rest);
            lemma_parse_u64_prefix(x, rest);
        },
        FieldValueModel::I64(x) => {
            assert(p =~= be64(x as u64) + rest);
            lemma_parse_u64_prefix(x as u64, rest);
            assert((x as u64) as i64 == x) by (bit_vector);
        },
        FieldValueModel::F32(x) => {
            assert(p =~= be32(x) + rest);
            lemma_parse_u32_prefix(x, rest);
        },
        FieldValueModel::F64(x) => {
            assert(p =~= be64(x) + rest);
            lemma_parse_u64_prefix(x, rest);
        },
        FieldValueModel::Timestamp(x) => {
            assert(p =~= be64(x) + rest);
            lemma_parse_u64_prefix(x, rest);
        },
        FieldValueModel::Decimal(sc, x) => {
            assert(p =~= seq![sc] + (be32(x) + rest));
            lemma_parse_u32_prefix(x, rest);
            assert(p[1] == (be32(x) + rest)[0] && p[2] == (be32(x) + rest)[1] && p[3] == (be32(x)
                + rest)[2] && p[4] == (be32(x) + rest)[3]);
        },
        FieldValueModel::LongStr(s) => {
            assert(p =~= enc_long_str(s) + rest);
            lemma_long_str_round_trip(s, rest);
        },
        FieldValueModel::BytesArray(s) => {
            assert(p =~= enc_long_str(s) + rest);
            lemma_long_str_round_trip(s, rest);
        },
        _ => {},
    }
}

/// The values of an array body decode one after the other.
pub proof fn lemma_values_round_trip(vs: Seq<FieldValueModel>, acc: Seq<FieldValueModel>)
    requires
        forall|i: int| 0 <= i < vs.len() ==> #[trigger] value_wf(vs[i]),
    ensures
        parse_array_body(enc_values(vs), acc) == Ok::<Seq<FieldValueModel>, FrameDecodeErr>(
            acc + vs,
        ),
    decreases vs,
{
    if vs.len() == 0 {
        assert(acc + vs =~= acc);
    } else {
        let body = enc_values(vs);
        let tail = enc_values(vs.skip(1));
        lemma_value_round_trip(vs[0], tail);
        let k = enc_value(vs[0]).len();
        assert(body.skip(k as int) =~= tail);
        assert forall|i: int| 0 <= i < vs.skip(1).len() implies #[trigger] value_wf(
            vs.skip(1)[i],
        ) by {
            assert(vs.skip(1)[i] == vs[i + 1]);
        }
        lemma_values_round_trip(vs.skip(1), acc.push(vs[0]));
        assert(acc.push(vs[0]) + vs.skip(1) =~= acc + vs);
    }
}

/// The entries of a table body, with keys new to `acc`, decode one after the other.
#[verifier::spinoff_prover]
#[verifier::rlimit(60)]
pub proof fn lemma_entries_round_trip(
    es: Seq<(Seq<char>, FieldValueModel)>,
    acc: Seq<(Seq<char>, FieldValueModel)>,
)
    requires
        forall|i: int|
            0 <= i < es.len() ==> field_name_ok(#[trigger] es[i].0) && value_wf(es[i].1),
        keys_unique(acc + es),
    ensures
        parse_table_body(enc_entries(es), acc) == Ok::<
            Seq<(Seq<char>, FieldValueModel)>,
            FrameDecodeErr,
        >(acc + es),
    decreases es,
{
    if es.len() == 0 {
        assert(acc + es =~= acc);
    } else {
        let body = enc_entries(es);
        let tail = enc_entries(es.skip(1));
        let e = es[0];
        assert(body =~= enc_short_str(e.0) + (enc_value(e.1) + tail));
        lemma_field_name_round_trip(e.0, enc_value(e.1) + tail);
        let k1 = enc_short_str(e.0).len();
        assert(body.skip(k1 as int) =~= enc_value(e.1) + tail);
        lemma_value_round_trip(e.1, tail);
        let k2 = enc_value(e.1).len();
        assert(body.skip((k1 + k2) as int) =~= tail);
        let all = acc + es;
        assert(!has_key(acc, e.0)) by {
            if has_key(acc, e.0) {
                let i = choose|i: int| 0 <= i < acc.len() && #[trigger] acc[i].0 == e.0;
                assert(all[i].0 == all[acc.len() as int].0);
            }
        }
        assert(acc.push(e) + es.skip(1) =~= all);
        assert forall|i: int| 0 <= i < es.skip(1).len() implies field_name_ok(
            #[trigger] es.skip(1)[i].0,
        ) && value_wf(es.skip(1)[i].1) by {
            let j = i + 1;
            assert(0 <= j < es.len());
            assert(es.skip(1)[i] == es[j]);
            assert(field_name_ok(es[j].0));
        }
        lemma_entries_round_trip(es.skip(1), acc.push(e));
    }
}

pub type Timestamp = u64;

pub type FieldArray = Vec<FieldValue>;

/// A tagged field value. `F32` and `F64` hold the IEEE-754 bits of the float.
#[derive(Debug)]
pub enum FieldValue {
    Boolean(bool),
    U8(u8),
    I8(i8),
    U16(u16),
    I16(i16),
    U32(u32),
    I32(i32),
    U64(u64),
    I64(i64),
    F32(u32),
    F64(u64),
    Timestamp(Timestamp),
    Decimal(Decimal),
    LongStr(LongStr),
    FieldArray(FieldArray),
    FieldTable(FieldTable),
    BytesArray(LongStr),
    Void,
}

/// A mapping from field names to field values, kept in insertion order.
#[derive(Debug)]
pub struct FieldTable {
    entries: Vec<(FieldName, FieldValue)>,
}

pub open spec fn values_view(s: Seq<FieldValue>) -> Seq<FieldValueModel>
    decreases s,
{
    Seq::new(
        s.len(),
        |i: int|
            if 0 <= i < s.len() {
                s[i].view()
            } else {
                FieldValueModel::Void
            },
    )
}

pub open spec fn entries_view(s: Seq<(FieldName, FieldValue)>) -> Seq<
    (Seq<char>, FieldValueModel),
>
    decreases s,
{
    Seq::new(
        s.len(),
        |i: int|
            if 0 <= i < s.len() {
                (s[i].0@, s[i].1.view())
            } else {
                (Seq::empty(), FieldValueModel::Void)
            },
    )
}

impl View for FieldValue {
    type V = FieldValueModel;

    open spec fn view(&self) -> FieldValueModel
        decreases self,
    {
        match self {
            FieldValue::Boolean(x) => FieldValueModel::Boolean(*x),
            FieldValue::U8(x) => FieldValueModel::U8(*x),
            FieldValue::I8(x) => FieldValueModel::I8(*x),
            FieldValue::U16(x) => FieldValueModel::U16(*x),
            FieldValue::I16(x) => FieldValueModel::I16(*x),
            FieldValue::U32(x) => FieldValueModel::U32(*x),
            FieldValue::I32(x) => FieldValueModel::I32(*x),
            FieldValue::U64(x) => FieldValueModel::U64(*x),
            FieldValue::I64(x) => FieldValueModel::I64(*x),
            FieldValue::F32(x) => FieldValueModel::F32(*x),
            FieldValue::F64(x) => FieldValueModel::F64(*x),
            FieldValue::Timestamp(x) => FieldValueModel::Timestamp(*x),
            FieldValue::Decimal(d) => FieldValueModel::Decimal(d.scale, d.value),
            FieldValue::LongStr(s) => FieldValueModel::LongStr(s@),
            FieldValue::FieldArray(a) => FieldValueModel::FieldArray(values_view(a@)),
            FieldValue::FieldTable(t) => FieldValueModel::FieldTable(t.view()),
            FieldValue::BytesArray(s) => FieldValueModel::BytesArray(s@),
            FieldValue::Void => FieldValueModel::Void,
        }
    }
}

impl View for FieldTable {
    type V = Seq<(Seq<char>, FieldValueModel)>;

    closed spec fn view(&self) -> Seq<(Seq<char>, FieldValueModel)>
        decreases self,
    {
        entries_view(self.entries@)
    }
}

pub open spec fn enc_table(es: Seq<(Seq<char>, FieldValueModel)>) -> Seq<u8> {
    be32(enc_entries(es).len() as u32) + enc_entries(es)
}

pub open spec fn enc_array(vs: Seq<FieldValueModel>) -> Seq<u8> {
    be32(enc_values(vs).len() as u32) + enc_values(vs)
}

/// The value under key `k`, if any.
pub open spec fn table_get(es: Seq<(Seq<char>, FieldValueModel)>, k: Seq<char>) -> Option<
    FieldValueModel,
> {
    if has_key(es, k) {
        let i = choose|i: int| 0 <= i < es.len() && #[trigger] es[i].0 == k;
        Some(es[i].1)
    } else {
        None
    }
}

pub proof fn lemma_enc_values_push(vs: Seq<FieldValueModel>, v: FieldValueModel)
    ensures
        enc_values(vs.push(v)) == enc_values(vs) + enc_value(v),
    decreases vs.len(),
{
    if vs.len() == 0 {
        let w = vs.push(v);
        assert(w.skip(1) =~= Seq::<FieldValueModel>::empty());
        assert(w[0] == v);
        assert(enc_values(w.skip(1)) =~= Seq::<u8>::empty());
        assert(enc_values(w) =~= enc_value(v));
        assert(enc_values(vs) =~= Seq::<u8>::empty());
    } else {
        assert(vs.push(v).skip(1) =~= vs.skip(1).push(v));
        lemma_enc_values_push(vs.skip(1), v);
        assert(enc_values(vs.push(v)) =~= enc_values(vs) + enc_value(v));
    }
}

pub proof fn lemma_enc_entries_push(
    es: Seq<(Seq<char>, FieldValueModel)>,
    e: (Seq<char>, FieldValueModel),
)
    ensures
        enc_entries(es.push(e)) == enc_entries(es) + enc_short_str(e.0) + enc_value(e.1),
    decreases es.len(),
{
    if es.len() == 0 {
        let w = es.push(e);
        assert(w.skip(1) =~= Seq::<(Seq<char>, FieldValueModel)>::empty());
        assert(w[0] == e);
        assert(enc_entries(w.skip(1)) =~= Seq::<u8>::empty());
        assert(enc_entries(w) =~= enc_short_str(e.0) + enc_value(e.1));
        assert(enc_entries(es) =~= Seq::<u8>::empty());
    } else {
        assert(es.push(e).skip(1) =~= es.skip(1).push(e));
        lemma_enc_entries_push(es.skip(1), e);
        assert(enc_entries(es.push(e)) =~= enc_entries(es) + enc_short_str(e.0) + enc_value(e.1));
    }
}

/// A decoded value always takes at least its tag byte.
pub proof fn lemma_parse_value_consumes(b: Seq<u8>)
    ensures
        parse_value(b) matches Ok((n, _)) ==> 1 <= n <= b.len(),
{
    if b.len() >= 1 {
        let p = b.skip(1);
        match FieldValueKind::spec_from_tag(b[0]) {
            FieldValueKind::FieldTable => {
                assert(parse_table(p) matches Ok((n, _)) ==> n <= p.len());
            },
            _ => {},
        }
    }
}

/// Overwrites four bytes at `at` with the big-endian form of `v`.
fn patch_u32(out: &mut Vec<u8>, at: usize, v: u32)
    requires
        at + 4 <= old(out)@.len(),
    ensures
        final(out)@ == old(out)@.take(at as int) + be32(v) + old(out)@.skip(at + 4),
{
    let _n = out.len();
    out.set(at, (v >> 24u32) as u8);
    out.set(at + 1, ((v >> 16u32) & 0xffu32) as u8);
    out.set(at + 2, ((v >> 8u32) & 0xffu32) as u8);
    out.set(at + 3, (v & 0xffu32) as u8);
    assert(out@ =~= old(out)@.take(at as int) + be32(v) + old(out)@.skip(at + 4));
}

pub fn with_context(e: FrameDecodeErr, ctx: DecodeContext) -> (r: FrameDecodeErr)
    ensures
        r == ctx_err(e, ctx),
{
    match e {
        FrameDecodeErr::Incomplete => FrameDecodeErr::DecodeError(ctx),
        _ => e,
    }
}

impl FieldValue {
    pub fn from_bool(value: bool) -> (r: FieldValue)
        ensures
            r@ == FieldValueModel::Boolean(value),
    {
        FieldValue::Boolean(value)
    }

    pub fn from_u8(value: u8) -> (r: FieldValue)
        ensures
            r@ == FieldValueModel::U8(value),
    {
        FieldValue::U8(value)
    }

    pub fn from_i8(value: i8) -> (r: FieldValue)
        ensures
            r@ == FieldValueModel::I8(value),
    {
        FieldValue::I8(value)
    }

    pub fn from_i16(value: i16) -> (r: FieldValue)
        ensures
            r@ == FieldValueModel::I16(value),
    {
        FieldValue::I16(value)
    }

    pub fn from_u16(value: u16) -> (r: FieldValue)
        ensures
            r@ == FieldValueModel::U16(value),
    {
        FieldValue::U16(value)
    }

    pub fn from_i32(value: i32) -> (r: FieldValue)
        ensures
            r@ == FieldValueModel::I32(value),
    {
        FieldValue::I32(value)
    }

    pub fn from_u32(value: u32) -> (r: FieldValue)
        ensures
            r@ == FieldValueModel::U32(value),
    {
        FieldValue::U32(value)
    }

    pub fn from_i64(value: i64) -> (r: FieldValue)
        ensures
            r@ == FieldValueModel::I64(value),
    {
        FieldValue::I64(value)
    }

    pub fn from_u64(value: u64) -> (r: FieldValue)
        ensures
            r@ == FieldValueModel::U64(value),
    {
        FieldValue::U64(value)
    }

    /// A 32-bit float, given by its IEEE-754 bits.
    pub fn from_f32_bits(bits: u32) -> (r: FieldValue)
        ensures
            r@ == FieldValueModel::F32(bits),
    {
        FieldValue::F32(bits)
    }

    /// A 64-bit float, given by its IEEE-754 bits.
    pub fn from_f64_bits(bits: u64) -> (r: FieldValue)
        ensures
            r@ == FieldValueModel::F64(bits),
    {
        FieldValue::F64(bits)
    }

    pub fn from_timestamp(value: Timestamp) -> (r: FieldValue)
        ensures
            r@ == FieldValueModel::Timestamp(value),
    {
        FieldValue::Timestamp(value)
    }

    pub fn from_decimal(value: Decimal) -> (r: FieldValue)
        ensures
            r@ == FieldValueModel::Decimal(value.scale, value.value),
    {
        FieldValue::Decimal(value)
    }

    pub fn from_long_string(value: LongStr) -> (r: FieldValue)
        ensures
            r@ == FieldValueModel::LongStr(value@),
    {
        FieldValue::LongStr(value)
    }

    pub fn from_field_array(value: FieldArray) -> (r: FieldValue)
        ensures
            r@ == FieldValueModel::FieldArray(values_view(value@)),
    {
        FieldValue::FieldArray(value)
    }

    pub fn from_field_table(value: FieldTable) -> (r: FieldValue)
        ensures
            r@ == FieldValueModel::FieldTable(value@),
    {
        FieldValue::FieldTable(value)
    }

    pub fn from_bytes_array(value: BytesArray) -> (r: FieldValue)
        ensures
            r@ == FieldValueModel::BytesArray(value@),
    {
        FieldValue::BytesArray(value)
    }

    pub fn from_void() -> (r: FieldValue)
        ensures
            r@ == FieldValueModel::Void,
    {
        FieldValue::Void
    }

    pub fn get_kind(&self) -> (r: FieldValueKind)
        ensures
            r == model_kind(self@),
    {
        match self {
            FieldValue::Boolean(_) => FieldValueKind::Boolean,
            FieldValue::U8(_) => FieldValueKind::U8,
            FieldValue::I8(_) => FieldValueKind::I8,
            FieldValue::U16(_) => FieldValueKind::U16,
            FieldValue::I16(_) => FieldValueKind::I16,
            FieldValue::U32(_) => FieldValueKind::U32,
            FieldValue::I32(_) => FieldValueKind::I32,
            FieldValue::U64(_) => FieldValueKind::U64,
            FieldValue::I64(_) => FieldValueKind::I64,
            FieldValue::F32(_) => FieldValueKind::F32,
            FieldValue::F64(_) => FieldValueKind::F64,
            FieldValue::Timestamp(_) => FieldValueKind::Timestamp,
            FieldValue::Decimal(_) => FieldValueKind::Decimal,
            FieldValue::LongStr(_) => FieldValueKind::LongStr,
            FieldValue::FieldArray(_) => FieldValueKind::FieldArray,
            FieldValue::FieldTable(_) => FieldValueKind::FieldTable,
            FieldValue::BytesArray(_) => FieldValueKind::BytesArray,
            FieldValue::Void => FieldValueKind::Void,
        }
    }

    /// Writes the tag, then the payload.
    #[verifier::rlimit(40)]
    pub fn encode(&self, out: &mut Vec<u8>)
        requires
            value_fits(self@),
        ensures
            final(out)@ == old(out)@ + enc_value(self@),
        decreases self,
    {
        put_u8(out, self.get_kind().as_u8());
        let ghost mid = out@;
        match self {
            FieldValue::Boolean(v) => put_u8(out, if *v { 1u8 } else { 0u8 }),
            FieldValue::U8(v) => put_u8(out, *v),
            FieldValue::I8(v) => put_u8(out, *v as u8),
            FieldValue::U16(v) => put_u16(out, *v),
            FieldValue::I16(v) => put_u16(out, *v as u16),
            FieldValue::U32(v) => put_u32(out, *v),
            FieldValue::I32(v) => put_u32(out, *v as u32),
            FieldValue::U64(v) => put_u64(out, *v),
            FieldValue::I64(v) => put_u64(out, *v as u64),
            FieldValue::F32(v) => put_u32(out, *v),
            FieldValue::F64(v) => put_u64(out, *v),
            FieldValue::Timestamp(v) => put_u64(out, *v),
            FieldValue::Decimal(d) => {
                put_u8(out, d.scale);
                put_u32(out, d.value);
                assert(out@ =~= mid + (seq![d.scale] + be32(d.value)));
            },
            FieldValue::LongStr(s) => s.encode(out),
            FieldValue::FieldArray(a) => encode_field_array(a, out),
            FieldValue::FieldTable(t) => t.encode(out),
            FieldValue::BytesArray(s) => s.encode(out),
            FieldValue::Void => {},
        }
        assert(out@ =~= old(out)@ + enc_value(self@));
    }

    /// Reads one tagged value.
    pub fn decode(buf: &[u8]) -> (r: Result<(&[u8], FieldValue), FrameDecodeErr>)
        ensures
            agrees(buf@, r, parse_value(buf@)),
        decreases buf@.len(), 0int,
    {
        let (p, tag) = match decode_u8(buf) {
            Ok(v) => v,
            Err(e) => return Err(e),
        };
        assert(p@ =~= buf@.skip(1));
        let r = FieldValue::decode_payload(tag, p);
        match r {
            Ok((rest, v)) => {
                assert(rest@ =~= buf@.skip(buf@.len() - rest@.len()));
                Ok((rest, v))
            },
            Err(e) => Err(e),
        }
    }

    /// Reads the payload that follows tag `tag`.
    #[verifier::spinoff_prover]
    #[verifier::rlimit(60)]
    pub fn decode_payload(tag: u8, p: &[u8]) -> (r: Result<(&[u8], FieldValue), FrameDecodeErr>)
        ensures
            agrees(p@, r, parse_payload(tag, p@)),
        decreases p@.len(), 2int,
    {
        let kind = FieldValueKind::from_u8(tag);
        match kind {
            FieldValueKind::Decimal => {
                if p.len() < 5 {
                    return Err(FrameDecodeErr::Incomplete);
                }
                let (rest, scale) = match decode_u8(p) {
                    Ok(v) => v,
                    Err(e) => return Err(e),
                };
                let (rest, value) = match decode_u32(rest) {
                    Ok(v) => v,
                    Err(e) => return Err(e),
                };
                assert(rest@ =~= p@.skip(5));
                Ok((rest, FieldValue::Decimal(Decimal { scale, value })))
            },
            FieldValueKind::LongStr => match LongStr::decode(p) {
                Ok((rest, s)) => Ok((rest, FieldValue::LongStr(s))),
                Err(e) => Err(e),
            },
            FieldValueKind::FieldArray => match decode_field_array(p) {
                Ok((rest, a)) => Ok((rest, FieldValue::FieldArray(a))),
                Err(e) => Err(e),
            },
            FieldValueKind::FieldTable => match FieldTable::decode(p) {
                Ok((rest, t)) => Ok((rest, FieldValue::FieldTable(t))),
                Err(e) => Err(e),
            },
            FieldValueKind::BytesArray => match LongStr::decode(p) {
                Ok((rest, s)) => Ok((rest, FieldValue::BytesArray(s))),
                Err(e) => Err(e),
            },
            FieldValueKind::Void => {
                assert(p@ =~= p@.skip(0));
                Ok((p, FieldValue::Void))
            },
            FieldValueKind::Unknown => Err(
                FrameDecodeErr::SyntaxError(SyntaxErrorKind::UnknownFieldKind),
            ),
            FieldValueKind::Boolean | FieldValueKind::I8 | FieldValueKind::U8
            | FieldValueKind::I16 | FieldValueKind::U16 => FieldValue::decode_narrow(kind, p),
            _ => FieldValue::decode_wide(kind, p),
        }
    }

    fn decode_narrow(kind: FieldValueKind, p: &[u8]) -> (r: Result<(&[u8], FieldValue), FrameDecodeErr>)
        requires
            is_narrow(kind),
        ensures
            agrees(p@, r, parse_narrow(kind, p@)),
    {
        match kind {
            FieldValueKind::Boolean => match decode_u8(p) {
                Ok((rest, x)) => Ok((rest, FieldValue::Boolean(x != 0))),
                Err(e) => Err(e),
            },
            FieldValueKind::I8 => match decode_u8(p) {
                Ok((rest, x)) => Ok((rest, FieldValue::I8(x as i8))),
                Err(e) => Err(e),
            },
            FieldValueKind::U8 => match decode_u8(p) {
                Ok((rest, x)) => Ok((rest, FieldValue::U8(x))),
                Err(e) => Err(e),
            },
            FieldValueKind::I16 => match decode_u16(p) {
                Ok((rest, x)) => Ok((rest, FieldValue::I16(x as i16))),
                Err(e) => Err(e),
            },
            _ => match decode_u16(p) {
                Ok((rest, x)) => Ok((rest, FieldValue::U16(x))),
                Err(e) => Err(e),
            },
        }
    }

    fn decode_wide(kind: FieldValueKind, p: &[u8]) -> (r: Result<(&[u8], FieldValue), FrameDecodeErr>)
        ensures
            agrees(p@, r, parse_wide(kind, p@)),
    {
        match kind {
            FieldValueKind::I32 => match decode_u32(p) {
                Ok((rest, x)) => Ok((rest, FieldValue::I32(x as i32))),
                Err(e) => Err(e),
            },
            FieldValueKind::U32 => match decode_u32(p) {
                Ok((rest, x)) => Ok((rest, FieldValue::U32(x))),
                Err(e) => Err(e),
            },
            FieldValueKind::F32 => match decode_u32(p) {
                Ok((rest, x)) => Ok((rest, FieldValue::F32(x))),
                Err(e) => Err(e),
            },
            FieldValueKind::I64 => match decode_u64(p) {
                Ok((rest, x)) => Ok((rest, FieldValue::I64(x as i64))),
                Err(e) => Err(e),
            },
            FieldValueKind::U64 => match decode_u64(p) {
                Ok((rest, x)) => Ok((rest, FieldValue::U64(x))),
                Err(e) => Err(e),
            },
            FieldValueKind::F64 => match decode_u64(p) {
                Ok((rest, x)) => Ok((rest, FieldValue::F64(x))),
                Err(e) => Err(e),
            },
            _ => match decode_u64(p) {
                Ok((rest, x)) => Ok((rest, FieldValue::Timestamp(x))),
                Err(e) => Err(e),
            },
        }
    }
}

/// Writes a 4-byte length, then the values; the length is patched in once
/// the body is written.
pub fn encode_field_array(a: &FieldArray, out: &mut Vec<u8>)
    requires
        value_fits(FieldValueModel::FieldArray(values_view(a@))),
    ensures
        final(out)@ == old(out)@ + enc_array(values_view(a@)),
    decreases a,
{
    let ghost vs = values_view(a@);
    let start = out.len();
    put_u32(out, 0);
    let mut i: usize = 0;
    while i < a.len()
        invariant
            i <= a@.len(),
            vs == values_view(a@),
            value_fits(FieldValueModel::FieldArray(vs)),
            start == old(out)@.len(),
            out@ == old(out)@ + be32(0) + enc_values(vs.take(i as int)),
        decreases a@.len() - i,
    {
        assert(value_fits(vs[i as int]));
        a[i].encode(out);
        proof {
            lemma_enc_values_push(vs.take(i as int), vs[i as int]);
            assert(vs.take(i + 1) =~= vs.take(i as int).push(vs[i as int]));
        }
        i = i + 1;
    }
    assert(vs.take(i as int) =~= vs);
    let len = (out.len() - start - 4) as u32;
    patch_u32(out, start, len);
    assert(out@ =~= old(out)@ + enc_array(vs));
}

/// Reads a 4-byte length and exactly that many bytes of values.
pub fn decode_field_array(p: &[u8]) -> (r: Result<(&[u8], FieldArray), FrameDecodeErr>)
    ensures
        match parse_array(p@) {
            Ok((n, m)) => r matches Ok((rest, a)) && rest@ == p@.skip(n as int)
                && FieldValueModel::FieldArray(values_view(a@)) == m,
            Err(e) => r matches Err(e2) && e2 == e,
        },
    decreases p@.len(), 0int,
{
    let (rest, n) = match decode_u32(p) {
        Ok(v) => v,
        Err(e) => return Err(e),
    };
    let (rest, body) = match take_bytes(rest, n as usize) {
        Ok(v) => v,
        Err(e) => return Err(e),
    };
    assert(body@ =~= p@.subrange(4, 4 + n));
    assert(rest@ =~= p@.skip(4 + n));
    match decode_array_body(body) {
        Ok(a) => Ok((rest, a)),
        Err(e) => Err(e),
    }
}

fn decode_array_body(body: &[u8]) -> (r: Result<FieldArray, FrameDecodeErr>)
    ensures
        match parse_array_body(body@, seq![]) {
            Ok(vs) => r matches Ok(a) && values_view(a@) == vs,
            Err(e) => r matches Err(e2) && e2 == e,
        },
    decreases body@.len(), 1int,
{
    let mut acc: Vec<FieldValue> = Vec::new();
    let mut cur = body;
    assert(values_view(acc@) =~= Seq::<FieldValueModel>::empty());
    while cur.len() > 0
        invariant
            cur@.len() <= body@.len(),
            parse_array_body(body@, seq![]) == parse_array_body(cur@, values_view(acc@)),
        decreases cur@.len(),
    {
        match FieldValue::decode(cur) {
            Err(e) => return Err(with_context(e, DecodeContext::FieldArray)),
            Ok((rest, v)) => {
                proof {
                    lemma_parse_value_consumes(cur@);
                    assert(values_view(acc@.push(v)) =~= values_view(acc@).push(v@));
                }
                acc.push(v);
                cur = rest;
            },
        }
    }
    Ok(acc)
}

impl FieldTable {
    #[verifier::type_invariant]
    spec fn inv(self) -> bool {
        keys_unique(entries_view(self.entries@))
    }

    pub fn new() -> (r: FieldTable)
        ensures
            r@ == Seq::<(Seq<char>, FieldValueModel)>::empty(),
    {
        let t = FieldTable { entries: Vec::new() };
        assert(t@ =~= Seq::<(Seq<char>, FieldValueModel)>::empty());
        t
    }

    pub fn len(&self) -> (r: usize)
        ensures
            r == self@.len(),
    {
        self.entries.len()
    }

    pub fn is_empty(&self) -> (r: bool)
        ensures
            r == (self@.len() == 0),
    {
        self.entries.len() == 0
    }

    /// The keys are pairwise distinct.
    pub fn keys_are_unique(&self) -> (r: bool)
        ensures
            r,
            keys_unique(self@),
    {
        proof {
            use_type_invariant(self);
        }
        true
    }

    /// Sets `name` to `value`: an existing entry is replaced in place, a new
    /// one goes at the end.
    pub fn insert(&mut self, name: FieldName, value: FieldValue)
        ensures
            final(self)@ == table_insert(old(self)@, name@, value@),
    {
        proof {
            use_type_invariant(&*self);
        }
        let ghost es = self@;
        let ghost k = name@;
        let ghost v = value@;
        let mut taken = FieldTable { entries: Vec::new() };
        assert(taken@ =~= Seq::<(Seq<char>, FieldValueModel)>::empty());
        std::mem::swap(self, &mut taken);
        let mut entries = taken.entries;
        assert(entries_view(entries@) == es);
        match position(&entries, &name) {
            Some(i) => {
                proof {
                    assert(has_key(es, k));
                    let c = choose|c: int| 0 <= c < es.len() && #[trigger] es[c].0 == k;
                    assert(c == i);
                }
                entries.set(i, (name, value));
                assert(entries_view(entries@) =~= es.update(i as int, (k, v)));
                *self = FieldTable { entries };
            },
            None => {
                assert(!has_key(es, k));
                entries.push((name, value));
                assert(entries_view(entries@) =~= es.push((k, v)));
                assert(keys_unique(es.push((k, v)))) by {
                    assert forall|a: int, b: int| 0 <= a < b < es.len() + 1 implies #[trigger] es.push(
                        (k, v),
                    )[a].0 != #[trigger] es.push((k, v))[b].0 by {
                        if b == es.len() {
                            assert(es[a].0 != k);
                        }
                    }
                }
                *self = FieldTable { entries };
            },
        }
    }

    /// The value under `name`, if any.
    pub fn get(&self, name: &FieldName) -> (r: Option<&FieldValue>)
        ensures
            match table_get(self@, name@) {
                Some(m) => r matches Some(v) && v@ == m,
                None => r is None,
            },
    {
        proof {
            use_type_invariant(self);
        }
        match position(&self.entries, name) {
            Some(i) => {
                proof {
                    assert(has_key(self@, name@));
                    let c = choose|c: int| 0 <= c < self@.len() && #[trigger] self@[c].0 == name@;
                    assert(c == i);
                }
                Some(&self.entries[i].1)
            },
            None => None,
        }
    }

    /// Writes a 4-byte length, then the entries; the length is patched in
    /// once the body is written.
    pub fn encode(&self, out: &mut Vec<u8>)
        requires
            value_fits(FieldValueModel::FieldTable(self@)),
        ensures
            final(out)@ == old(out)@ + enc_table(self@),
        decreases self,
    {
        let ghost es = self@;
        let start = out.len();
        put_u32(out, 0);
        let mut i: usize = 0;
        while i < self.entries.len()
            invariant
                i <= self.entries@.len(),
                es == self@,
                value_fits(FieldValueModel::FieldTable(es)),
                start == old(out)@.len(),
                out@ == old(out)@ + be32(0) + enc_entries(es.take(i as int)),
            decreases self.entries@.len() - i,
        {
            let ghost before = out@;
            assert(value_fits(es[i as int].1));
            self.entries[i].0.encode(out);
            self.entries[i].1.encode(out);
            proof {
                lemma_enc_entries_push(es.take(i as int), es[i as int]);
                assert(es.take(i + 1) =~= es.take(i as int).push(es[i as int]));
                assert(out@ =~= old(out)@ + be32(0) + enc_entries(es.take(i + 1)));
            }
            i = i + 1;
        }
        assert(es.take(i as int) =~= es);
        let len = (out.len() - start - 4) as u32;
        patch_u32(out, start, len);
        assert(out@ =~= old(out)@ + enc_table(es));
    }

    /// Reads a 4-byte length and exactly that many bytes of entries.
    pub fn decode(p: &[u8]) -> (r: Result<(&[u8], FieldTable), FrameDecodeErr>)
        ensures
            agrees(p@, r, parse_table_sized(p@)),
        decreases p@.len(), 0int,
    {
        let (rest, n) = match decode_u32(p) {
            Ok(v) => v,
            Err(e) => return Err(e),
        };
        let (rest, body) = match take_bytes(rest, n as usize) {
            Ok(v) => v,
            Err(e) => return Err(e),
        };
        assert(body@ =~= p@.subrange(4, 4 + n));
        assert(rest@ =~= p@.skip(4 + n));
        match FieldTable::decode_body(body) {
            Ok(t) => Ok((rest, t)),
            Err(e) => Err(e),
        }
    }

    fn decode_body(body: &[u8]) -> (r: Result<FieldTable, FrameDecodeErr>)
        ensures
            match parse_table_body(body@, seq![]) {
                Ok(es) => r matches Ok(t) && t@ == es,
                Err(e) => r matches Err(e2) && e2 == e,
            },
        decreases body@.len(), 1int,
    {
        let mut acc = FieldTable::new();
        let mut cur = body;
        while cur.len() > 0
            invariant
                cur@.len() <= body@.len(),
                parse_table_body(body@, seq![]) == parse_table_body(cur@, acc@),
            decreases cur@.len(),
        {
            let (after_name, name) = match FieldName::decode(cur) {
                Ok(v) => v,
                Err(e) => return Err(with_context(e, DecodeContext::FieldTable)),
            };
            let (rest, value) = match FieldValue::decode(after_name) {
                Ok(v) => v,
                Err(e) => return Err(with_context(e, DecodeContext::FieldTable)),
            };
            proof {
                lemma_parse_value_consumes(after_name@);
                let k1 = cur@.len() - after_name@.len();
                let k2 = after_name@.len() - rest@.len();
                assert(rest@ =~= cur@.skip(k1 + k2));
            }
            acc.insert(name, value);
            cur = rest;
        }
        Ok(acc)
    }
}

/// Where `name` stands among the entries, if it does.
fn position(entries: &Vec<(FieldName, FieldValue)>, name: &FieldName) -> (r: Option<usize>)
    ensures
        match r {
            Some(i) => i < entries@.len() && entries_view(entries@)[i as int].0 == name@,
            None => forall|j: int|
                0 <= j < entries@.len() ==> #[trigger] entries_view(entries@)[j].0 != name@,
        },
{
    let ghost es = entries_view(entries@);
    let mut i: usize = 0;
    while i < entries.len()
        invariant
            i <= entries@.len(),
            es == entries_view(entries@),
            forall|j: int| 0 <= j < i ==> #[trigger] es[j].0 != name@,
        decreases entries@.len() - i,
    {
        assert(es[i as int] == (entries@[i as int].0@, entries@[i as int].1@));
        if entries[i].0.eq(name) {
            return Some(i);
        }
        i = i + 1;
    }
    None
}

/// Round trip of a field table: its encoding, followed by anything, decodes
/// to the same entries in the same order; so re-encoding what was decoded
/// gives the same bytes again.
#[verifier::spinoff_prover]
pub proof fn lemma_table_round_trip(es: Seq<(Seq<char>, FieldValueModel)>, rest: Seq<u8>)
    requires
        value_wf(FieldValueModel::FieldTable(es)),
    ensures
        parse_table_sized(enc_table(es) + rest) == Ok::<
            (nat, Seq<(Seq<char>, FieldValueModel)>),
            FrameDecodeErr,
        >((enc_table(es).len(), es)),
{
    let body = enc_entries(es);
    let n = body.len() as u32;
    let p = enc_table(es) + rest;
    assert(p =~= be32(n) + (body + rest));
    lemma_parse_u32_prefix(n, body + rest);
    assert(p.subrange(4, 4 + n) =~= body);
    assert(seq![] + es =~= es);
    lemma_entries_round_trip(es, seq![]);
}

/// A tag octet outside the table of kinds is a syntax error.
pub proof fn lemma_unknown_tag(b: Seq<u8>)
    requires
        b.len() >= 1,
        FieldValueKind::spec_from_tag(b[0]) is Unknown,
    ensures
        parse_value(b) == Err::<(nat, FieldValueModel), FrameDecodeErr>(
            FrameDecodeErr::SyntaxError(SyntaxErrorKind::UnknownFieldKind),
        ),
{
}

} // verus!
