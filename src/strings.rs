//! Length-prefixed strings: `ShortStr`, `LongStr` and the field-table key `FieldName`.
use vstd::prelude::*;
use vstd::utf8::*;
use vstd::string::*;
use crate::error::{FrameDecodeErr, SyntaxErrorKind, SpecResult, agrees};
use crate::wire::{be32, from_be32, lemma_parse_u32_prefix, put_u8, put_u32, put_slice, decode_u8, decode_u32, take_bytes};

verus! {

broadcast use {encode_utf8_valid_utf8, encode_utf8_decode_utf8};

/// Longest body of a `ShortStr`, in bytes.
pub const MAX_SHORT_STR_LEN: usize = 255;

/// Longest body of a `LongStr`, in bytes (stricter than the protocol).
pub const MAX_LONG_STR_LEN: usize = 65536;

/// Longest `FieldName`, in bytes.
pub const MAX_FIELD_NAME_LEN: usize = 128;

/// What `String::from_utf8_lossy` makes of a byte sequence that is not valid UTF-8.
pub uninterp spec fn lossy_of_invalid(b: Seq<u8>) -> Seq<char>;

/// The characters that lossy UTF-8 decoding gives for `b`.
pub open spec fn utf8_lossy(b: Seq<u8>) -> Seq<char> {
    if valid_utf8(b) {
        decode_utf8(b)
    } else {
        lossy_of_invalid(b)
    }
}

/// Relies on `String::from_utf8_lossy`: valid UTF-8 is decoded as is, and the
/// result depends on the bytes alone.
#[verifier::external_body]
fn string_from_utf8_lossy(b: &[u8]) -> (r: String)
    ensures
        valid_utf8(b@) ==> r@ == decode_utf8(b@),
        !valid_utf8(b@) ==> r@ == lossy_of_invalid(b@),
{
    String::from_utf8_lossy(b).into_owned()
}

/// The UTF-8 bytes of a string.
pub open spec fn utf8_bytes(s: Seq<char>) -> Seq<u8> {
    encode_utf8(s)
}

/// The UTF-8 bytes of `s`.
fn string_bytes(s: &String) -> (r: &[u8])
    ensures
        r@ == utf8_bytes(s@),
{
    s.as_str().as_bytes()
}

/// A string whose UTF-8 form is at most 255 bytes.
#[derive(Debug)]
pub struct ShortStr(String);

impl View for ShortStr {
    type V = Seq<char>;

    closed spec fn view(&self) -> Seq<char> {
        self.0@
    }
}

pub open spec fn short_str_ok(s: Seq<char>) -> bool {
    utf8_bytes(s).len() <= MAX_SHORT_STR_LEN
}

pub open spec fn enc_short_str(s: Seq<char>) -> Seq<u8> {
    seq![utf8_bytes(s).len() as u8] + utf8_bytes(s)
}

/// `ShortStr::with_bytes` on the body `b`.
pub open spec fn short_str_from(b: Seq<u8>) -> Result<Seq<char>, FrameDecodeErr> {
    if b.len() > MAX_SHORT_STR_LEN || !short_str_ok(utf8_lossy(b)) {
        Err(FrameDecodeErr::SyntaxError(SyntaxErrorKind::ShortStrTooLong))
    } else {
        Ok(utf8_lossy(b))
    }
}

pub open spec fn parse_short_str(b: Seq<u8>) -> SpecResult<Seq<char>> {
    if b.len() < 1 {
        Err(FrameDecodeErr::Incomplete)
    } else if b.len() < 1 + b[0] {
        Err(FrameDecodeErr::Incomplete)
    } else {
        match short_str_from(b.subrange(1, 1 + b[0])) {
            Ok(s) => Ok(((1 + b[0]) as nat, s)),
            Err(e) => Err(e),
        }
    }
}

impl ShortStr {
    #[verifier::type_invariant]
    spec fn inv(self) -> bool {
        short_str_ok(self.0@)
    }

    /// Builds a `ShortStr` from raw bytes, replacing invalid UTF-8.
    pub fn with_bytes(bytes: &[u8]) -> (r: Result<ShortStr, FrameDecodeErr>)
        ensures
            r matches Ok(s) ==> short_str_from(bytes@) == Ok::<Seq<char>, FrameDecodeErr>(s@),
            r matches Err(e) ==> short_str_from(bytes@) == Err::<Seq<char>, FrameDecodeErr>(e),
    {
        if bytes.len() > MAX_SHORT_STR_LEN {
            return Err(FrameDecodeErr::SyntaxError(SyntaxErrorKind::ShortStrTooLong));
        }
        let s = string_from_utf8_lossy(bytes);
        if string_bytes(&s).len() > MAX_SHORT_STR_LEN {
            return Err(FrameDecodeErr::SyntaxError(SyntaxErrorKind::ShortStrTooLong));
        }
        Ok(ShortStr(s))
    }

    /// The empty string.
    pub fn new() -> (r: ShortStr)
        ensures
            r@ == Seq::<char>::empty(),
    {
        let s = String::new();
        proof {
            assert(encode_utf8(s@).len() == 0) by {
                reveal_with_fuel(encode_utf8, 1);
            }
        }
        ShortStr(s)
    }

    pub fn to_string(&self) -> (r: String)
        ensures
            r@ == self@,
    {
        self.0.clone()
    }

    /// Length of the UTF-8 body in bytes.
    pub fn len(&self) -> (r: usize)
        ensures
            r == utf8_bytes(self@).len(),
            r <= MAX_SHORT_STR_LEN,
    {
        proof {
            use_type_invariant(self);
        }
        string_bytes(&self.0).len()
    }

    pub fn eq(&self, other: &ShortStr) -> (r: bool)
        ensures
            r == (self@ == other@),
    {
        self.0 == other.0
    }

    pub fn clone(&self) -> (r: ShortStr)
        ensures
            r@ == self@,
    {
        proof {
            use_type_invariant(self);
        }
        ShortStr(self.0.clone())
    }

    pub fn encode(&self, out: &mut Vec<u8>)
        ensures
            final(out)@ == old(out)@ + enc_short_str(self@),
    {
        proof {
            use_type_invariant(self);
        }
        let b = string_bytes(&self.0);
        put_u8(out, b.len() as u8);
        put_slice(out, b);
        assert(out@ =~= old(out)@ + enc_short_str(self@));
    }

    pub fn decode(buf: &[u8]) -> (r: Result<(&[u8], ShortStr), FrameDecodeErr>)
        ensures
            agrees(buf@, r, parse_short_str(buf@)),
    {
        let (rest, n) = match decode_u8(buf) {
            Ok(v) => v,
            Err(e) => return Err(e),
        };
        let (rest, body) = match take_bytes(rest, n as usize) {
            Ok(v) => v,
            Err(e) => return Err(e),
        };
        assert(body@ =~= buf@.subrange(1, 1 + n));
        assert(rest@ =~= buf@.skip(1 + n));
        match ShortStr::with_bytes(body) {
            Ok(s) => Ok((rest, s)),
            Err(e) => Err(e),
        }
    }
}

/// A string whose UTF-8 form is at most 65 536 bytes.
#[derive(Debug)]
pub struct LongStr(String);

/// Byte arrays share the wire form of `LongStr`.
pub type BytesArray = LongStr;

impl View for LongStr {
    type V = Seq<char>;

    closed spec fn view(&self) -> Seq<char> {
        self.0@
    }
}

pub open spec fn long_str_ok(s: Seq<char>) -> bool {
    utf8_bytes(s).len() <= MAX_LONG_STR_LEN
}

pub open spec fn enc_long_str(s: Seq<char>) -> Seq<u8> {
    be32(utf8_bytes(s).len() as u32) + utf8_bytes(s)
}

/// `LongStr::with_bytes` on the body `b`.
pub open spec fn long_str_from(b: Seq<u8>) -> Result<Seq<char>, FrameDecodeErr> {
    if b.len() > MAX_LONG_STR_LEN || !long_str_ok(utf8_lossy(b)) {
        Err(FrameDecodeErr::SyntaxError(SyntaxErrorKind::LongStrTooLong))
    } else {
        Ok(utf8_lossy(b))
    }
}

/// A declared length over the cap is refused before the body is looked for.
pub open spec fn parse_long_str(b: Seq<u8>) -> SpecResult<Seq<char>> {
    if b.len() < 4 {
        Err(FrameDecodeErr::Incomplete)
    } else {
        let n = from_be32(b[0], b[1], b[2], b[3]);
        if n > MAX_LONG_STR_LEN {
            Err(FrameDecodeErr::SyntaxError(SyntaxErrorKind::LongStrTooLong))
        } else if b.len() < 4 + n {
            Err(FrameDecodeErr::Incomplete)
        } else {
            match long_str_from(b.subrange(4, 4 + n)) {
                Ok(s) => Ok(((4 + n) as nat, s)),
                Err(e) => Err(e),
            }
        }
    }
}

impl LongStr {
    #[verifier::type_invariant]
    spec fn inv(self) -> bool {
        long_str_ok(self.0@)
    }

    /// Builds a `LongStr` from raw bytes, replacing invalid UTF-8.
    pub fn with_bytes(bytes: &[u8]) -> (r: Result<LongStr, FrameDecodeErr>)
        ensures
            r matches Ok(s) ==> long_str_from(bytes@) == Ok::<Seq<char>, FrameDecodeErr>(s@),
            r matches Err(e) ==> long_str_from(bytes@) == Err::<Seq<char>, FrameDecodeErr>(e),
    {
        if bytes.len() > MAX_LONG_STR_LEN {
            return Err(FrameDecodeErr::SyntaxError(SyntaxErrorKind::LongStrTooLong));
        }
        let s = string_from_utf8_lossy(bytes);
        if string_bytes(&s).len() > MAX_LONG_STR_LEN {
            return Err(FrameDecodeErr::SyntaxError(SyntaxErrorKind::LongStrTooLong));
        }
        Ok(LongStr(s))
    }

    /// The empty string.
    pub fn new() -> (r: LongStr)
        ensures
            r@ == Seq::<char>::empty(),
    {
        let s = String::new();
        proof {
            assert(encode_utf8(s@).len() == 0) by {
                reveal_with_fuel(encode_utf8, 1);
            }
        }
        LongStr(s)
    }

    pub fn to_string(&self) -> (r: String)
        ensures
            r@ == self@,
    {
        self.0.clone()
    }

    /// Length of the UTF-8 body in bytes.
    pub fn len(&self) -> (r: usize)
        ensures
            r == utf8_bytes(self@).len(),
            r <= MAX_LONG_STR_LEN,
    {
        proof {
            use_type_invariant(self);
        }
        string_bytes(&self.0).len()
    }

    pub fn clone(&self) -> (r: LongStr)
        ensures
            r@ == self@,
    {
        proof {
            use_type_invariant(self);
        }
        LongStr(self.0.clone())
    }

    pub fn encode(&self, out: &mut Vec<u8>)
        ensures
            final(out)@ == old(out)@ + enc_long_str(self@),
    {
        proof {
            use_type_invariant(self);
        }
        let b = string_bytes(&self.0);
        put_u32(out, b.len() as u32);
        put_slice(out, b);
        assert(out@ =~= old(out)@ + enc_long_str(self@));
    }

    pub fn decode(buf: &[u8]) -> (r: Result<(&[u8], LongStr), FrameDecodeErr>)
        ensures
            agrees(buf@, r, parse_long_str(buf@)),
    {
        let (rest, n) = match decode_u32(buf) {
            Ok(v) => v,
            Err(e) => return Err(e),
        };
        if n as usize > MAX_LONG_STR_LEN {
            return Err(FrameDecodeErr::SyntaxError(SyntaxErrorKind::LongStrTooLong));
        }
        let (rest, body) = match take_bytes(rest, n as usize) {
            Ok(v) => v,
            Err(e) => return Err(e),
        };
        assert(body@ =~= buf@.subrange(4, 4 + n));
        assert(rest@ =~= buf@.skip(4 + n));
        match LongStr::with_bytes(body) {
            Ok(s) => Ok((rest, s)),
            Err(e) => Err(e),
        }
    }
}

/// The first byte of a field name is `$`, `#` or an ASCII letter.
pub open spec fn name_start_ok(c: u8) -> bool {
    c == 0x24 || c == 0x23 || (0x41 <= c <= 0x5a) || (0x61 <= c <= 0x7a)
}

pub open spec fn field_name_bytes_ok(b: Seq<u8>) -> bool {
    b.len() >= 1 && name_start_ok(b[0]) && b.len() <= MAX_FIELD_NAME_LEN
}

pub open spec fn field_name_ok(s: Seq<char>) -> bool {
    field_name_bytes_ok(utf8_bytes(s))
}

/// `FieldName::with_bytes` on `b`.
pub open spec fn field_name_from(b: Seq<u8>) -> Result<Seq<char>, FrameDecodeErr> {
    if b.len() == 0 || !name_start_ok(b[0]) {
        Err(FrameDecodeErr::SyntaxError(SyntaxErrorKind::FieldNameStart))
    } else if b.len() > MAX_FIELD_NAME_LEN {
        Err(FrameDecodeErr::SyntaxError(SyntaxErrorKind::FieldNameTooLong))
    } else if !field_name_ok(utf8_lossy(b)) {
        Err(FrameDecodeErr::SyntaxError(SyntaxErrorKind::FieldNameTooLong))
    } else {
        Ok(utf8_lossy(b))
    }
}

pub open spec fn parse_field_name(b: Seq<u8>) -> SpecResult<Seq<char>> {
    if b.len() < 1 {
        Err(FrameDecodeErr::Incomplete)
    } else if b[0] > MAX_FIELD_NAME_LEN {
        Err(FrameDecodeErr::SyntaxError(SyntaxErrorKind::FieldNameTooLong))
    } else if b.len() < 1 + b[0] {
        Err(FrameDecodeErr::Incomplete)
    } else {
        match field_name_from(b.subrange(1, 1 + b[0])) {
            Ok(s) => Ok(((1 + b[0]) as nat, s)),
            Err(e) => Err(e),
        }
    }
}

/// A field-table key: a short string of at most 128 bytes that starts
/// with `$`, `#` or an ASCII letter.
#[derive(Debug)]
pub struct FieldName(String);

impl View for FieldName {
    type V = Seq<char>;

    closed spec fn view(&self) -> Seq<char> {
        self.0@
    }
}

impl FieldName {
    #[verifier::type_invariant]
    spec fn inv(self) -> bool {
        field_name_ok(self.0@)
    }

    pub fn with_bytes(bytes: &[u8]) -> (r: Result<FieldName, FrameDecodeErr>)
        ensures
            r matches Ok(s) ==> field_name_from(bytes@) == Ok::<Seq<char>, FrameDecodeErr>(s@),
            r matches Err(e) ==> field_name_from(bytes@) == Err::<Seq<char>, FrameDecodeErr>(e),
    {
        if bytes.len() == 0 || !is_name_start(bytes[0]) {
            return Err(FrameDecodeErr::SyntaxError(SyntaxErrorKind::FieldNameStart));
        }
        if bytes.len() > MAX_FIELD_NAME_LEN {
            return Err(FrameDecodeErr::SyntaxError(SyntaxErrorKind::FieldNameTooLong));
        }
        let s = string_from_utf8_lossy(bytes);
        let b = string_bytes(&s);
        if b.len() == 0 || !is_name_start(b[0]) || b.len() > MAX_FIELD_NAME_LEN {
            return Err(FrameDecodeErr::SyntaxError(SyntaxErrorKind::FieldNameTooLong));
        }
        Ok(FieldName(s))
    }

    pub fn to_string(&self) -> (r: String)
        ensures
            r@ == self@,
    {
        self.0.clone()
    }

    pub fn eq(&self, other: &FieldName) -> (r: bool)
        ensures
            r == (self@ == other@),
    {
        self.0 == other.0
    }

    pub fn clone(&self) -> (r: FieldName)
        ensures
            r@ == self@,
    {
        proof {
            use_type_invariant(self);
        }
        FieldName(self.0.clone())
    }

    pub fn encode(&self, out: &mut Vec<u8>)
        ensures
            final(out)@ == old(out)@ + enc_short_str(self@),
    {
        proof {
            use_type_invariant(self);
        }
        let b = string_bytes(&self.0);
        put_u8(out, b.len() as u8);
        put_slice(out, b);
        assert(out@ =~= old(out)@ + enc_short_str(self@));
    }

    pub fn decode(buf: &[u8]) -> (r: Result<(&[u8], FieldName), FrameDecodeErr>)
        ensures
            agrees(buf@, r, parse_field_name(buf@)),
    {
        let (rest, n) = match decode_u8(buf) {
            Ok(v) => v,
            Err(e) => return Err(e),
        };
        if n as usize > MAX_FIELD_NAME_LEN {
            return Err(FrameDecodeErr::SyntaxError(SyntaxErrorKind::FieldNameTooLong));
        }
        let (rest, body) = match take_bytes(rest, n as usize) {
            Ok(v) => v,
            Err(e) => return Err(e),
        };
        assert(body@ =~= buf@.subrange(1, 1 + n));
        assert(rest@ =~= buf@.skip(1 + n));
        match FieldName::with_bytes(body) {
            Ok(s) => Ok((rest, s)),
            Err(e) => Err(e),
        }
    }
}

fn is_name_start(c: u8) -> (r: bool)
    ensures
        r == name_start_ok(c),
{
    c == 0x24 || c == 0x23 || (0x41 <= c && c <= 0x5a) || (0x61 <= c && c <= 0x7a)
}

/// Round trip of a short string: its encoding, followed by anything, decodes to it.
pub proof fn lemma_short_str_round_trip(s: Seq<char>, rest: Seq<u8>)
    requires
        short_str_ok(s),
    ensures
        parse_short_str(enc_short_str(s) + rest) == Ok::<(nat, Seq<char>), FrameDecodeErr>(
            (enc_short_str(s).len(), s),
        ),
{
    let b = enc_short_str(s) + rest;
    let body = utf8_bytes(s);
    assert(b[0] == body.len() as u8);
    assert(b.subrange(1, 1 + body.len() as int) =~= body);
}

pub proof fn lemma_long_str_round_trip(s: Seq<char>, rest: Seq<u8>)
    requires
        long_str_ok(s),
    ensures
        parse_long_str(enc_long_str(s) + rest) == Ok::<(nat, Seq<char>), FrameDecodeErr>(
            (enc_long_str(s).len(), s),
        ),
{
    let body = utf8_bytes(s);
    let b = enc_long_str(s) + rest;
    lemma_parse_u32_prefix(body.len() as u32, body + rest);
    assert(b =~= be32(body.len() as u32) + (body + rest));
    assert(b.subrange(4, 4 + body.len() as int) =~= body);
}

pub proof fn lemma_field_name_round_trip(s: Seq<char>, rest: Seq<u8>)
    requires
        field_name_ok(s),
    ensures
        parse_field_name(enc_short_str(s) + rest) == Ok::<(nat, Seq<char>), FrameDecodeErr>(
            (enc_short_str(s).len(), s),
        ),
{
    let b = enc_short_str(s) + rest;
    let body = utf8_bytes(s);
    assert(b[0] == body.len() as u8);
    assert(b.subrange(1, 1 + body.len() as int) =~= body);
}

/// A short string body over 255 octets is refused; a valid UTF-8 body of at
/// most 255 octets is accepted as is, and its encoding decodes back to it.
pub proof fn lemma_short_str_bounds(b: Seq<u8>, rest: Seq<u8>)
    ensures
        b.len() > MAX_SHORT_STR_LEN ==> short_str_from(b) == Err::<Seq<char>, FrameDecodeErr>(
            FrameDecodeErr::SyntaxError(SyntaxErrorKind::ShortStrTooLong),
        ),
        b.len() <= MAX_SHORT_STR_LEN && valid_utf8(b) ==> short_str_from(b) == Ok::<
            Seq<char>,
            FrameDecodeErr,
        >(decode_utf8(b)) && parse_short_str(enc_short_str(decode_utf8(b)) + rest) == Ok::<
            (nat, Seq<char>),
            FrameDecodeErr,
        >((b.len() + 1, decode_utf8(b))),
{
    if b.len() <= MAX_SHORT_STR_LEN && valid_utf8(b) {
        decode_utf8_encode_utf8(b);
        lemma_short_str_round_trip(decode_utf8(b), rest);
    }
}

/// A long string whose declared length is over the cap is a syntax error,
/// however few octets of its body are there.
pub proof fn lemma_long_str_cap(b: Seq<u8>)
    requires
        b.len() >= 4,
        from_be32(b[0], b[1], b[2], b[3]) > MAX_LONG_STR_LEN,
    ensures
        parse_long_str(b) == Err::<(nat, Seq<char>), FrameDecodeErr>(
            FrameDecodeErr::SyntaxError(SyntaxErrorKind::LongStrTooLong),
        ),
{
}

/// A field name whose first octet is not `$`, `#` or an ASCII letter is a
/// syntax error.
pub proof fn lemma_field_name_start(b: Seq<u8>)
    requires
        b.len() >= 1,
        b[0] <= MAX_FIELD_NAME_LEN,
        b.len() >= 1 + b[0],
        b[0] == 0 || !name_start_ok(b[1]),
    ensures
        parse_field_name(b) == Err::<(nat, Seq<char>), FrameDecodeErr>(
            FrameDecodeErr::SyntaxError(SyntaxErrorKind::FieldNameStart),
        ),
{
    if b[0] > 0 {
        assert(b.subrange(1, 1 + b[0])[0] == b[1]);
    }
}

} // verus!
