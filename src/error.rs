use vstd::prelude::*;

verus! {

/// Why a byte sequence can never become valid, however many bytes follow.
#[derive(Clone, Copy, Debug, PartialEq, Eq, Structural)]
pub enum SyntaxErrorKind {
    ShortStrTooLong,
    LongStrTooLong,
    FieldNameStart,
    FieldNameTooLong,
    UnknownFieldKind,
    UnknownClass,
    UnknownMethod,
    WrongProtocol,
    FrameEnd,
    UnknownFrameType,
    HeartbeatLength,
}

/// The structure that was being decoded when a length-delimited body
/// turned out to be truncated or to hold trailing garbage.
#[derive(Clone, Copy, Debug, PartialEq, Eq, Structural)]
pub enum DecodeContext {
    FieldArray,
    FieldTable,
    MethodPayload,
    ContentHeaderPayload,
}

/// The three outcomes of a failed decode.
///
/// `Incomplete` means the input is a strict prefix of something that may
/// still decode; the other two are fatal.
#[derive(Clone, Copy, Debug, PartialEq, Eq, Structural)]
pub enum FrameDecodeErr {
    Incomplete,
    SyntaxError(SyntaxErrorKind),
    DecodeError(DecodeContext),
}

/// The spec-level outcome of decoding: bytes consumed and the value's model.
pub type SpecResult<M> = Result<(nat, M), FrameDecodeErr>;

/// An executable decode result `r` on input `buf` agrees with the spec
/// outcome `s`: same error, or the same value with the rest of the input
/// handed back.
pub open spec fn agrees<T: View>(
    buf: Seq<u8>,
    r: Result<(&[u8], T), FrameDecodeErr>,
    s: SpecResult<T::V>,
) -> bool {
    match s {
        Ok((n, m)) => n <= buf.len() && (r matches Ok((rest, v)) && rest@ == buf.skip(n as int)
            && v@ == m),
        Err(e) => r matches Err(e2) && e2 == e,
    }
}

} // verus!
