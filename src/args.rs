//! Method arguments as a list of wire fields in a fixed order.
use vstd::prelude::*;
use crate::error::{FrameDecodeErr, SpecResult};
use crate::wire::{
    be16, be32, be64, parse_u8, parse_u16, parse_u32, parse_u64, lemma_parse_u16_prefix,
    lemma_parse_u32_prefix, lemma_parse_u64_prefix,
};
use crate::strings::{
    enc_short_str, enc_long_str, parse_short_str, parse_long_str, short_str_ok, long_str_ok,
    lemma_short_str_round_trip, lemma_long_str_round_trip,
};
use crate::field::{
    FieldValueModel, enc_table, parse_table_sized, value_wf, lemma_table_round_trip,
};

verus! {

/// The wire type of one argument field.
pub enum ArgKind {
    Octet,
    Short,
    Long,
    LongLong,
    ShortStr,
    LongStr,
    Table,
    /// `n` booleans packed into one octet, the first in the lowest bit.
    Bits(nat),
}

/// The value of one argument field.
pub enum ArgModel {
    Octet(u8),
    Short(u16),
    Long(u32),
    LongLong(u64),
    ShortStr(Seq<char>),
    LongStr(Seq<char>),
    Table(Seq<(Seq<char>, FieldValueModel)>),
    Bits(Seq<bool>),
}

/// The octet that carries `bs`, the first flag in the lowest bit.
pub open spec fn pack_bits(bs: Seq<bool>) -> int
    decreases bs.len(),
{
    if bs.len() == 0 {
        0
    } else {
        (if bs[0] {
            1int
        } else {
            0int
        }) + 2 * pack_bits(bs.skip(1))
    }
}

/// The first `n` flags of octet value `x`; higher bits are ignored.
pub open spec fn unpack_bits(x: int, n: nat) -> Seq<bool>
    decreases n,
{
    if n == 0 {
        seq![]
    } else {
        seq![x % 2 == 1] + unpack_bits(x / 2, (n - 1) as nat)
    }
}

pub open spec fn enc_arg(m: ArgModel) -> Seq<u8> {
    match m {
        ArgModel::Octet(x) => seq![x],
        ArgModel::Short(x) => be16(x),
        ArgModel::Long(x) => be32(x),
        ArgModel::LongLong(x) => be64(x),
        ArgModel::ShortStr(s) => enc_short_str(s),
        ArgModel::LongStr(s) => enc_long_str(s),
        ArgModel::Table(es) => enc_table(es),
        ArgModel::Bits(bs) => seq![pack_bits(bs) as u8],
    }
}

pub open spec fn enc_args(ms: Seq<ArgModel>) -> Seq<u8>
    decreases ms.len(),
{
    if ms.len() == 0 {
        seq![]
    } else {
        enc_arg(ms[0]) + enc_args(ms.skip(1))
    }
}

pub open spec fn parse_arg(k: ArgKind, b: Seq<u8>) -> SpecResult<ArgModel> {
    match k {
        ArgKind::Octet => match parse_u8(b) {
            Ok((n, x)) => Ok((n, ArgModel::Octet(x))),
            Err(e) => Err(e),
        },
        ArgKind::Short => match parse_u16(b) {
            Ok((n, x)) => Ok((n, ArgModel::Short(x))),
            Err(e) => Err(e),
        },
        ArgKind::Long => match parse_u32(b) {
            Ok((n, x)) => Ok((n, ArgModel::Long(x))),
            Err(e) => Err(e),
        },
        ArgKind::LongLong => match parse_u64(b) {
            Ok((n, x)) => Ok((n, ArgModel::LongLong(x))),
            Err(e) => Err(e),
        },
        ArgKind::ShortStr => match parse_short_str(b) {
            Ok((n, s)) => Ok((n, ArgModel::ShortStr(s))),
            Err(e) => Err(e),
        },
        ArgKind::LongStr => match parse_long_str(b) {
            Ok((n, s)) => Ok((n, ArgModel::LongStr(s))),
            Err(e) => Err(e),
        },
        ArgKind::Table => match parse_table_sized(b) {
            Ok((n, es)) => Ok((n, ArgModel::Table(es))),
            Err(e) => Err(e),
        },
        ArgKind::Bits(c) => match parse_u8(b) {
            Ok((n, x)) => Ok((n, ArgModel::Bits(unpack_bits(x as int, c)))),
            Err(e) => Err(e),
        },
    }
}

/// Decoding the fields of `ks` one after the other.
pub open spec fn parse_args(ks: Seq<ArgKind>, b: Seq<u8>) -> SpecResult<Seq<ArgModel>>
    decreases ks.len(),
{
    if ks.len() == 0 {
        Ok((0, seq![]))
    } else {
        match parse_arg(ks[0], b) {
            Err(e) => Err(e),
            Ok((n, m)) => if n <= b.len() {
                match parse_args(ks.skip(1), b.skip(n as int)) {
                    Err(e) => Err(e),
                    Ok((n2, ms)) => Ok((n + n2, seq![m] + ms)),
                }
            } else {
                Err(FrameDecodeErr::Incomplete)
            },
        }
    }
}

/// `m` is a valid value of wire type `k`.
pub open spec fn arg_fits(k: ArgKind, m: ArgModel) -> bool {
    match (k, m) {
        (ArgKind::Octet, ArgModel::Octet(_)) => true,
        (ArgKind::Short, ArgModel::Short(_)) => true,
        (ArgKind::Long, ArgModel::Long(_)) => true,
        (ArgKind::LongLong, ArgModel::LongLong(_)) => true,
        (ArgKind::ShortStr, ArgModel::ShortStr(s)) => short_str_ok(s),
        (ArgKind::LongStr, ArgModel::LongStr(s)) => long_str_ok(s),
        (ArgKind::Table, ArgModel::Table(es)) => value_wf(FieldValueModel::FieldTable(es)),
        (ArgKind::Bits(c), ArgModel::Bits(bs)) => bs.len() == c && c <= 8,
        _ => false,
    }
}

pub open spec fn args_fit(ks: Seq<ArgKind>, ms: Seq<ArgModel>) -> bool {
    ks.len() == ms.len() && forall|i: int| 0 <= i < ks.len() ==> #[trigger] arg_fits(ks[i], ms[i])
}

pub broadcast proof fn lemma_cons_index<A>(a: A, s: Seq<A>)
    ensures
        #[trigger] (seq![a] + s)[0] == a,
        (seq![a] + s).len() == s.len() + 1,
{
}

pub broadcast proof fn lemma_cons_skip<A>(a: A, s: Seq<A>)
    ensures
        #[trigger] (seq![a] + s).skip(1) == s,
{
    assert((seq![a] + s).skip(1) =~= s);
}

pub proof fn lemma_pack_bits(bs: Seq<bool>)
    requires
        bs.len() <= 8,
    ensures
        0 <= pack_bits(bs) < pow2(bs.len()),
        unpack_bits(pack_bits(bs), bs.len()) == bs,
    decreases bs.len(),
{
    if bs.len() > 0 {
        lemma_pack_bits(bs.skip(1));
        let p = pack_bits(bs);
        let q = pack_bits(bs.skip(1));
        assert(p % 2 == (if bs[0] { 1int } else { 0int }));
        assert(p / 2 == q);
        assert(unpack_bits(p, bs.len()) =~= seq![bs[0]] + bs.skip(1));
        assert(seq![bs[0]] + bs.skip(1) =~= bs);
    }
}

pub open spec fn pow2(n: nat) -> int
    decreases n,
{
    if n == 0 {
        1
    } else {
        2 * pow2((n - 1) as nat)
    }
}

pub proof fn lemma_pow2_le_256(n: nat)
    requires
        n <= 8,
    ensures
        pow2(n) <= 256,
{
    reveal_with_fuel(pow2, 9);
}

#[verifier::spinoff_prover]
#[verifier::rlimit(60)]
pub proof fn lemma_arg_round_trip(k: ArgKind, m: ArgModel, rest: Seq<u8>)
    requires
        arg_fits(k, m),
    ensures
        parse_arg(k, enc_arg(m) + rest) == Ok::<(nat, ArgModel), FrameDecodeErr>(
            (enc_arg(m).len(), m),
        ),
{
    match m {
        ArgModel::Octet(x) => {
            assert((seq![x] + rest)[0] == x);
        },
        ArgModel::Short(x) => lemma_parse_u16_prefix(x, rest),
        ArgModel::Long(x) => lemma_parse_u32_prefix(x, rest),
        ArgModel::LongLong(x) => lemma_parse_u64_prefix(x, rest),
        ArgModel::ShortStr(s) => lemma_short_str_round_trip(s, rest),
        ArgModel::LongStr(s) => lemma_long_str_round_trip(s, rest),
        ArgModel::Table(es) => lemma_table_round_trip(es, rest),
        ArgModel::Bits(bs) => {
            lemma_pack_bits(bs);
            lemma_pow2_le_256(bs.len());
            let x = pack_bits(bs) as u8;
            assert((seq![x] + rest)[0] == x);
        },
    }
}

/// Round trip of an argument list: the encoding of fields that fit their
/// layout, followed by anything, decodes to those fields.
#[verifier::spinoff_prover]
#[verifier::rlimit(60)]
pub proof fn lemma_args_round_trip(ks: Seq<ArgKind>, ms: Seq<ArgModel>, rest: Seq<u8>)
    requires
        args_fit(ks, ms),
    ensures
        parse_args(ks, enc_args(ms) + rest) == Ok::<(nat, Seq<ArgModel>), FrameDecodeErr>(
            (enc_args(ms).len(), ms),
        ),
    decreases ks.len(),
{
    if ks.len() == 0 {
        assert(ms =~= Seq::<ArgModel>::empty());
    } else {
        let tail = enc_args(ms.skip(1));
        assert(arg_fits(ks[0], ms[0]));
        lemma_arg_round_trip(ks[0], ms[0], tail + rest);
        let b = enc_args(ms) + rest;
        assert(b =~= enc_arg(ms[0]) + (tail + rest));
        let n = enc_arg(ms[0]).len();
        assert(b.skip(n as int) =~= tail + rest);
        assert forall|i: int| 0 <= i < ks.skip(1).len() implies #[trigger] arg_fits(
            ks.skip(1)[i],
            ms.skip(1)[i],
        ) by {
            assert(arg_fits(ks[i + 1], ms[i + 1]));
        }
        lemma_args_round_trip(ks.skip(1), ms.skip(1), rest);
        assert(seq![ms[0]] + ms.skip(1) =~= ms);
    }
}

pub broadcast proof fn lemma_skip_skip<A>(s: Seq<A>, a: int, b: int)
    requires
        0 <= a,
        0 <= b,
        a + b <= s.len(),
    ensures
        #[trigger] s.skip(a).skip(b) == s.skip(a + b),
{
    assert(s.skip(a).skip(b) =~= s.skip(a + b));
}

/// One flag as a bit value.
pub fn bit(b: bool) -> (r: u8)
    ensures
        r == (if b {
            1int
        } else {
            0int
        }),
{
    if b {
        1
    } else {
        0
    }
}

/// `r`, after `n` bytes already consumed into the fields `done`.
pub open spec fn prepend(r: SpecResult<Seq<ArgModel>>, n: nat, done: Seq<ArgModel>) -> SpecResult<
    Seq<ArgModel>,
> {
    match r {
        Ok((n2, ms)) => Ok((n + n2, done + ms)),
        Err(e) => Err(e),
    }
}

pub proof fn lemma_prepend_start(r: SpecResult<Seq<ArgModel>>)
    ensures
        prepend(r, 0, Seq::<ArgModel>::empty()) == r,
{
    match r {
        Ok((n, ms)) => {
            assert(Seq::<ArgModel>::empty() + ms =~= ms);
        },
        Err(_) => {},
    }
}

/// Decoding a layout field by field: the first field either fails, and so
/// does the whole, or moves from the layout to the rest of it.
pub proof fn lemma_args_step(ks: Seq<ArgKind>, b: Seq<u8>, c: nat, done: Seq<ArgModel>)
    requires
        ks.len() > 0,
    ensures
        match parse_arg(ks[0], b) {
            Ok((n, m)) => n <= b.len() ==> prepend(parse_args(ks, b), c, done) == prepend(
                parse_args(ks.skip(1), b.skip(n as int)),
                c + n,
                done.push(m),
            ),
            Err(e) => prepend(parse_args(ks, b), c, done) == Err::<(nat, Seq<ArgModel>), FrameDecodeErr>(e),
        },
{
    match parse_arg(ks[0], b) {
        Ok((n, m)) => {
            if n <= b.len() {
                match parse_args(ks.skip(1), b.skip(n as int)) {
                    Ok((n2, ms)) => {
                        assert(done + (seq![m] + ms) =~= done.push(m) + ms);
                    },
                    Err(_) => {},
                }
            }
        },
        Err(_) => {},
    }
}

/// One optional field: nothing when absent, else the field.
#[verifier::opaque]
pub open spec fn opt_parse(present: bool, k: ArgKind, b: Seq<u8>) -> SpecResult<Option<ArgModel>> {
    if !present {
        Ok((0, None))
    } else {
        match parse_arg(k, b) {
            Ok((n, m)) => Ok((n, Some(m))),
            Err(e) => Err(e),
        }
    }
}

/// Decoding the fields of `ks` whose `present` flag is set, one after the other.
pub open spec fn parse_opt_args(ks: Seq<ArgKind>, present: Seq<bool>, b: Seq<u8>) -> SpecResult<
    Seq<Option<ArgModel>>,
>
    decreases ks.len(),
{
    if ks.len() == 0 || present.len() == 0 {
        Ok((0, seq![]))
    } else {
        match opt_parse(present[0], ks[0], b) {
            Err(e) => Err(e),
            Ok((n, o)) => if n <= b.len() {
                match parse_opt_args(ks.skip(1), present.skip(1), b.skip(n as int)) {
                    Err(e) => Err(e),
                    Ok((n2, ms)) => Ok((n + n2, seq![o] + ms)),
                }
            } else {
                Err(FrameDecodeErr::Incomplete)
            },
        }
    }
}

pub open spec fn enc_opt_arg(o: Option<ArgModel>) -> Seq<u8> {
    match o {
        Some(m) => enc_arg(m),
        None => Seq::<u8>::empty(),
    }
}

pub open spec fn enc_opt_args(ms: Seq<Option<ArgModel>>) -> Seq<u8>
    decreases ms.len(),
{
    if ms.len() == 0 {
        seq![]
    } else {
        enc_opt_arg(ms[0]) + enc_opt_args(ms.skip(1))
    }
}

pub open spec fn prepend_opt(
    r: SpecResult<Seq<Option<ArgModel>>>,
    n: nat,
    done: Seq<Option<ArgModel>>,
) -> SpecResult<Seq<Option<ArgModel>>> {
    match r {
        Ok((n2, ms)) => Ok((n + n2, done + ms)),
        Err(e) => Err(e),
    }
}

pub proof fn lemma_prepend_opt_start(r: SpecResult<Seq<Option<ArgModel>>>)
    ensures
        prepend_opt(r, 0, Seq::<Option<ArgModel>>::empty()) == r,
{
    match r {
        Ok((n, ms)) => {
            assert(Seq::<Option<ArgModel>>::empty() + ms =~= ms);
        },
        Err(_) => {},
    }
}

/// Decoding optional fields one by one: the first either fails, and so
/// does the whole, or moves on to the rest.
pub proof fn lemma_opt_args_step(
    ks: Seq<ArgKind>,
    present: Seq<bool>,
    b: Seq<u8>,
    c: nat,
    done: Seq<Option<ArgModel>>,
)
    requires
        ks.len() > 0,
        present.len() > 0,
    ensures
        match opt_parse(present[0], ks[0], b) {
            Ok((n, o)) => n <= b.len() ==> prepend_opt(parse_opt_args(ks, present, b), c, done)
                == prepend_opt(
                parse_opt_args(ks.skip(1), present.skip(1), b.skip(n as int)),
                c + n,
                done.push(o),
            ),
            Err(e) => prepend_opt(parse_opt_args(ks, present, b), c, done) == Err::<
                (nat, Seq<Option<ArgModel>>),
                FrameDecodeErr,
            >(e),
        },
{
    match opt_parse(present[0], ks[0], b) {
        Ok((n, o)) => {
            if n <= b.len() {
                match parse_opt_args(ks.skip(1), present.skip(1), b.skip(n as int)) {
                    Ok((n2, ms)) => {
                        assert(done + (seq![o] + ms) =~= done.push(o) + ms);
                    },
                    Err(_) => {},
                }
            }
        },
        Err(_) => {},
    }
}

pub proof fn lemma_enc_opt_args_push(ms: Seq<Option<ArgModel>>, m: Option<ArgModel>)
    ensures
        enc_opt_args(ms.push(m)) == enc_opt_args(ms) + enc_opt_arg(m),
    decreases ms.len(),
{
    if ms.len() == 0 {
        let w = ms.push(m);
        assert(w.skip(1) =~= Seq::<Option<ArgModel>>::empty());
        assert(w[0] == m);
        assert(enc_opt_args(w.skip(1)) =~= Seq::<u8>::empty());
        assert(enc_opt_args(w) =~= enc_opt_arg(m));
        assert(enc_opt_args(ms) =~= Seq::<u8>::empty());
    } else {
        assert(ms.push(m).skip(1) =~= ms.skip(1).push(m));
        lemma_enc_opt_args_push(ms.skip(1), m);
        assert(enc_opt_args(ms.push(m)) =~= enc_opt_args(ms) + enc_opt_arg(m));
    }
}

pub proof fn lemma_prepend_opt_shift(r: SpecResult<Seq<Option<ArgModel>>>, k: nat)
    ensures
        prepend_opt(r, k, Seq::<Option<ArgModel>>::empty()) == (match r {
            Ok((n, ms)) => Ok((k + n, ms)),
            Err(e) => Err(e),
        }),
{
    match r {
        Ok((n, ms)) => {
            assert(Seq::<Option<ArgModel>>::empty() + ms =~= ms);
        },
        Err(_) => {},
    }
}

/// Optional fields whose presence matches `present` and which fit their
/// types decode back from their encoding, followed by anything.
#[verifier::spinoff_prover]
#[verifier::rlimit(60)]
pub proof fn lemma_opt_args_round_trip(
    ks: Seq<ArgKind>,
    present: Seq<bool>,
    ms: Seq<Option<ArgModel>>,
    rest: Seq<u8>,
)
    requires
        ks.len() == ms.len(),
        present.len() == ms.len(),
        forall|i: int|
            0 <= i < ms.len() ==> (#[trigger] present[i] <==> ms[i] is Some) && (ms[i] is Some
                ==> arg_fits(ks[i], ms[i]->Some_0)),
    ensures
        parse_opt_args(ks, present, enc_opt_args(ms) + rest) == Ok::<
            (nat, Seq<Option<ArgModel>>),
            FrameDecodeErr,
        >((enc_opt_args(ms).len(), ms)),
    decreases ks.len(),
{
    reveal(opt_parse);
    if ks.len() == 0 {
        assert(ms =~= Seq::<Option<ArgModel>>::empty());
    } else {
        let tail = enc_opt_args(ms.skip(1));
        let b = enc_opt_args(ms) + rest;
        assert(present[0] <==> ms[0] is Some);
        if ms[0] is Some {
            assert(arg_fits(ks[0], ms[0]->Some_0));
            lemma_arg_round_trip(ks[0], ms[0]->Some_0, tail + rest);
        }
        assert(b =~= enc_opt_arg(ms[0]) + (tail + rest));
        let n = enc_opt_arg(ms[0]).len();
        assert(b.skip(n as int) =~= tail + rest);
        assert forall|i: int| 0 <= i < ms.skip(1).len() implies (#[trigger] present.skip(1)[i]
            <==> ms.skip(1)[i] is Some) && (ms.skip(1)[i] is Some ==> arg_fits(
            ks.skip(1)[i],
            ms.skip(1)[i]->Some_0,
        )) by {
            assert(present[i + 1] <==> ms[i + 1] is Some);
        }
        lemma_opt_args_round_trip(ks.skip(1), present.skip(1), ms.skip(1), rest);
        assert(seq![ms[0]] + ms.skip(1) =~= ms);
    }
}

} // verus!
